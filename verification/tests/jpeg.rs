use remote_lab::frame::build_frame;
use remote_lab::jpeg::has_decodable_shape;
use remote_lab::viewer::{Panel, Picture, RemoteViewer};

/// The sampling bytes that the decoder reads.
const SAMPLINGS: [u8; 12] =
    [0x11, 0x12, 0x13, 0x14, 0x21, 0x22, 0x23, 0x24, 0x41, 0x42, 0x43, 0x44];

/// The code of a baseline frame header.
const BASELINE: u8 = 0xc0;

/// The code of a progressive frame header.
const PROGRESSIVE: u8 = 0xc2;

/// JPEG data of one frame, with one quantisation table and Huffman tables of one code each.
#[derive(Clone)]
struct Jpeg {
    code: u8,
    width: u16,
    height: u16,
    /// The sampling byte of each component.
    sampling: Vec<u8>,
    /// How many components each scan has.
    scans: Vec<usize>,
    /// Segments before the frame header, behind it, and before each scan but the first.
    before: Vec<u8>,
    behind: Vec<u8>,
    between: Vec<u8>,
    /// The data of each scan; `None` for as many zero bits as the blocks of the scan take.
    entropy: Option<Vec<u8>>,
}

impl Jpeg {
    fn new(code: u8, sampling: &[u8], scans: &[usize]) -> Jpeg {
        Jpeg {
            code,
            width: 17,
            height: 33,
            sampling: sampling.to_vec(),
            scans: scans.to_vec(),
            before: vec![],
            behind: vec![],
            between: vec![],
            entropy: None,
        }
    }

    fn sized(mut self, width: u16, height: u16) -> Jpeg {
        (self.width, self.height) = (width, height);
        self
    }

    fn before(mut self, segments: &[u8]) -> Jpeg {
        self.before = segments.to_vec();
        self
    }

    fn behind(mut self, segments: &[u8]) -> Jpeg {
        self.behind = segments.to_vec();
        self
    }

    fn between(mut self, segments: &[u8]) -> Jpeg {
        self.between = segments.to_vec();
        self
    }

    fn entropy(mut self, entropy: &[u8]) -> Jpeg {
        self.entropy = Some(entropy.to_vec());
        self
    }

    /// How many blocks a scan of components has.
    fn blocks(&self, scanned: &[u8]) -> usize {
        let (width, height) = (usize::from(self.width), usize::from(self.height));
        let across = |hv: &u8| usize::from(hv / 16);
        let down = |hv: &u8| usize::from(hv % 16);
        let most_across = 8 * self.sampling.iter().map(across).max().unwrap();
        let most_down = 8 * self.sampling.iter().map(down).max().unwrap();
        if let [hv] = scanned {
            (width * across(hv)).div_ceil(most_across) * (height * down(hv)).div_ceil(most_down)
        } else {
            let unit: usize = scanned.iter().map(|hv| across(hv) * down(hv)).sum();
            unit * width.div_ceil(most_across) * height.div_ceil(most_down)
        }
    }

    fn bytes(&self) -> Vec<u8> {
        let n = self.sampling.len() as u8;
        let mut out = vec![0xff, 0xd8];
        out.extend_from_slice(&self.before);
        out.extend_from_slice(&[0xff, 0xdb, 0, 67, 0]);
        out.extend_from_slice(&[1; 64]);
        out.extend_from_slice(&[0xff, self.code, 0, 8 + 3 * n, 8]);
        out.extend_from_slice(&self.height.to_be_bytes());
        out.extend_from_slice(&self.width.to_be_bytes());
        out.push(n);
        for (k, hv) in self.sampling.iter().enumerate() {
            out.extend_from_slice(&[k as u8 + 1, *hv, 0]);
        }
        out.extend_from_slice(&self.behind);
        for table in [0x00, 0x10] {
            out.extend_from_slice(&[0xff, 0xc4, 0, 20, table, 1]);
            out.extend_from_slice(&[0; 16]);
        }
        let (last, bits) = if self.code == PROGRESSIVE { (0, 1) } else { (63, 2) };
        let mut from = 0;
        for count in &self.scans {
            if from > 0 {
                out.extend_from_slice(&self.between);
            }
            out.extend_from_slice(&[0xff, 0xda, 0, 6 + 2 * *count as u8, *count as u8]);
            for k in from..from + count {
                out.extend_from_slice(&[k as u8 + 1, 0]);
            }
            out.extend_from_slice(&[0, last, 0]);
            match &self.entropy {
                Some(entropy) => out.extend_from_slice(entropy),
                None => {
                    let blocks = self.blocks(&self.sampling[from..from + count]);
                    out.extend_from_slice(&vec![0; (bits * blocks).div_ceil(8)]);
                }
            }
            from += count;
        }
        out.extend_from_slice(&[0xff, 0xd9]);
        out
    }

    /// Whether the decoder can be handed the data.
    fn able(&self) -> bool {
        has_decodable_shape(&self.bytes())
    }

    /// The size at which a viewer shows the data.
    fn shown(&self) -> Option<(u32, u32)> {
        let mut viewer = RemoteViewer::new(String::new());
        let picture = viewer.try_push_frame(&build_frame(1, 1, &self.bytes())).unwrap()?;
        let (width, height) = (picture.width, picture.height);
        assert_eq!(picture.rgba.len() as u32, width * height * 4);
        assert_eq!(viewer.panel(), Panel::Picture { width, height });
        Some((width, height))
    }
}

/// An Adobe segment with a colour transform.
fn adobe(transform: u8) -> Vec<u8> {
    let mut out = vec![0xff, 0xee, 0, 14];
    out.extend_from_slice(b"Adobe\0");
    out.extend_from_slice(&[100, 0, 0, 0, 0, transform]);
    out
}

/// Bytes that look random, without a marker among them.
fn noise(seed: u32, len: usize) -> Vec<u8> {
    let mut state = seed;
    let mut out = Vec::new();
    for _ in 0..len {
        state = state.wrapping_mul(1664525).wrapping_add(1013904223);
        out.push((state >> 24) as u8 & 0x7f);
    }
    out
}

/// What the decoder makes of data.
fn decode(data: &[u8]) -> Option<Picture> {
    let rgba = image::load_from_memory(data).ok()?.to_rgba8();
    Some(Picture { width: rgba.width(), height: rgba.height(), rgba: rgba.into_raw() })
}

/// Whether the decoder makes a picture of data, where it may panic.
fn decodes(runtime: &tokio::runtime::Runtime, data: &[u8]) -> bool {
    let data = data.to_vec();
    let task = runtime.spawn_blocking(move || decode(&data).is_some());
    runtime.block_on(task).unwrap_or(false)
}

fn runtime() -> tokio::runtime::Runtime {
    tokio::runtime::Builder::new_current_thread().build().unwrap()
}

/// Hands data to a viewer. It shows what the decoder makes of the data, or takes nothing in.
/// With `certain` data, it takes nothing in only where the decoder makes no picture.
fn show(runtime: &tokio::runtime::Runtime, data: &[u8], certain: bool) {
    let message = build_frame(1, 1, data);
    let mut viewer = RemoteViewer::new(String::new());
    match viewer.try_push_frame(&message) {
        Some(shown) => {
            assert!(has_decodable_shape(data));
            let status = if shown.is_some() { "Connected" } else { "JPEG decode failed" };
            assert_eq!(viewer.status(), status);
            assert_eq!(shown, decode(data));
        }
        None => {
            assert!(!has_decodable_shape(data));
            assert_eq!(viewer.status(), "Connecting…");
            assert!(!certain || !decodes(runtime, data));
        }
    }
}

#[test]
fn common_frames_are_shown() {
    for code in [BASELINE, 0xc1, PROGRESSIVE] {
        for sampling in [
            &[0x11][..],
            &[0x22],
            &[0x11, 0x11, 0x11],
            &[0x21, 0x11, 0x11],
            &[0x12, 0x11, 0x11],
            &[0x22, 0x11, 0x11],
            &[0x41, 0x11, 0x11],
            &[0x22, 0x11, 0x11, 0x22],
        ] {
            for scanned in 1..=sampling.len() {
                let rest = sampling.len() - scanned;
                let scans = if rest > 0 { vec![scanned, rest] } else { vec![scanned] };
                let jpeg = Jpeg::new(code, sampling, &scans).entropy(&[0; 2]);
                assert_eq!(jpeg.shown(), Some((17, 33)));
            }
        }
    }
}

#[test]
fn component_denser_than_the_first_is_shown() {
    let denser = Jpeg::new(PROGRESSIVE, &[0x11, 0x21, 0x11], &[3]);
    assert_eq!(denser.clone().sized(8, 8).shown(), Some((8, 8)));
    assert_eq!(denser.sized(17, 33).shown(), None);
    let apart = Jpeg::new(BASELINE, &[0x11, 0x21, 0x11], &[1, 1, 1]);
    assert_eq!(apart.sized(8, 8).shown(), Some((8, 8)));
    let higher = Jpeg::new(BASELINE, &[0x12, 0x21, 0x11], &[1, 1, 1]);
    assert_eq!(higher.sized(32, 16).shown(), Some((32, 16)));
    let together = Jpeg::new(BASELINE, &[0x11, 0x22, 0x11], &[3]);
    assert_eq!(together.shown(), Some((17, 33)));
}

#[test]
fn doubling_needs_room() {
    assert!(!Jpeg::new(PROGRESSIVE, &[0x11, 0x22, 0x11], &[3]).able());
    assert!(!Jpeg::new(PROGRESSIVE, &[0x11, 0x22, 0x11], &[3]).sized(8, 8).able());
    assert!(!Jpeg::new(BASELINE, &[0x11, 0x22, 0x11], &[1, 2]).sized(8, 8).able());
    assert!(Jpeg::new(BASELINE, &[0x11, 0x22, 0x11], &[3]).able());
    assert!(Jpeg::new(PROGRESSIVE, &[0x21, 0x12, 0x11], &[3]).able());
    assert!(!Jpeg::new(PROGRESSIVE, &[0x12, 0x21, 0x11], &[3]).sized(8, 8).able());
}

#[test]
fn rows_of_a_scan_need_room() {
    let apart = |width, height| {
        Jpeg::new(BASELINE, &[0x11, 0x21, 0x11], &[1, 1, 1]).sized(width, height).able()
    };
    assert!(apart(8, 8));
    assert!(apart(8, 200));
    assert!(!apart(9, 8));
    assert!(!apart(17, 9));
    let wide = |scans: &[usize]| Jpeg::new(BASELINE, &[0x13, 0x41, 0x11], scans).sized(100, 24);
    assert!(wide(&[3]).able());
    assert!(!wide(&[2, 1]).able());
    show(&runtime(), &wide(&[1, 1, 1]).bytes(), true);
    assert!(wide(&[1, 1, 1]).able());
}

#[test]
fn data_with_a_wide_single_component_is_taken() {
    assert!(Jpeg::new(BASELINE, &[0x22], &[1]).sized(65535, 65535).entropy(&[0]).able());
    assert!(Jpeg::new(BASELINE, &[0x11], &[1]).sized(65535, 65535).entropy(&[0]).able());
}

#[test]
fn inks_need_components() {
    let pair = Jpeg::new(PROGRESSIVE, &[0x11, 0x11], &[1, 1]);
    assert!(!pair.clone().before(&adobe(2)).able());
    assert!(!pair.clone().behind(&adobe(2)).able());
    assert!(pair.clone().before(&adobe(1)).able());
    assert!(pair.clone().before(&adobe(2)).behind(&adobe(1)).able());
    assert!(!pair.before(&adobe(1)).behind(&adobe(2)).able());
    assert!(Jpeg::new(BASELINE, &[0x11, 0x11], &[1, 1]).before(&adobe(2)).able());
    let one = Jpeg::new(PROGRESSIVE, &[0x11], &[1]);
    assert_eq!(one.clone().before(&adobe(2)).shown(), Some((17, 33)));
    assert!(!one.clone().behind(&adobe(2)).able());
    assert!(!one.clone().behind(&[adobe(0), adobe(2)].concat()).able());
    assert!(one.behind(&[adobe(2), adobe(0)].concat()).able());
    assert!(Jpeg::new(PROGRESSIVE, &[0x11, 0x11, 0x11], &[3]).behind(&adobe(2)).able());
}

#[test]
fn foreign_segment_gives_no_inks() {
    let one = Jpeg::new(PROGRESSIVE, &[0x11], &[1]);
    let mut foreign = adobe(2);
    foreign[4] = b'a';
    assert_eq!(one.clone().behind(&foreign).shown(), Some((17, 33)));
    let mut short = adobe(2);
    short[3] = 13;
    assert_eq!(one.behind(&short).shown(), None);
}

#[test]
fn fourth_ink_can_be_lost() {
    let four = Jpeg::new(PROGRESSIVE, &[0x22, 0x11, 0x11, 0x22], &[4]);
    assert_eq!(four.clone().before(&adobe(1)).shown(), Some((17, 33)));
    assert!(!four.clone().behind(&adobe(1)).able());
    assert_eq!(four.clone().behind(&[adobe(1), adobe(2)].concat()).shown(), Some((17, 33)));
    assert!(Jpeg::new(PROGRESSIVE, &[0x11; 4], &[4]).behind(&adobe(1)).able());
    let apart = Jpeg::new(PROGRESSIVE, &[0x22, 0x11, 0x11, 0x22], &[1, 1, 1, 1]);
    assert_eq!(apart.clone().between(&adobe(2)).shown(), Some((17, 33)));
    assert!(!apart.clone().between(&adobe(1)).able());
    assert!(apart.clone().between(&[adobe(1), adobe(0)].concat()).able());
    let restarts = Jpeg { entropy: Some(vec![0, 0xff, 0xd0, 0]), ..apart.clone() };
    assert!(restarts.clone().able());
    assert!(!restarts.between(&adobe(1)).able());
    let mut trailed = four.bytes();
    trailed.extend_from_slice(&adobe(1));
    assert!(has_decodable_shape(&trailed));
}

#[test]
fn comment_takes_no_ink() {
    let mut comment = vec![0xff, 0xfe, 0, 18];
    comment.extend_from_slice(&adobe(1));
    let four = Jpeg::new(PROGRESSIVE, &[0x22, 0x11, 0x11, 0x22], &[1, 1, 1, 1]);
    assert_eq!(four.clone().behind(&comment).shown(), Some((17, 33)));
    assert_eq!(four.between(&comment).shown(), Some((17, 33)));
}

#[test]
fn frame_header_is_found_behind_other_segments() {
    let bad = Jpeg::new(PROGRESSIVE, &[0x11, 0x22, 0x11], &[3]);
    let mut segments = vec![0xff, 0xe0, 0, 6, 1, 2, 3, 4, 5];
    segments.extend_from_slice(&[9, 0xff, 0xff, 0xfe, 0, 4, 0xff, 0xc0, 0xff, 0, 7]);
    assert!(!bad.before(&segments).able());
}

#[test]
fn frame_header_inside_a_segment_is_none() {
    let thumbnail = Jpeg::new(PROGRESSIVE, &[0x11, 0x22, 0x11], &[3]).bytes();
    let mut segment = vec![0xff, 0xe1, 0, 2 + thumbnail.len() as u8];
    assert!(thumbnail.len() < 250);
    segment.extend_from_slice(&thumbnail);
    let good = Jpeg::new(BASELINE, &[0x11, 0x11, 0x11], &[3]).before(&segment);
    assert_eq!(good.shown(), Some((17, 33)));
}

#[test]
fn data_without_a_scan_is_not_shown() {
    let bad = Jpeg::new(PROGRESSIVE, &[0x11, 0x22, 0x11], &[3]).bytes();
    let scan = bad.windows(2).position(|w| w == [0xff, 0xda]).unwrap();
    for len in 0..scan + 2 {
        let mut viewer = RemoteViewer::new(String::new());
        assert_eq!(viewer.try_push_frame(&build_frame(17, 33, &bad[..len])), Some(None));
        assert_eq!(viewer.status(), "JPEG decode failed");
    }
    assert!(!has_decodable_shape(&bad[..scan + 2]));
}

#[test]
fn frame_without_a_size_is_not_shown() {
    for (width, height) in [(0, 33), (17, 0), (0, 0)] {
        let jpeg = Jpeg::new(PROGRESSIVE, &[0x11, 0x22, 0x11], &[3]).sized(width, height);
        assert_eq!(jpeg.entropy(&[]).shown(), None);
    }
}

#[test]
fn data_that_the_decoder_cannot_be_handed_is_not_taken() {
    let good = Jpeg::new(BASELINE, &[0x11], &[1]).sized(5, 4).bytes();
    let bad = Jpeg::new(PROGRESSIVE, &[0x11, 0x22, 0x11], &[3]).bytes();
    let mut viewer = RemoteViewer::new(String::new());
    assert!(viewer.push_frame(&build_frame(5, 4, &good)).is_some());
    assert_eq!(viewer.try_push_frame(&build_frame(17, 33, &bad)), None);
    assert_eq!(viewer.status(), "Connected");
    assert_eq!(viewer.panel(), Panel::Picture { width: 5, height: 4 });
    assert_eq!(viewer.try_push_frame(&[1, 2, 3]), Some(None));
    assert_eq!(viewer.status(), "Bad frame header from host");
}

/// Shows frames of one size with all samplings of three components, in some scans.
fn show_all(width: u16, height: u16) {
    let runtime = runtime();
    for a in SAMPLINGS {
        for b in SAMPLINGS {
            for c in SAMPLINGS {
                for code in [BASELINE, PROGRESSIVE] {
                    for scans in [&[3][..], &[1, 2], &[2, 1], &[1, 1, 1]] {
                        let jpeg = Jpeg::new(code, &[a, b, c], scans).sized(width, height);
                        let certain = code == PROGRESSIVE || scans.len() == 1;
                        show(&runtime, &jpeg.bytes(), certain);
                    }
                }
            }
        }
    }
}

#[test]
fn frames_of_a_block_are_shown() {
    show_all(8, 8);
}

#[test]
fn frames_of_odd_size_are_shown() {
    show_all(17, 33);
}

#[test]
fn frames_of_wide_size_are_shown() {
    show_all(70, 9);
}

#[test]
fn damaged_frames_are_shown() {
    let runtime = runtime();
    for a in SAMPLINGS {
        for b in SAMPLINGS {
            for c in SAMPLINGS {
                for code in [BASELINE, PROGRESSIVE] {
                    for scans in [&[3][..], &[1, 2]] {
                        for entropy in [&[][..], &noise(7, 9), &noise(8, 300)] {
                            let jpeg = Jpeg::new(code, &[a, b, c], scans).entropy(entropy);
                            let certain = code == PROGRESSIVE || scans.len() == 1;
                            show(&runtime, &jpeg.bytes(), certain);
                        }
                    }
                }
            }
        }
    }
}

#[test]
fn frames_of_every_colour_transform_are_shown() {
    let runtime = runtime();
    let transforms = [vec![], adobe(0), adobe(1), adobe(2), adobe(3)];
    for sampling in [
        &[0x11][..],
        &[0x22],
        &[0x11, 0x11],
        &[0x22, 0x11],
        &[0x12, 0x11],
        &[0x22, 0x11, 0x11],
        &[0x42, 0x21, 0x11],
        &[0x11, 0x11, 0x11, 0x11],
        &[0x22, 0x11, 0x11, 0x22],
        &[0x21, 0x11, 0x11, 0x11],
        &[0x12, 0x11, 0x11, 0x11],
    ] {
        for before in &transforms {
            for behind in &transforms {
                for between in &transforms {
                    for code in [BASELINE, PROGRESSIVE] {
                        for scans in [vec![sampling.len()], vec![1; sampling.len()]] {
                            let jpeg = Jpeg::new(code, sampling, &scans);
                            let jpeg = jpeg.before(before).behind(behind).between(between);
                            show(&runtime, &jpeg.bytes(), code == PROGRESSIVE);
                        }
                    }
                }
            }
        }
    }
}

#[test]
fn pairs_and_quadruples_are_shown() {
    let runtime = runtime();
    for a in SAMPLINGS {
        for b in SAMPLINGS {
            for sampling in [&[a][..], &[a, b], &[a, b, a, b], &[a, b, b, b], &[a, a, a, b]] {
                for code in [BASELINE, PROGRESSIVE] {
                    for scans in [vec![sampling.len()], vec![1; sampling.len()]] {
                        for behind in [vec![], adobe(1), adobe(2)] {
                            let jpeg = Jpeg::new(code, sampling, &scans).behind(&behind);
                            let certain = code == PROGRESSIVE || scans.len() == 1;
                            show(&runtime, &jpeg.bytes(), certain);
                        }
                    }
                }
            }
        }
    }
}
