use remote_lab::frame::build_frame;
use remote_lab::{parse_frame_header, FRAME_MAGIC};

#[test]
fn frame_is_marker_size_and_data() {
    let data = [0xF1, 0x00, 0x05, 0, 0, 0xD0, 0x02, 0, 0, 0xFF, 0xD8, 7];
    assert_eq!(parse_frame_header(&data), Some((1280, 720, &[0xFF, 0xD8, 7][..])));
}

#[test]
fn header_without_data_is_a_frame() {
    let data = [FRAME_MAGIC, 1, 2, 3, 4, 5, 6, 7, 8];
    assert_eq!(parse_frame_header(&data), Some((0x0403_0201, 0x0807_0605, &[][..])));
}

#[test]
fn short_bytes_are_no_frame() {
    assert_eq!(parse_frame_header(&[]), None);
    assert_eq!(parse_frame_header(&[FRAME_MAGIC, 0, 0, 0, 0, 0, 0, 0]), None);
}

#[test]
fn other_marker_is_no_frame() {
    assert_eq!(parse_frame_header(&[0xF2, 0, 0, 0, 0, 0, 0, 0, 0, 1]), None);
}

#[test]
fn built_frame_has_the_documented_bytes() {
    assert_eq!(
        build_frame(0x0102_0304, u32::MAX, &[9, 8]),
        vec![0xF1, 4, 3, 2, 1, 255, 255, 255, 255, 9, 8]
    );
}

#[test]
fn frame_reads_back() {
    for (w, h) in [(0, 0), (1, 65536), (1920, 1080), (u32::MAX, 255)] {
        let jpeg = vec![1u8, 2, 3, 250];
        let payload = build_frame(w, h, &jpeg);
        assert_eq!(parse_frame_header(&payload), Some((w, h, &jpeg[..])));
    }
}

#[test]
fn parsed_frame_writes_back() {
    let data = vec![0xF1, 200, 1, 0, 77, 3, 2, 1, 0, 5];
    let (w, h, jpeg) = parse_frame_header(&data).unwrap();
    assert_eq!(build_frame(w, h, jpeg), data);
}
