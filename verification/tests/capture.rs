use remote_lab::capture::{
    check_monitor, encode_capture, frame_interval_ms, monitor_line, next_payload,
    pause_after_frame, Capture, FrameError, Shot,
};
use remote_lab::parse_frame_header;

fn plain(width: u32, height: u32) -> Capture {
    let mut rgba = Vec::new();
    for _ in 0..width * height {
        rgba.extend_from_slice(&[200, 30, 60, 255]);
    }
    Capture { rgba, width, height }
}

#[test]
fn capture_becomes_a_jpeg_frame() {
    let payload = encode_capture(&plain(24, 16), 0, 60).ok().unwrap();
    let (w, h, jpeg) = parse_frame_header(&payload).unwrap();
    assert_eq!((w, h), (24, 16));
    assert_eq!(&jpeg[..2], &[0xFF, 0xD8]);
    assert_eq!(&jpeg[jpeg.len() - 2..], &[0xFF, 0xD9]);
    let picture = image::load_from_memory(jpeg).unwrap();
    assert_eq!((picture.width(), picture.height()), (24, 16));
}

#[test]
fn wide_capture_is_scaled_before_encoding() {
    let payload = encode_capture(&plain(40, 30), 20, 60).ok().unwrap();
    let (w, h, jpeg) = parse_frame_header(&payload).unwrap();
    assert_eq!((w, h), (20, 15));
    let same = encode_capture(&plain(20, 15), 0, 60).ok().unwrap();
    assert_eq!(jpeg, parse_frame_header(&same).unwrap().2);
}

#[test]
fn quality_reaches_the_encoder() {
    let mut noisy = plain(64, 64);
    for (i, b) in noisy.rgba.iter_mut().enumerate() {
        *b = (i * 7919 % 251) as u8;
    }
    let coarse = encode_capture(&noisy, 0, 5).ok().unwrap();
    let fine = encode_capture(&noisy, 0, 95).ok().unwrap();
    assert!(coarse.len() < fine.len());
}

#[test]
fn whole_capture_can_be_sent() {
    for max_width in [0, 1, 3, 5, 1280] {
        assert!(plain(5, 3).holds(max_width));
        assert!(plain(0, 3).holds(max_width));
    }
}

#[test]
fn capture_with_missing_pixels_cannot_be_sent() {
    assert!(!Capture { rgba: vec![0; 59], width: 5, height: 3 }.holds(0));
    assert!(!Capture { rgba: vec![], width: u32::MAX, height: u32::MAX }.holds(0));
    assert!(!Capture { rgba: vec![], width: u32::MAX, height: u32::MAX }.holds(7));
}

#[test]
fn surplus_bytes_matter_only_where_all_are_sent() {
    let surplus = Capture { rgba: vec![9; 64], width: 5, height: 3 };
    assert!(!surplus.holds(0));
    assert!(!surplus.holds(5));
    assert!(surplus.holds(4));
    assert!(encode_capture(&surplus, 4, 60).is_ok());
}

#[test]
fn scaling_needs_only_the_pixels_that_it_takes() {
    let cut = |pixels: usize| Capture { rgba: vec![9; pixels * 4], width: 4, height: 4 };
    assert!(cut(11).holds(2));
    assert!(!cut(10).holds(2));
    assert!(encode_capture(&cut(11), 2, 60).is_ok());
}

#[test]
fn equal_captures_give_equal_frames() {
    assert_eq!(
        encode_capture(&plain(9, 7), 4, 33).ok(),
        encode_capture(&plain(9, 7), 4, 33).ok()
    );
}

#[test]
fn capture_that_shrinks_to_nothing_is_an_error() {
    let flat = plain(100, 1);
    assert!(matches!(encode_capture(&flat, 10, 60), Err(FrameError::JpegEncode(_))));
}

#[test]
fn empty_capture_is_an_error() {
    assert!(encode_capture(&plain(0, 0), 0, 60).is_err());
    assert!(encode_capture(&plain(0, 5), 0, 60).is_err());
}

#[test]
fn largest_jpeg_size() {
    assert!(encode_capture(&plain(65535, 1), 0, 60).is_ok());
    assert!(encode_capture(&plain(65536, 1), 0, 60).is_err());
    assert!(encode_capture(&plain(1, 65536), 0, 60).is_err());
}

#[test]
fn round_without_capture_sends_nothing() {
    assert!(matches!(next_payload(Shot::MonitorGone, 1280, 60), Ok(None)));
    assert!(matches!(next_payload(Shot::Failed, 1280, 60), Ok(None)));
}

#[test]
fn round_with_capture_sends_its_frame() {
    let sent = next_payload(Shot::Taken(plain(8, 8)), 1280, 60).ok().unwrap();
    assert_eq!(sent, encode_capture(&plain(8, 8), 1280, 60).ok());
}

#[test]
fn round_without_monitors_ends_the_stream() {
    let round = next_payload(Shot::NoMonitors("no display".to_string()), 1280, 60);
    assert!(matches!(round, Err(FrameError::Monitors(reason)) if reason == "no display"));
}

#[test]
fn round_with_a_capture_that_cannot_be_encoded_ends_the_stream() {
    let round = next_payload(Shot::Taken(plain(0, 0)), 1280, 60);
    assert!(matches!(round, Err(FrameError::JpegEncode(_))));
}

#[test]
fn interval_of_a_rate() {
    assert_eq!(frame_interval_ms(0), 1000);
    assert_eq!(frame_interval_ms(1), 1000);
    assert_eq!(frame_interval_ms(12), 83);
    assert_eq!(frame_interval_ms(1000), 1);
    assert_eq!(frame_interval_ms(u32::MAX), 0);
}

#[test]
fn pause_fills_the_interval() {
    assert_eq!(pause_after_frame(12, 0), Some(83_000_000));
    assert_eq!(pause_after_frame(12, 82_999_999), Some(1));
    assert_eq!(pause_after_frame(12, 83_000_000), None);
    assert_eq!(pause_after_frame(12, u128::MAX), None);
    assert_eq!(pause_after_frame(5000, 0), None);
}

#[test]
fn monitor_index_is_checked() {
    assert_eq!(check_monitor(2, 1), Ok(()));
    assert_eq!(check_monitor(2, 2), Err("monitor index 2 not found".to_string()));
    assert_eq!(check_monitor(0, 0), Err("monitor index 0 not found".to_string()));
}

#[test]
fn monitors_are_listed() {
    assert_eq!(monitor_line(0, Some((1920, 1080))), "0: 1920 x 1080");
    assert_eq!(monitor_line(3, None), "3: (could not read dimensions)");
}
