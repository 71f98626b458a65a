use remote_lab::scale::{fit_width, nearest_resize_rgb, strip_alpha};

fn numbered(pixels: usize) -> Vec<u8> {
    (0..pixels * 3).map(|i| i as u8).collect()
}

#[test]
fn alpha_bytes_are_dropped() {
    assert_eq!(strip_alpha(&[1, 2, 3, 255, 4, 5, 6, 0]), vec![1, 2, 3, 4, 5, 6]);
}

#[test]
fn bytes_after_the_last_pixel_are_left_out() {
    assert_eq!(strip_alpha(&[1, 2, 3, 4, 5, 6, 7]), vec![1, 2, 3]);
    assert_eq!(strip_alpha(&[1, 2, 3]), Vec::<u8>::new());
}

#[test]
fn limit_of_zero_is_no_limit() {
    assert_eq!(fit_width(3840, 2160, 0), (3840, 2160));
}

#[test]
fn narrow_capture_keeps_its_size() {
    assert_eq!(fit_width(1280, 800, 1280), (1280, 800));
    assert_eq!(fit_width(640, 480, 1280), (640, 480));
}

#[test]
fn wide_capture_keeps_its_shape() {
    assert_eq!(fit_width(1920, 1080, 1280), (1280, 720));
    assert_eq!(fit_width(1366, 768, 1280), (1280, 719));
    assert_eq!(fit_width(u32::MAX, u32::MAX, u32::MAX - 1), (u32::MAX - 1, u32::MAX - 1));
    assert_eq!(fit_width(5000, 1, 10), (10, 0));
}

#[test]
fn same_size_is_the_same_image() {
    let src = numbered(12);
    assert_eq!(nearest_resize_rgb(&src, 4, 3, 4, 3), src);
}

#[test]
fn half_size_takes_every_other_pixel() {
    let src = numbered(8);
    assert_eq!(nearest_resize_rgb(&src, 4, 2, 2, 1), vec![0, 1, 2, 6, 7, 8]);
}

#[test]
fn double_size_repeats_pixels() {
    let src = numbered(2);
    assert_eq!(
        nearest_resize_rgb(&src, 2, 1, 4, 2),
        vec![0, 1, 2, 0, 1, 2, 3, 4, 5, 3, 4, 5, 0, 1, 2, 0, 1, 2, 3, 4, 5, 3, 4, 5]
    );
}

#[test]
fn uneven_scaling_rounds_down() {
    let src = numbered(15);
    let out = nearest_resize_rgb(&src, 5, 3, 3, 2);
    let picked: Vec<u8> = out.chunks(3).map(|p| p[0] / 3).collect();
    assert_eq!(picked, vec![0, 1, 3, 5, 6, 8]);
}

#[test]
fn no_rows_or_columns_give_no_pixels() {
    assert_eq!(nearest_resize_rgb(&numbered(4), 2, 2, 3, 0), Vec::<u8>::new());
    assert_eq!(nearest_resize_rgb(&[], 0, 0, 0, 5), Vec::<u8>::new());
}

#[test]
fn source_needs_only_the_pixels_that_are_taken() {
    let src = numbered(1);
    assert_eq!(nearest_resize_rgb(&src, 2, 2, 1, 1), src);
}
