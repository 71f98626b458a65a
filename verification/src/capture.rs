//! From a captured screen to the frame that is sent: scaling, JPEG encoding, framing and
//! the pace of the frames.

use crate::frame;
use crate::jpeg;
use crate::scale;
use crate::text;
use image::codecs::jpeg::JpegEncoder;
use vstd::prelude::*;
use vstd::string::*;

verus! {

/// The error type of the `image` crate. It is carried to the caller as it came.
#[verifier::external_type_specification]
#[verifier::external_body]
pub struct ExImageError(image::ImageError);

/// Why there is no frame, and no further one.
pub enum FrameError {
    /// The monitors could not be listed, for this reason.
    Monitors(String),
    /// The JPEG encoder refused the image.
    JpegEncode(image::ImageError),
}

/// A screen as the operating system handed it over: RGBA bytes, row by row.
pub struct Capture {
    pub rgba: Vec<u8>,
    pub width: u32,
    pub height: u32,
}

/// What trying to capture the screen came to.
pub enum Shot {
    /// The monitors could not be listed, for this reason.
    NoMonitors(String),
    /// No monitor has the index any more.
    MonitorGone,
    /// The monitor could not be captured.
    Failed,
    /// The screen.
    Taken(Capture),
}

/// The JPEG data that `image::codecs::jpeg::JpegEncoder` makes of RGB bytes, a width, a
/// height and a quality.
pub uninterp spec fn jpeg_encoding(rgb: Seq<u8>, width: u32, height: u32, quality: u8) -> Seq<u8>;

/// Whether a width and a height can be written into a JPEG header.
pub open spec fn jpeg_size(width: u32, height: u32) -> bool {
    1 <= width <= 0xffff && 1 <= height <= 0xffff
}

/// Calls `JpegEncoder::new_with_quality` and `JpegEncoder::encode` of the `image` crate on
/// 8-bit RGB pixels, writing to a vector. Trusted: the encoder panics on a buffer whose
/// length is not three bytes for each pixel, which `requires` leaves out; it fails exactly
/// on a width or a height that is zero or above 65535; and the data it writes depends on
/// nothing but its arguments. It also panics where three bytes for each pixel of a row are
/// more than a `usize` counts, which `requires` leaves out too. The header that it writes is
/// that of a baseline frame of the given size and of three components, each sampled once in
/// both directions, with one scan, which the decoder can be handed unless its pixels, at four
/// bytes each, are more than memory holds. What the JPEG data is beyond that, is not stated.
#[verifier::external_body]
fn encode_jpeg(rgb: &[u8], width: u32, height: u32, quality: u8) -> (res: Result<
    Vec<u8>,
    image::ImageError,
>)
    requires
        rgb@.len() == width * height * 3,
        width * 3 <= usize::MAX,
    ensures
        res is Ok <==> jpeg_size(width, height),
        res matches Ok(jpeg) ==> jpeg@ == jpeg_encoding(rgb@, width, height, quality),
        res matches Ok(jpeg) ==> jpeg::starts_as_jpeg(jpeg@) && jpeg::holds_size(
            jpeg@,
            width,
            height,
        ),
        res matches Ok(jpeg) ==> 4 * (width * height) <= isize::MAX ==> jpeg::decodable_shape(
            jpeg@,
        ),
{
    let mut jpeg: Vec<u8> = Vec::new();
    let mut encoder = JpegEncoder::new_with_quality(&mut jpeg, quality);
    match encoder.encode(rgb, width, height, image::ExtendedColorType::Rgb8) {
        Ok(()) => Ok(jpeg),
        Err(e) => Err(e),
    }
}

/// The RGB pixels of a capture in the size that it is sent in.
pub open spec fn sent_pixels(rgba: Seq<u8>, width: u32, height: u32, max_width: u32) -> Seq<u8> {
    let (w, h) = scale::fitted(width, height, max_width);
    if max_width > 0 && width > max_width {
        scale::resized(scale::rgb_of(rgba), width as int, height as int, w as int, h as int)
    } else {
        scale::rgb_of(rgba)
    }
}

/// Whether a capture holds the pixels that sending it takes from it: all of them where it
/// is sent as it is, those that scaling picks where it is scaled.
pub open spec fn capture_holds(len: int, width: u32, height: u32, max_width: u32) -> bool {
    let (w, h) = scale::fitted(width, height, max_width);
    if max_width > 0 && width > max_width {
        &&& scale::resize_fits(len / 4 * 3, width as int, height as int, w as int, h as int)
        &&& w * h * 3 <= isize::MAX
        &&& w * 3 <= usize::MAX
    } else {
        &&& len / 4 == width * height
        &&& w * 3 <= usize::MAX
    }
}

/// The frame that a capture is sent as.
pub open spec fn capture_frame(
    rgba: Seq<u8>,
    width: u32,
    height: u32,
    max_width: u32,
    quality: u8,
) -> Seq<u8> {
    let (w, h) = scale::fitted(width, height, max_width);
    frame::frame_bytes(
        w,
        h,
        jpeg_encoding(sent_pixels(rgba, width, height, max_width), w, h, quality),
    )
}

/// Whether the header of a capture's JPEG data holds the size that the capture is sent in,
/// and is one that the viewer's decoder can be handed, if the pixels, at four bytes each, are
/// no more than memory holds.
pub open spec fn readable_by_viewer(
    rgba: Seq<u8>,
    width: u32,
    height: u32,
    max_width: u32,
    quality: u8,
) -> bool {
    let (w, h) = scale::fitted(width, height, max_width);
    let jpeg = jpeg_encoding(sent_pixels(rgba, width, height, max_width), w, h, quality);
    &&& jpeg::starts_as_jpeg(jpeg)
    &&& jpeg::holds_size(jpeg, w, h)
    &&& 4 * (w * h) <= isize::MAX ==> jpeg::decodable_shape(jpeg)
}

/// Whether a capture, in the size that it is sent in, can be written as JPEG.
pub open spec fn capture_encodes(width: u32, height: u32, max_width: u32) -> bool {
    let (w, h) = scale::fitted(width, height, max_width);
    jpeg_size(w, h)
}

impl Capture {
    /// Whether a capture holds the pixels that sending it under a limit on the width takes
    /// from it.
    pub fn holds(&self, max_width: u32) -> (res: bool)
        ensures
            res == capture_holds(self.rgba@.len() as int, self.width, self.height, max_width),
    {
        let len: usize = self.rgba.len();
        let (w, h): (u32, u32) = scale::fit_width(self.width, self.height, max_width);
        if w as u64 * 3 > usize::MAX as u64 {
            return false;
        }
        if max_width > 0 && self.width > max_width {
            scale::holds_samples(len / 4 * 3, self.width, self.height, w, h) && scale::pixel_count(
                w,
                h,
            ) * 3 <= isize::MAX as u128
        } else {
            (len / 4) as u128 == scale::pixel_count(self.width, self.height)
        }
    }
}

/// Makes a frame of a captured screen: drops the alpha channel, scales down to the limit
/// on the width where there is one, encodes as JPEG and puts the header in front.
pub fn encode_capture(capture: &Capture, max_width: u32, quality: u8) -> (res: Result<
    Vec<u8>,
    FrameError,
>)
    requires
        capture_holds(capture.rgba@.len() as int, capture.width, capture.height, max_width),
    ensures
        match res {
            Ok(payload) => {
                &&& capture_encodes(capture.width, capture.height, max_width)
                &&& payload@ == capture_frame(
                    capture.rgba@,
                    capture.width,
                    capture.height,
                    max_width,
                    quality,
                )
                &&& readable_by_viewer(
                    capture.rgba@,
                    capture.width,
                    capture.height,
                    max_width,
                    quality,
                )
            },
            Err(e) => !capture_encodes(capture.width, capture.height, max_width) && e is JpegEncode,
        },
{
    let rgb: Vec<u8> = scale::strip_alpha(capture.rgba.as_slice());
    let (w, h): (u32, u32) = scale::fit_width(capture.width, capture.height, max_width);
    let pixels: Vec<u8> = if max_width > 0 && capture.width > max_width {
        scale::nearest_resize_rgb(rgb.as_slice(), capture.width, capture.height, w, h)
    } else {
        rgb
    };
    match encode_jpeg(pixels.as_slice(), w, h, quality) {
        Ok(jpeg) => Ok(frame::build_frame(w, h, jpeg.as_slice())),
        Err(e) => Err(FrameError::JpegEncode(e)),
    }
}

/// What one round of the frame loop sends. A monitor that is gone or could not be captured
/// gives nothing to send in this round; monitors that could not be listed, or a capture that
/// cannot be written as JPEG, end the loop.
pub fn next_payload(shot: Shot, max_width: u32, quality: u8) -> (res: Result<
    Option<Vec<u8>>,
    FrameError,
>)
    requires
        shot matches Shot::Taken(c) ==> capture_holds(
            c.rgba@.len() as int,
            c.width,
            c.height,
            max_width,
        ),
    ensures
        match shot {
            Shot::NoMonitors(reason) => res == Err::<Option<Vec<u8>>, FrameError>(
                FrameError::Monitors(reason),
            ),
            Shot::MonitorGone => res == Ok::<Option<Vec<u8>>, FrameError>(None),
            Shot::Failed => res == Ok::<Option<Vec<u8>>, FrameError>(None),
            Shot::Taken(c) => match res {
                Ok(sent) => {
                    &&& capture_encodes(c.width, c.height, max_width)
                    &&& sent matches Some(payload) && payload@ == capture_frame(
                        c.rgba@,
                        c.width,
                        c.height,
                        max_width,
                        quality,
                    )
                    &&& readable_by_viewer(c.rgba@, c.width, c.height, max_width, quality)
                },
                Err(e) => !capture_encodes(c.width, c.height, max_width) && e is JpegEncode,
            },
        },
{
    match shot {
        Shot::NoMonitors(reason) => Err(FrameError::Monitors(reason)),
        Shot::MonitorGone => Ok(None),
        Shot::Failed => Ok(None),
        Shot::Taken(c) => match encode_capture(&c, max_width, quality) {
            Ok(payload) => Ok(Some(payload)),
            Err(e) => Err(e),
        },
    }
}

/// A capture that holds every pixel of its screen can be sent under any limit on the width.
pub proof fn lemma_whole_capture_holds(len: int, width: u32, height: u32, max_width: u32)
    requires
        len == 4 * (width * height),
        len <= isize::MAX,
        width * 3 <= usize::MAX,
    ensures
        capture_holds(len, width, height, max_width),
{
    assert(len / 4 == width * height);
    assert(0 <= width * height) by (nonlinear_arith)
        requires
            width >= 0,
            height >= 0,
    ;
    let (w, h) = scale::fitted(width, height, max_width);
    if max_width > 0 && width > max_width {
        scale::lemma_fitted_size(width, height, max_width);
        assert(w * h <= width * height) by (nonlinear_arith)
            requires
                0 <= w <= width,
                0 <= h <= height,
        ;
        if h > 0 {
            let rgb = Seq::new((width * height * 3) as nat, |k: int| 0u8);
            scale::lemma_resized_pixel(
                rgb,
                width as int,
                height as int,
                w as int,
                h as int,
                0,
                0,
            );
        }
    }
}

/// The viewer reads off a frame the size and the very JPEG data that the host's encoder
/// made of the captured screen.
pub proof fn lemma_capture_frame_reads_back(
    rgba: Seq<u8>,
    width: u32,
    height: u32,
    max_width: u32,
    quality: u8,
)
    ensures
        ({
            let (w, h) = scale::fitted(width, height, max_width);
            frame::frame_parts(capture_frame(rgba, width, height, max_width, quality)) == Some(
                (
                    w,
                    h,
                    jpeg_encoding(sent_pixels(rgba, width, height, max_width), w, h, quality),
                ),
            )
        }),
{
    let (w, h) = scale::fitted(width, height, max_width);
    let jpeg = jpeg_encoding(sent_pixels(rgba, width, height, max_width), w, h, quality);
    frame::lemma_frame_reads_back(w, h, jpeg);
}

/// The time between two frames, in milliseconds. A rate of zero counts as one.
pub open spec fn interval_ms(fps: u32) -> int {
    if fps == 0 {
        1000
    } else {
        1000int / fps as int
    }
}

/// The time between two frames, in milliseconds.
pub fn frame_interval_ms(fps: u32) -> (res: u64)
    ensures
        res == interval_ms(fps),
{
    let rate: u32 = if fps == 0 {
        1
    } else {
        fps
    };
    proof {
        assert(0 <= 1000int / rate as int <= 1000) by (nonlinear_arith)
            requires
                rate >= 1,
        ;
    }
    (1000 / rate) as u64
}

/// The nanoseconds that are left of a frame's interval; `None` where it took it all.
pub open spec fn time_left(fps: u32, elapsed_ns: int) -> Option<int> {
    if elapsed_ns < 1_000_000 * interval_ms(fps) {
        Some(1_000_000 * interval_ms(fps) - elapsed_ns)
    } else {
        None
    }
}

/// How long to wait, in nanoseconds, after a frame that took `elapsed_ns` to capture and
/// send; `None` where the frame took its whole interval or longer.
pub fn pause_after_frame(fps: u32, elapsed_ns: u128) -> (res: Option<u64>)
    ensures
        match res {
            Some(pause) => elapsed_ns < 1_000_000 * interval_ms(fps) && pause == 1_000_000
                * interval_ms(fps) - elapsed_ns,
            None => elapsed_ns >= 1_000_000 * interval_ms(fps),
        },
        match res {
            Some(pause) => time_left(fps, elapsed_ns as int) == Some(pause as int),
            None => time_left(fps, elapsed_ns as int) is None,
        },
{
    let interval: u64 = frame_interval_ms(fps);
    proof {
        lemma_interval_bounds(fps);
    }
    let interval_ns: u64 = interval * 1_000_000;
    if elapsed_ns < interval_ns as u128 {
        Some((interval_ns as u128 - elapsed_ns) as u64)
    } else {
        None
    }
}

/// An interval is at most a second, and as many intervals as the rate says fit into one.
pub proof fn lemma_interval_bounds(fps: u32)
    ensures
        0 <= interval_ms(fps) <= 1000,
        fps * interval_ms(fps) <= 1000,
        fps >= 1 ==> 1000 < fps * (interval_ms(fps) + 1),
        fps <= 1 ==> interval_ms(fps) == 1000,
{
    let rate: int = if fps == 0 {
        1
    } else {
        fps as int
    };
    let q = 1000int / rate;
    assert(0 <= q <= 1000 && rate * q <= 1000 && (rate == 1 ==> q == 1000)) by (nonlinear_arith)
        requires
            rate >= 1,
            q == 1000int / rate,
    ;
    assert(1000 < rate * (q + 1)) by (nonlinear_arith)
        requires
            rate >= 1,
            q == 1000int / rate,
    ;
    assert(fps * q <= 1000) by (nonlinear_arith)
        requires
            fps <= rate,
            rate * q <= 1000,
            0 <= q,
    ;
}

/// The message for a monitor index that no monitor has.
pub open spec fn monitor_missing(index: usize) -> Seq<char> {
    "monitor index "@ + text::decimal(index as nat) + " not found"@
}

/// Checks a monitor index against the number of monitors.
pub fn check_monitor(count: usize, index: usize) -> (res: Result<(), String>)
    ensures
        res is Ok <==> index < count,
        res matches Err(message) ==> message@ == monitor_missing(index),
{
    if index < count {
        Ok(())
    } else {
        let mut message = "monitor index ".to_owned();
        text::push_decimal(&mut message, index as u64);
        message.append(" not found");
        Err(message)
    }
}

/// The line that stands for a monitor in the list of monitors.
pub open spec fn monitor_text(index: usize, size: Option<(u32, u32)>) -> Seq<char> {
    match size {
        Some((w, h)) => text::decimal(index as nat) + ": "@ + text::decimal(w as nat) + " x "@
            + text::decimal(h as nat),
        None => text::decimal(index as nat) + ": (could not read dimensions)"@,
    }
}

/// The line that stands for a monitor in the list of monitors; `size` is `None` where its
/// dimensions could not be read.
pub fn monitor_line(index: usize, size: Option<(u32, u32)>) -> (res: String)
    ensures
        res@ == monitor_text(index, size),
{
    let mut line = String::new();
    text::push_decimal(&mut line, index as u64);
    match size {
        Some((w, h)) => {
            line.append(": ");
            text::push_decimal(&mut line, w as u64);
            line.append(" x ");
            text::push_decimal(&mut line, h as u64);
        },
        None => {
            line.append(": (could not read dimensions)");
        },
    }
    assert(line@ =~= monitor_text(index, size));
    line
}

/// A capture that is no wider than the limit, or has none, is sent pixel by pixel, without
/// the alpha bytes.
pub proof fn lemma_narrow_capture_is_sent_whole(
    rgba: Seq<u8>,
    width: u32,
    height: u32,
    max_width: u32,
    p: int,
    c: int,
)
    requires
        max_width == 0 || width <= max_width,
        0 <= p < rgba.len() / 4,
        0 <= c < 3,
    ensures
        sent_pixels(rgba, width, height, max_width).len() == 3 * (rgba.len() / 4),
        sent_pixels(rgba, width, height, max_width)[3 * p + c] == rgba[4 * p + c],
{
    scale::lemma_alpha_is_dropped(rgba, p, c);
}

/// A capture that is wider than the limit is sent scaled down as a whole: to the limit as its
/// width and to the height `h` that keeps its shape, rounded down. The pixel in column `x` and
/// row `y` is the captured pixel at the same relative place, without its alpha byte.
pub proof fn lemma_wide_capture_is_sent_scaled(
    rgba: Seq<u8>,
    width: u32,
    height: u32,
    max_width: u32,
    h: u32,
    x: int,
    y: int,
    sx: int,
    sy: int,
    c: int,
)
    requires
        0 < max_width < width,
        rgba.len() == 4 * (width * height),
        h * width <= height * max_width < (h + 1) * width,
        0 <= x < max_width,
        0 <= y < h,
        sx * max_width <= x * width < (sx + 1) * max_width,
        sy * h <= y * height < (sy + 1) * h,
        0 <= c < 3,
    ensures
        sent_pixels(rgba, width, height, max_width).len() == max_width * h * 3,
        sent_pixels(rgba, width, height, max_width)[(y * max_width + x) * 3 + c] == rgba[(sy * width
            + sx) * 4 + c],
{
    lemma_sent_size(width, height, max_width, max_width, h);
    let rgb = scale::rgb_of(rgba);
    scale::lemma_scaling_keeps_places(
        rgb,
        width as int,
        height as int,
        max_width as int,
        h as int,
        x,
        y,
        sx,
        sy,
        c,
    );
    let p = sy * width + sx;
    assert(0 < height) by (nonlinear_arith)
        requires
            0 < h,
            0 < width,
            h * width <= height * max_width,
            0 < max_width,
    ;
    let tx = scale::lemma_place_exists(x, width as int, max_width as int);
    let ty = scale::lemma_place_exists(y, height as int, h as int);
    lemma_same_place(x, width as int, max_width as int, sx, tx);
    lemma_same_place(y, height as int, h as int, sy, ty);
    assert(0 <= p < width * height) by (nonlinear_arith)
        requires
            p == sy * width + sx,
            0 <= sx < width,
            0 <= sy < height,
    ;
    assert(rgba.len() / 4 == width * height);
    scale::lemma_alpha_is_dropped(rgba, p, c);
}

/// There is one row or column at a relative place.
proof fn lemma_same_place(i: int, source: int, target: int, s: int, t: int)
    requires
        0 < target,
        s * target <= i * source < (s + 1) * target,
        t * target <= i * source < (t + 1) * target,
    ensures
        s == t,
{
    assert(s == t) by (nonlinear_arith)
        requires
            0 < target,
            s * target < (t + 1) * target,
            t * target < (s + 1) * target,
    ;
}

/// The size that a capture is sent in is the one size that has the limit as its width, where
/// the capture is wider, and keeps its shape, rounded down.
proof fn lemma_sent_size(width: u32, height: u32, max_width: u32, w: u32, h: u32)
    requires
        0 < max_width < width ==> w == max_width && h * width <= height * max_width < (h + 1)
            * width,
        max_width == 0 || width <= max_width ==> w == width && h == height,
    ensures
        scale::fitted(width, height, max_width) == (w, h),
{
    scale::lemma_fitted_size(width, height, max_width);
    if 0 < max_width < width {
        let (fw, fh) = scale::fitted(width, height, max_width);
        lemma_same_place(height as int, max_width as int, width as int, h as int, fh as int);
    }
}

/// The frame of a capture is the byte 0xF1, the width and the height that it is sent in, the
/// byte that counts ones first, and the JPEG data of the pixels that are sent, in that size and
/// the quality asked for. It can be made exactly if both sides of the size are from 1 to 65535.
pub proof fn lemma_capture_becomes_a_frame(
    rgba: Seq<u8>,
    width: u32,
    height: u32,
    max_width: u32,
    quality: u8,
    w: u32,
    h: u32,
)
    requires
        0 < max_width < width ==> w == max_width && h * width <= height * max_width < (h + 1)
            * width,
        max_width == 0 || width <= max_width ==> w == width && h == height,
    ensures
        ({
            let data = capture_frame(rgba, width, height, max_width, quality);
            let pixels = sent_pixels(rgba, width, height, max_width);
            let jpeg = jpeg_encoding(pixels, w, h, quality);
            &&& data.len() == 9 + jpeg.len()
            &&& data[0] == 0xf1
            &&& data[1] + 256 * data[2] + 65536 * data[3] + 16777216 * data[4] == w
            &&& data[5] + 256 * data[6] + 65536 * data[7] + 16777216 * data[8] == h
            &&& forall|i: int| 0 <= i < jpeg.len() ==> #[trigger] data[9 + i] == jpeg[i]
        }),
        capture_encodes(width, height, max_width) <==> 1 <= w <= 65535 && 1 <= h <= 65535,
{
    lemma_sent_size(width, height, max_width, w, h);
    let pixels = sent_pixels(rgba, width, height, max_width);
    frame::lemma_frame_layout(w, h, jpeg_encoding(pixels, w, h, quality));
}

/// The line for a monitor is its index and its width and height, or that they are not known;
/// the message for a missing monitor names the index. Each number reads back.
pub proof fn lemma_monitor_texts(index: usize, w: u32, h: u32) -> (numbers: (
    Seq<char>,
    Seq<char>,
    Seq<char>,
))
    ensures
        ({
            let (i, a, b) = numbers;
            &&& text::reads_as(i, index as int)
            &&& text::reads_as(a, w as int)
            &&& text::reads_as(b, h as int)
            &&& monitor_text(index, Some((w, h))) == i + ": "@ + a + " x "@ + b
            &&& monitor_text(index, None) == i + ": (could not read dimensions)"@
            &&& monitor_missing(index) == "monitor index "@ + i + " not found"@
        }),
{
    text::lemma_decimal_reads_as(index as nat);
    text::lemma_decimal_reads_as(w as nat);
    text::lemma_decimal_reads_as(h as nat);
    (text::decimal(index as nat), text::decimal(w as nat), text::decimal(h as nat))
}

/// A frame and the pause behind it together last one interval: `fps` of them fit into a second,
/// and would not if each were a millisecond longer. There is no pause exactly if the frame alone
/// lasted that long. A rate of zero counts as one.
pub proof fn lemma_pause_keeps_the_rate(fps: u32, elapsed_ns: int)
    requires
        0 <= elapsed_ns,
    ensures
        ({
            let rate: int = if fps == 0 {
                1
            } else {
                fps as int
            };
            match time_left(fps, elapsed_ns) {
                Some(pause) => {
                    &&& pause > 0
                    &&& (elapsed_ns + pause) % 1_000_000 == 0
                    &&& rate * (elapsed_ns + pause) <= 1_000_000_000
                    &&& 1_000_000_000 < rate * (elapsed_ns + pause + 1_000_000)
                },
                None => 1_000_000_000 < rate * (elapsed_ns + 1_000_000),
            }
        }),
{
    lemma_interval_bounds(fps);
    let rate: int = if fps == 0 {
        1
    } else {
        fps as int
    };
    let q = interval_ms(fps);
    assert(rate * (1_000_000 * q) <= 1_000_000_000 < rate * (1_000_000 * q + 1_000_000))
        by (nonlinear_arith)
        requires
            rate * q <= 1000 < rate * (q + 1),
    ;
    if time_left(fps, elapsed_ns) is None {
        assert(1_000_000_000 < rate * (elapsed_ns + 1_000_000)) by (nonlinear_arith)
            requires
                1_000_000_000 < rate * (1_000_000 * q + 1_000_000),
                1_000_000 * q <= elapsed_ns,
                rate >= 1,
        ;
    }
}

} // verus!
