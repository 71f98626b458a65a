//! Pixels on their way to the encoder: dropping the alpha channel, fitting a width and
//! nearest-neighbour scaling.

use vstd::arithmetic::div_mod::*;
use vstd::arithmetic::mul::*;
use vstd::prelude::*;

verus! {

/// The red, green and blue bytes of RGBA pixels; bytes that do not fill a pixel are left
/// out.
pub open spec fn rgb_of(rgba: Seq<u8>) -> Seq<u8> {
    Seq::new((rgba.len() / 4 * 3) as nat, |k: int| rgba[k / 3 * 4 + k % 3])
}

/// Drops the alpha byte of each RGBA pixel.
pub fn strip_alpha(rgba: &[u8]) -> (res: Vec<u8>)
    ensures
        res@ == rgb_of(rgba@),
{
    let pixels: usize = rgba.len() / 4;
    let mut rgb: Vec<u8> = Vec::with_capacity(pixels * 3);
    let mut i: usize = 0;
    while i < pixels
        invariant
            i <= pixels,
            pixels == rgba@.len() / 4,
            rgba@.len() <= usize::MAX,
            rgb@ =~= rgb_of(rgba@).take(i * 3),
        decreases pixels - i,
    {
        let at: usize = i * 4;
        let ghost k = i * 3;
        assert(k / 3 == i && (k + 1) / 3 == i && (k + 2) / 3 == i);
        rgb.push(rgba[at]);
        rgb.push(rgba[at + 1]);
        rgb.push(rgba[at + 2]);
        i += 1;
    }
    rgb
}

/// The size a capture is sent in. A limit of zero is no limit; a capture that is wider
/// than the limit gets the limit as its width and the height that keeps its shape,
/// rounded down.
pub open spec fn fitted(width: u32, height: u32, max_width: u32) -> (u32, u32) {
    if max_width > 0 && width > max_width {
        (max_width, (height * max_width / width as int) as u32)
    } else {
        (width, height)
    }
}

/// The size a capture is sent in under a limit on its width.
pub fn fit_width(width: u32, height: u32, max_width: u32) -> (res: (u32, u32))
    ensures
        res == fitted(width, height, max_width),
{
    if max_width > 0 && width > max_width {
        proof {
            lemma_fitted_height(width, height, max_width);
        }
        assert((height as u64) * (max_width as u64) <= u64::MAX) by (nonlinear_arith)
            requires
                height <= u32::MAX,
                max_width <= u32::MAX,
        ;
        let new_height: u64 = (height as u64) * (max_width as u64) / (width as u64);
        (max_width, new_height as u32)
    } else {
        (width, height)
    }
}

/// Scaling down never makes an image higher.
proof fn lemma_fitted_height(width: u32, height: u32, max_width: u32)
    requires
        0 < max_width < width,
    ensures
        0 <= height * max_width / width as int <= height,
{
    let p = height * max_width;
    assert(0 <= p <= height * width) by (nonlinear_arith)
        requires
            p == height * max_width,
            max_width < width,
    ;
    lemma_div_is_ordered(p, height * width, width as int);
    lemma_div_by_multiple(height as int, width as int);
    lemma_div_pos_is_pos(p, width as int);
}

/// A capture is sent in a size that respects the limit, is never larger than the capture
/// and keeps its shape up to one row; without a limit it is sent as it is.
pub proof fn lemma_fitted_size(width: u32, height: u32, max_width: u32)
    ensures
        ({
            let (w, h) = fitted(width, height, max_width);
            &&& w <= width && h <= height
            &&& max_width > 0 ==> w <= max_width
            &&& 0 < max_width < width ==> w == max_width
            &&& max_width == 0 || width <= max_width ==> (w, h) == (width, height)
            &&& h * width <= height * w
            &&& width > 0 ==> height * w < (h + 1) * width
        }),
{
    if max_width > 0 && width > max_width {
        lemma_fitted_height(width, height, max_width);
        let p = height * max_width;
        let h = p / width as int;
        lemma_fundamental_div_mod(p, width as int);
        lemma_mod_bound(p, width as int);
        assert(h * width <= p < (h + 1) * width) by (nonlinear_arith)
            requires
                p == width * h + p % (width as int),
                0 <= p % (width as int) < width,
        ;
    } else {
        assert(height * width < (height + 1) * width || width == 0) by (nonlinear_arith);
    }
}

/// The source row or column that a row or column of the result is taken from.
pub open spec fn sample(i: int, source: int, target: int) -> int {
    i * source / target
}

/// The source byte that byte `k` of the result is taken from.
pub open spec fn source_index(k: int, sw: int, sh: int, dw: int, dh: int) -> int {
    (sample(k / 3 / dw, sh, dh) * sw + sample(k / 3 % dw, sw, dw)) * 3 + k % 3
}

/// An RGB image of `sw` by `sh` pixels scaled to `dw` by `dh` pixels.
pub open spec fn resized(src: Seq<u8>, sw: int, sh: int, dw: int, dh: int) -> Seq<u8> {
    Seq::new((dw * dh * 3) as nat, |k: int| src[source_index(k, sw, sh, dw, dh)])
}

/// Whether the source holds every pixel that scaling takes from it.
pub open spec fn resize_fits(len: int, sw: int, sh: int, dw: int, dh: int) -> bool {
    dw > 0 && dh > 0 ==> (sample(dh - 1, sh, dh) * sw + sample(dw - 1, sw, dw)) * 3 + 3 <= len
}

/// The number of pixels of an image.
pub fn pixel_count(width: u32, height: u32) -> (res: u128)
    ensures
        res == width * height,
        res <= 0x1_0000_0000 * 0x1_0000_0000,
{
    assert(0 <= width * height <= 0x1_0000_0000 * 0x1_0000_0000) by (nonlinear_arith)
        requires
            0 <= width <= 0xffff_ffff,
            0 <= height <= 0xffff_ffff,
    ;
    width as u128 * height as u128
}

/// Whether a source of `len` bytes holds every pixel that scaling takes from it.
pub fn holds_samples(len: usize, sw: u32, sh: u32, dw: u32, dh: u32) -> (res: bool)
    ensures
        res == resize_fits(len as int, sw as int, sh as int, dw as int, dh as int),
{
    if dw == 0 || dh == 0 {
        return true;
    }
    let row: u128 = pixel_count(dh - 1, sh) / dh as u128;
    let column: u128 = pixel_count(dw - 1, sw) / dw as u128;
    proof {
        lemma_sample_at_most(dh - 1, sh as int, dh as int);
        lemma_sample_at_most(dw - 1, sw as int, dw as int);
        assert(0 <= row * sw <= 0x1_0000_0000 * 0x1_0000_0000) by (nonlinear_arith)
            requires
                0 <= row <= 0xffff_ffff,
                0 <= sw <= 0xffff_ffff,
        ;
    }
    (row * sw as u128 + column) * 3 + 3 <= len as u128
}

/// A row or column of the result is taken from no further than the end of the source.
proof fn lemma_sample_at_most(i: int, source: int, target: int)
    requires
        0 <= i < target,
        0 <= source,
    ensures
        0 <= sample(i, source, target) <= source,
{
    if source > 0 {
        lemma_sample_inside(i, source, target);
    } else {
        lemma_div_basics(target);
    }
}

/// Later rows and columns are taken from later rows and columns of the source.
proof fn lemma_sample_ordered(i: int, j: int, source: int, target: int)
    requires
        0 <= i <= j,
        0 <= source,
        0 < target,
    ensures
        0 <= sample(i, source, target) <= sample(j, source, target),
{
    assert(0 <= i * source <= j * source) by (nonlinear_arith)
        requires
            0 <= i <= j,
            0 <= source,
    ;
    lemma_div_is_ordered(i * source, j * source, target);
    lemma_div_pos_is_pos(i * source, target);
}

/// A row or column of the result is taken from inside the source.
proof fn lemma_sample_inside(i: int, source: int, target: int)
    requires
        0 <= i < target,
        0 < source,
    ensures
        0 <= sample(i, source, target) < source,
{
    let p = i * source;
    assert(0 <= p < source * target) by (nonlinear_arith)
        requires
            p == i * source,
            0 <= i < target,
            0 < source,
    ;
    lemma_div_pos_is_pos(p, target);
    lemma_fundamental_div_mod(p, target);
    lemma_mod_bound(p, target);
    let q = p / target;
    assert(q < source) by (nonlinear_arith)
        requires
            p == target * q + p % target,
            0 <= p % target,
            p < source * target,
            0 < target,
    ;
}

/// Byte `c` of the pixel in row `y` and column `x` of the result.
proof fn lemma_byte_position(x: int, y: int, c: int, dw: int)
    requires
        0 <= x < dw,
        0 <= y,
        0 <= c < 3,
    ensures
        ({
            let k = (y * dw + x) * 3 + c;
            &&& k / 3 / dw == y
            &&& k / 3 % dw == x
            &&& k % 3 == c
        }),
{
    let p = y * dw + x;
    lemma_fundamental_div_mod_converse(p, dw, y, x);
}

/// Scales an RGB image of `sw` by `sh` pixels to `dw` by `dh` pixels. Each pixel of the
/// result is the source pixel at the same relative place, rounded towards the top left.
pub fn nearest_resize_rgb(src: &[u8], sw: u32, sh: u32, dw: u32, dh: u32) -> (res: Vec<u8>)
    requires
        resize_fits(src@.len() as int, sw as int, sh as int, dw as int, dh as int),
        dw * dh * 3 <= isize::MAX,
    ensures
        res@ == resized(src@, sw as int, sh as int, dw as int, dh as int),
{
    let ghost (gsw, gsh, gdw, gdh) = (sw as int, sh as int, dw as int, dh as int);
    let ghost full = resized(src@, gsw, gsh, gdw, gdh);
    assert(dw * dh <= isize::MAX && dw * dh >= 0) by (nonlinear_arith)
        requires
            dw * dh * 3 <= isize::MAX,
            dw >= 0,
            dh >= 0,
    ;
    let mut out: Vec<u8> = Vec::with_capacity((dw as usize) * (dh as usize) * 3);
    let src_len: usize = src.len();
    let mut y: u32 = 0;
    assert(0 * gdw * 3 == 0);
    while y < dh
        invariant
            y <= dh,
            src_len == src@.len(),
            resize_fits(src@.len() as int, gsw, gsh, gdw, gdh),
            gsw == sw && gsh == sh && gdw == dw && gdh == dh,
            full == resized(src@, gsw, gsh, gdw, gdh),
            out@ =~= full.take(y * gdw * 3),
            0 <= y * gdw * 3 <= full.len(),
        decreases dh - y,
    {
        let mut x: u32 = 0;
        while x < dw
            invariant
                y < dh,
                x <= dw,
                src_len == src@.len(),
                resize_fits(src@.len() as int, gsw, gsh, gdw, gdh),
                gsw == sw && gsh == sh && gdw == dw && gdh == dh,
                full == resized(src@, gsw, gsh, gdw, gdh),
                out@ =~= full.take((y * gdw + x) * 3),
                0 <= (y * gdw + x) * 3 <= full.len(),
            decreases dw - x,
        {
            assert((y as u64) * (sh as u64) <= u64::MAX && (x as u64) * (sw as u64) <= u64::MAX)
                by (nonlinear_arith)
                requires
                    y <= u32::MAX,
                    sh <= u32::MAX,
                    x <= u32::MAX,
                    sw <= u32::MAX,
            ;
            proof {
                lemma_sample_ordered(y as int, gdh - 1, gsh, gdh);
                lemma_sample_ordered(x as int, gdw - 1, gsw, gdw);
                if sh > 0 {
                    lemma_sample_inside(y as int, gsh, gdh);
                } else {
                    lemma_div_basics(gdh);
                }
                if sw > 0 {
                    lemma_sample_inside(x as int, gsw, gdw);
                } else {
                    lemma_div_basics(gdw);
                }
            }
            let sy: usize = ((y as u64) * (sh as u64) / (dh as u64)) as usize;
            let sx: usize = ((x as u64) * (sw as u64) / (dw as u64)) as usize;
            assert(sy == sample(y as int, gsh, gdh));
            assert(sx == sample(x as int, gsw, gdw));
            let ghost last_y = sample(gdh - 1, gsh, gdh);
            let ghost last_x = sample(gdw - 1, gsw, gdw);
            assert(0 <= sy * gsw <= last_y * gsw) by (nonlinear_arith)
                requires
                    0 <= sy <= last_y,
                    0 <= gsw,
            ;
            let i: usize = (sy * (sw as usize) + sx) * 3;
            let ghost k = (y * gdw + x) * 3;
            proof {
                lemma_byte_position(x as int, y as int, 0, gdw);
                lemma_byte_position(x as int, y as int, 1, gdw);
                lemma_byte_position(x as int, y as int, 2, gdw);
                assert((y * gdw + x + 1) * 3 <= gdw * gdh * 3) by (nonlinear_arith)
                    requires
                        0 <= y < gdh,
                        0 <= x < gdw,
                ;
            }
            assert(full[k] == src@[i as int]);
            assert(full[k + 1] == src@[i + 1]);
            assert(full[k + 2] == src@[i + 2]);
            out.push(src[i]);
            out.push(src[i + 1]);
            out.push(src[i + 2]);
            x += 1;
        }
        assert((y + 1) * gdw == y * gdw + gdw) by (nonlinear_arith);
        y += 1;
    }
    assert(gdh * gdw * 3 == gdw * gdh * 3) by (nonlinear_arith);
    out
}

/// Scaling to the size that an image already has changes nothing.
pub proof fn lemma_resize_to_same_size(src: Seq<u8>, w: int, h: int)
    requires
        0 <= w,
        0 <= h,
        src.len() == w * h * 3,
    ensures
        resized(src, w, h, w, h) == src,
{
    let out = resized(src, w, h, w, h);
    assert forall|k: int| 0 <= k < out.len() implies out[k] == src[k] by {
        assert(w > 0 && h > 0) by (nonlinear_arith)
            requires
                0 <= k < w * h * 3,
                0 <= w,
                0 <= h,
        ;
        let p = k / 3;
        lemma_fundamental_div_mod(p, w);
        lemma_mod_bound(p, w);
        lemma_div_pos_is_pos(p, w);
        lemma_div_by_multiple(p / w, h);
        lemma_div_by_multiple(p % w, w);
        assert(p / w * w + p % w == p) by (nonlinear_arith)
            requires
                p == w * (p / w) + p % w,
        ;
    }
    assert(out =~= src);
}

/// Each pixel of a scaled image is a whole pixel of the source: its three bytes are the
/// bytes of one source pixel, in order.
pub proof fn lemma_resized_pixel(
    src: Seq<u8>,
    sw: int,
    sh: int,
    dw: int,
    dh: int,
    x: int,
    y: int,
)
    requires
        0 < sw,
        0 < sh,
        src.len() == sw * sh * 3,
        0 <= x < dw,
        0 <= y < dh,
    ensures
        ({
            let sx = sample(x, sw, dw);
            let sy = sample(y, sh, dh);
            &&& 0 <= sx < sw && 0 <= sy < sh
            &&& resize_fits(src.len() as int, sw, sh, dw, dh)
            &&& resized(src, sw, sh, dw, dh).subrange((y * dw + x) * 3, (y * dw + x) * 3 + 3)
                == src.subrange((sy * sw + sx) * 3, (sy * sw + sx) * 3 + 3)
        }),
{
    let sx = sample(x, sw, dw);
    let sy = sample(y, sh, dh);
    lemma_sample_inside(x, sw, dw);
    lemma_sample_inside(y, sh, dh);
    lemma_sample_inside(dw - 1, sw, dw);
    lemma_sample_inside(dh - 1, sh, dh);
    lemma_pixel_inside(sx, sy, sw, sh);
    lemma_pixel_inside(sample(dw - 1, sw, dw), sample(dh - 1, sh, dh), sw, sh);
    lemma_pixel_inside(x, y, dw, dh);
    lemma_byte_position(x, y, 0, dw);
    lemma_byte_position(x, y, 1, dw);
    lemma_byte_position(x, y, 2, dw);
    let out = resized(src, sw, sh, dw, dh);
    let k = (y * dw + x) * 3;
    let i = (sy * sw + sx) * 3;
    assert(out[k] == src[i] && out[k + 1] == src[i + 1] && out[k + 2] == src[i + 2]);
    assert(out.subrange(k, k + 3) =~= src.subrange(i, i + 3));
}

/// The bytes of a pixel lie inside its image.
proof fn lemma_pixel_inside(x: int, y: int, w: int, h: int)
    requires
        0 <= x < w,
        0 <= y < h,
    ensures
        0 <= (y * w + x) * 3,
        (y * w + x) * 3 + 3 <= w * h * 3,
{
    assert(0 <= y * w && y * w + x + 1 <= w * h) by (nonlinear_arith)
        requires
            0 <= x < w,
            0 <= y < h,
    ;
}

/// Dropping the alpha channel keeps the red, green and blue byte of every whole pixel, and
/// keeps the pixels in their order.
pub proof fn lemma_alpha_is_dropped(rgba: Seq<u8>, p: int, c: int)
    requires
        0 <= p < rgba.len() / 4,
        0 <= c < 3,
    ensures
        rgb_of(rgba).len() == 3 * (rgba.len() / 4),
        rgb_of(rgba)[3 * p + c] == rgba[4 * p + c],
{
    let k = 3 * p + c;
    assert(k / 3 == p && k % 3 == c);
}

/// The row or column that a row or column of the result is taken from is the one whose span,
/// stretched to the size of the result, starts no later and ends later.
proof fn lemma_sample_place(i: int, source: int, target: int, s: int)
    requires
        s * target <= i * source < (s + 1) * target,
    ensures
        sample(i, source, target) == s,
{
    let r = i * source - s * target;
    assert((s + 1) * target == s * target + target) by (nonlinear_arith);
    lemma_fundamental_div_mod_converse(i * source, target, s, r);
}

/// For each row or column of the result there is one of the source at the same relative place.
pub proof fn lemma_place_exists(i: int, source: int, target: int) -> (s: int)
    requires
        0 <= i < target,
        0 < source,
    ensures
        0 <= s < source,
        s * target <= i * source < (s + 1) * target,
{
    let p = i * source;
    let s = p / target;
    assert(0 <= p) by (nonlinear_arith)
        requires
            p == i * source,
            0 <= i,
            0 < source,
    ;
    lemma_fundamental_div_mod(p, target);
    lemma_mod_bound(p, target);
    lemma_div_pos_is_pos(p, target);
    assert(s * target <= p < (s + 1) * target) by (nonlinear_arith)
        requires
            p == target * s + p % target,
            0 <= p % target < target,
    ;
    assert(s < source) by (nonlinear_arith)
        requires
            s * target <= p,
            p == i * source,
            0 <= i < target,
            0 < source,
    ;
    s
}

/// A scaled image shows the whole source: the pixel in column `x` and row `y` is the source
/// pixel at the same relative place. Its column `sx` is the one with
/// `sx / sw <= x / dw < (sx + 1) / sw`, and its row likewise.
pub proof fn lemma_scaling_keeps_places(
    src: Seq<u8>,
    sw: int,
    sh: int,
    dw: int,
    dh: int,
    x: int,
    y: int,
    sx: int,
    sy: int,
    c: int,
)
    requires
        0 <= x < dw,
        0 <= y < dh,
        sx * dw <= x * sw < (sx + 1) * dw,
        sy * dh <= y * sh < (sy + 1) * dh,
        0 <= c < 3,
    ensures
        resized(src, sw, sh, dw, dh).len() == dw * dh * 3,
        resized(src, sw, sh, dw, dh)[(y * dw + x) * 3 + c] == src[(sy * sw + sx) * 3 + c],
{
    lemma_sample_place(x, sw, dw, sx);
    lemma_sample_place(y, sh, dh, sy);
    lemma_byte_position(x, y, c, dw);
    lemma_pixel_inside(x, y, dw, dh);
}

/// A source that can be scaled holds every pixel that the result takes from it.
pub proof fn lemma_taken_pixels_are_held(
    len: int,
    sw: int,
    sh: int,
    dw: int,
    dh: int,
    x: int,
    y: int,
    sx: int,
    sy: int,
)
    requires
        resize_fits(len, sw, sh, dw, dh),
        0 <= sw,
        0 <= sh,
        0 <= x < dw,
        0 <= y < dh,
        sx * dw <= x * sw < (sx + 1) * dw,
        sy * dh <= y * sh < (sy + 1) * dh,
    ensures
        0 <= (sy * sw + sx) * 3,
        (sy * sw + sx) * 3 + 3 <= len,
{
    lemma_sample_place(x, sw, dw, sx);
    lemma_sample_place(y, sh, dh, sy);
    lemma_sample_ordered(x, dw - 1, sw, dw);
    lemma_sample_ordered(y, dh - 1, sh, dh);
    let last = sample(dh - 1, sh, dh);
    assert(0 <= sy * sw <= last * sw) by (nonlinear_arith)
        requires
            0 <= sy <= last,
            0 <= sw,
    ;
}

/// A source can be scaled if it holds the pixel that the last column and row of the result
/// take from it, and if the result has no pixels.
pub proof fn lemma_held_pixels_can_be_scaled(
    len: int,
    sw: int,
    sh: int,
    dw: int,
    dh: int,
    sx: int,
    sy: int,
)
    requires
        dw > 0 && dh > 0 ==> {
            &&& sx * dw <= (dw - 1) * sw < (sx + 1) * dw
            &&& sy * dh <= (dh - 1) * sh < (sy + 1) * dh
            &&& (sy * sw + sx) * 3 + 3 <= len
        },
    ensures
        resize_fits(len, sw, sh, dw, dh),
{
    if dw > 0 && dh > 0 {
        lemma_sample_place(dw - 1, sw, dw, sx);
        lemma_sample_place(dh - 1, sh, dh, sy);
    }
}

} // verus!
