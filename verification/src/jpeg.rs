//! The markers of JPEG data, as far as they tell whether the decoder can be handed the data.
//!
//! The decoder of the `image` crate panics on some frames that no common encoder writes. The
//! data is made of marker segments, each a byte 0xFF, a code, and a length that counts itself
//! and what follows it. The header here is what the decoder reads up to the first scan.

use vstd::prelude::*;

verus! {

/// The code of a progressive frame header.
pub const PROGRESSIVE: u8 = 0xc2;

/// The code of an Adobe segment, which gives the colour transform.
pub const ADOBE: u8 = 0xee;

/// The code of the header of a scan.
pub const SCAN: u8 = 0xda;

/// Whether the code of a marker stands at `i`. Neither 0x00 nor 0xFF is a code.
pub open spec fn is_marker(data: Seq<u8>, i: int) -> bool {
    0 < i < data.len() && data[i - 1] == 0xff && data[i] != 0 && data[i] != 0xff
}

/// The place of the first code of a marker that starts at `from` or later; the end of the
/// data where there is none.
pub open spec fn next_marker(data: Seq<u8>, from: int) -> int
    decreases data.len() - from,
{
    if from < 0 || from + 1 >= data.len() {
        data.len() as int
    } else if is_marker(data, from + 1) {
        from + 1
    } else {
        next_marker(data, from + 1)
    }
}

/// The number that two bytes stand for, most significant byte first.
pub open spec fn be16(data: Seq<u8>, at: int) -> int {
    0x100 * data[at] + data[at + 1]
}

/// Whether the decoder reads no further than a marker: the end of the image, or one of the
/// two kinds of segments that it refuses.
pub open spec fn ends_image(code: u8) -> bool {
    code == 0xd9 || code == 0xcc || code == 0xdc
}

/// How far behind the code of a marker the decoder reads on: behind the segment, except that
/// of a JFIF segment with the length six it reads a byte more than that.
pub open spec fn segment_reach(data: Seq<u8>, at: int) -> int {
    let len = be16(data, at + 1);
    if data[at] == 0xe0 && len == 6 {
        8
    } else {
        1 + len
    }
}

/// Whether more data stands behind the segment whose code stands at `at`.
pub open spec fn goes_on(data: Seq<u8>, at: int) -> bool {
    at + 2 < data.len() && be16(data, at + 1) >= 2 && at + segment_reach(data, at) < data.len()
}

/// The places of the codes of the header's markers, from `from` on, in order.
pub open spec fn header_markers(data: Seq<u8>, from: int) -> Seq<int>
    decreases data.len() - from,
{
    let at = next_marker(data, from);
    if from < 0 || at >= data.len() {
        seq![]
    } else if data[at] == SCAN || ends_image(data[at]) || !goes_on(data, at) {
        seq![at]
    } else {
        proof {
            lemma_next_marker(data, from);
        }
        seq![at] + header_markers(data, at + segment_reach(data, at))
    }
}

/// The places of the codes of the markers in and between the scans, from `from` on, in order.
/// A restart marker, 0xD0 to 0xD7, has no length.
pub open spec fn scan_markers(data: Seq<u8>, from: int) -> Seq<int>
    decreases data.len() - from,
{
    let at = next_marker(data, from);
    if from < 0 || at >= data.len() {
        seq![]
    } else if 0xd0 <= data[at] <= 0xd7 {
        proof {
            lemma_next_marker(data, from);
        }
        seq![at] + scan_markers(data, at + 1)
    } else if ends_image(data[at]) || !goes_on(data, at) {
        seq![at]
    } else {
        proof {
            lemma_next_marker(data, from);
        }
        seq![at] + scan_markers(data, at + segment_reach(data, at))
    }
}

/// The places of the codes of the markers behind the header, given those of the header: none
/// unless the header ends with a scan.
pub open spec fn later_markers(data: Seq<u8>, header: Seq<int>) -> Seq<int> {
    if header.len() > 0 && data[header.last()] == SCAN && goes_on(data, header.last()) {
        scan_markers(data, header.last() + segment_reach(data, header.last()))
    } else {
        seq![]
    }
}

/// The next marker lies ahead.
pub proof fn lemma_next_marker(data: Seq<u8>, from: int)
    requires
        0 <= from,
    ensures
        next_marker(data, from) < data.len() ==> next_marker(data, from) > from,
    decreases data.len() - from,
{
    if from + 1 < data.len() && !is_marker(data, from + 1) {
        lemma_next_marker(data, from + 1);
    }
}

/// The height in the frame header whose code stands at `at`.
pub open spec fn frame_height(data: Seq<u8>, at: int) -> int {
    be16(data, at + 4)
}

/// The width in the frame header whose code stands at `at`.
pub open spec fn frame_width(data: Seq<u8>, at: int) -> int {
    be16(data, at + 6)
}

/// Whether data starts as JPEG data does.
pub open spec fn starts_as_jpeg(data: Seq<u8>) -> bool {
    data.len() >= 3 && data[0] == 0xff && data[1] == 0xd8 && data[2] == 0xff
}

/// Whether marker `i` of the data's header is a frame header.
pub open spec fn frame_at(data: Seq<u8>, header: Seq<int>, i: int) -> bool {
    0 <= i < header.len() && 0xc0 <= data[header[i]] <= 0xc2
}

/// Whether the data has a frame header, with this width and height.
pub open spec fn holds_size(data: Seq<u8>, width: u32, height: u32) -> bool {
    let header = header_markers(data, 2);
    &&& exists|i: int| #[trigger] frame_at(data, header, i)
    &&& forall|i: int| #[trigger]
        frame_at(data, header, i) ==> frame_width(data, header[i]) == width && frame_height(
            data,
            header[i],
        ) == height
}

/// Data has one size.
pub proof fn lemma_one_size(data: Seq<u8>, width: u32, height: u32, w: u32, h: u32)
    requires
        holds_size(data, width, height),
        holds_size(data, w, h),
    ensures
        w == width,
        h == height,
{
    let header = header_markers(data, 2);
    let i = choose|i: int| #[trigger] frame_at(data, header, i);
    assert(frame_at(data, header, i));
}

/// How densely component `k` of the frame is sampled across.
pub open spec fn across(data: Seq<u8>, at: int, k: int) -> int {
    data[at + 10 + 3 * k] as int / 16
}

/// How densely component `k` of the frame is sampled down.
pub open spec fn down(data: Seq<u8>, at: int, k: int) -> int {
    data[at + 10 + 3 * k] as int % 16
}

/// Whether component `k` is sampled in a way that the decoder does not refuse.
pub open spec fn sampling_read(data: Seq<u8>, at: int, k: int) -> bool {
    let h = across(data, at, k);
    (h == 1 || h == 2 || h == 4) && 1 <= down(data, at, k) <= 4
}

/// Whether a whole frame header has its code at `at`, with a size and up to four components,
/// each sampled in a way that the decoder does not refuse.
pub open spec fn frame_read(data: Seq<u8>, at: int) -> bool {
    &&& at + 8 < data.len()
    &&& frame_width(data, at) > 0
    &&& frame_height(data, at) > 0
    &&& 1 <= data[at + 8] <= 4
    &&& at + 9 + 3 * data[at + 8] <= data.len()
    &&& forall|k: int| 0 <= k < data[at + 8] ==> #[trigger] sampling_read(data, at, k)
}

/// The densest sampling across among the first `n` components.
pub open spec fn most_across(data: Seq<u8>, at: int, n: int) -> int
    decreases n,
{
    if n <= 0 {
        1
    } else if across(data, at, n - 1) > most_across(data, at, n - 1) {
        across(data, at, n - 1)
    } else {
        most_across(data, at, n - 1)
    }
}

/// The densest sampling down among the first `n` components.
pub open spec fn most_down(data: Seq<u8>, at: int, n: int) -> int
    decreases n,
{
    if n <= 0 {
        1
    } else if down(data, at, n - 1) > most_down(data, at, n - 1) {
        down(data, at, n - 1)
    } else {
        most_down(data, at, n - 1)
    }
}

/// How many times component `k` is widened when the frame is put together.
pub open spec fn widened(data: Seq<u8>, at: int, k: int) -> int {
    most_across(data, at, data[at + 8] as int) / across(data, at, k)
}

/// How many times component `k` is heightened when the frame is put together.
pub open spec fn heightened(data: Seq<u8>, at: int, k: int) -> int {
    most_down(data, at, data[at + 8] as int) / down(data, at, k)
}

/// Whether component `k` is heightened by blending rows, for which the decoder holds rows
/// over.
pub open spec fn blends_rows(data: Seq<u8>, at: int, k: int) -> bool {
    heightened(data, at, k) == 2 && widened(data, at, k) <= 2
}

/// Whether some component of the frame is heightened by blending rows.
pub open spec fn some_blends(data: Seq<u8>, at: int) -> bool {
    exists|k: int| 0 <= k < data[at + 8] && #[trigger] blends_rows(data, at, k)
}

/// A quotient, rounded up.
pub open spec fn rounded_up(a: int, b: int) -> int {
    (a + b - 1) / b
}

/// How many units the frame is wide, where a unit spans eight samples of the densest of the
/// first `m` components.
pub open spec fn units_across(data: Seq<u8>, at: int, m: int) -> int {
    rounded_up(frame_width(data, at), 8 * most_across(data, at, m))
}

/// How many units the frame is high.
pub open spec fn units_down(data: Seq<u8>, at: int) -> int {
    rounded_up(frame_height(data, at), 8 * most_down(data, at, data[at + 8] as int))
}

/// How many blocks of eight by eight samples the decoder counts in a row of component `k`. It
/// goes by the densest of the components up to this one, not by the densest of all.
pub open spec fn row_blocks(data: Seq<u8>, at: int, k: int) -> int {
    across(data, at, k) * units_across(data, at, k + 1)
}

/// Whether component `k` can be doubled both ways: the decoder takes the room of a row of the
/// first component for it.
pub open spec fn doubles(data: Seq<u8>, at: int, k: int) -> bool {
    widened(data, at, k) == 2 && heightened(data, at, k) == 2 ==> 2 * row_blocks(data, at, k)
        <= row_blocks(data, at, 0)
}

/// How many blocks of component `k` the decoder reads in a row of a scan at most: in a scan
/// of its own as many as the picture needs, else up to what the rows hold.
pub open spec fn scanned_blocks(data: Seq<u8>, at: int, k: int, shared: bool) -> int {
    let n = data[at + 8] as int;
    if !shared {
        rounded_up(frame_width(data, at) * across(data, at, k), 8 * most_across(data, at, n))
    } else if row_blocks(data, at, k) < rounded_up(frame_width(data, at), 8) {
        row_blocks(data, at, k)
    } else {
        rounded_up(frame_width(data, at), 8)
    }
}

/// How many units the decoder has left for the last row of component `k` that it starts in a
/// scan. It holds those of the whole frame, and takes for each row those of `row_blocks`.
pub open spec fn units_left(data: Seq<u8>, at: int, k: int) -> int {
    let held = units_across(data, at, data[at + 8] as int) * units_down(data, at);
    let taken = units_across(data, at, k + 1);
    let fitting = (held - 1) / taken;
    let rows = if fitting < units_down(data, at) - 1 {
        fitting
    } else {
        units_down(data, at) - 1
    };
    held - rows * taken
}

/// Whether the last row of component `k` fits into what is left for it: seven lines of
/// samples and the blocks of one.
pub open spec fn scan_fits(data: Seq<u8>, at: int, k: int, shared: bool) -> bool {
    scanned_blocks(data, at, k, shared) + 7 * row_blocks(data, at, k) <= 8 * (across(data, at, k)
        * down(data, at, k) * units_left(data, at, k))
}

/// Whether the scan that the header ends with is one of `n` components.
pub open spec fn scans_at_once(data: Seq<u8>, header: Seq<int>, n: u8) -> bool {
    header.last() + 3 < data.len() && data[header.last() + 3] == n
}

/// Whether the header of a scan of several components may have its code at `i`.
pub open spec fn shares_scan(data: Seq<u8>, i: int) -> bool {
    is_marker(data, i) && data[i] == SCAN && i + 3 < data.len() && data[i + 3] >= 2
}

/// Whether a scan of several components may stand at the end of the header or behind it.
pub open spec fn some_share_scan(data: Seq<u8>, header: Seq<int>) -> bool {
    exists|i: int| header.last() <= i && #[trigger] shares_scan(data, i)
}

/// The colour transform of the Adobe segment whose code stands at `at`, where one does.
pub open spec fn transform_at(data: Seq<u8>, at: int) -> Option<u8> {
    if data[at] == ADOBE && at + 7 < data.len() && be16(data, at + 1) >= 14 && data[at + 3] == 0x41
        && data[at + 4] == 0x64 && data[at + 5] == 0x6f && data[at + 6] == 0x62 && data[at + 7]
        == 0x65 {
        Some(
            if at + 14 < data.len() {
                data[at + 14]
            } else {
                0
            },
        )
    } else {
        None
    }
}

/// The colour transform of the last Adobe segment among some markers.
pub open spec fn last_transform(data: Seq<u8>, markers: Seq<int>) -> Option<u8>
    decreases markers.len(),
{
    if markers.len() == 0 {
        None
    } else if transform_at(data, markers.last()) is Some {
        transform_at(data, markers.last())
    } else {
        last_transform(data, markers.drop_last())
    }
}

/// Whether the fourth ink is lost when the decoder puts a frame together after `j` of the
/// markers behind its header. It does so when it cannot read on in a scan, or at the end.
pub open spec fn ink_lost_at(data: Seq<u8>, markers: Seq<int>, j: int) -> bool {
    (j == markers.len() || data[markers[j]] == SCAN) && last_transform(data, markers.take(j))
        == Some(1u8)
}

/// Whether a frame with these markers behind its header may lose its fourth ink.
pub open spec fn ink_lost(data: Seq<u8>, markers: Seq<int>) -> bool {
    exists|j: int| 0 <= j <= markers.len() && #[trigger] ink_lost_at(data, markers, j)
}

/// Whether the decoder can be handed a frame whose header is marker `i` of the data's header.
/// It can where the header does not end with a scan: it then finds no picture. It cannot where
/// it panics on some scan data, with the vector routines of some processor:
/// - where the RGBA bytes of the picture are more than memory holds;
/// - where the frame is progressive or its first scan leaves components out, and there is no
///   room to double a component;
/// - where a baseline frame's first scan leaves components out, and there is no room for the
///   rows of a component;
/// - where a progressive frame of one or two components has the colour transform of four
///   inks: the decoder then goes by three components. A frame header of one component undoes
///   the transforms before it;
/// - where a progressive frame of four components blends rows and may lose its fourth ink: the
///   decoder then holds no rows of the fourth component.
pub open spec fn decodable_frame(data: Seq<u8>, header: Seq<int>, i: int) -> bool {
    let at = header[i];
    let n = data[at + 8];
    let progressive = data[at] == PROGRESSIVE;
    let apart = !progressive && !scans_at_once(data, header, n);
    let behind = header.skip(i + 1);
    frame_read(data, at) && data[header.last()] == SCAN ==> {
        &&& 4 * (frame_width(data, at) * frame_height(data, at)) <= isize::MAX
        &&& progressive || apart ==> forall|k: int| 0 <= k < n ==> #[trigger] doubles(data, at, k)
        &&& apart ==> forall|k: int|
            0 <= k < n ==> #[trigger] scan_fits(data, at, k, some_share_scan(data, header))
        &&& progressive && n == 1 ==> last_transform(data, behind) != Some(2u8)
        &&& progressive && n == 2 ==> last_transform(data, header) != Some(2u8)
        &&& progressive && n == 4 && some_blends(data, at) ==> !ink_lost(
            data,
            behind + later_markers(data, header),
        )
    }
}

/// Whether the decoder can be handed the data: each frame header that it reads is one that it
/// does not panic on.
pub open spec fn decodable_shape(data: Seq<u8>) -> bool {
    let header = header_markers(data, 2);
    forall|i: int| #[trigger] frame_at(data, header, i) ==> decodable_frame(data, header, i)
}

/// Places as numbers.
spec fn places(found: Seq<usize>) -> Seq<int> {
    found.map_values(|at: usize| at as int)
}

/// Whether places lie in the data.
spec fn all_inside(data: Seq<u8>, found: Seq<usize>) -> bool {
    forall|i: int| 0 <= i < found.len() ==> #[trigger] found[i] < data.len()
}

/// The byte that stands `offset` bytes behind `at`.
fn byte_behind(data: &[u8], at: usize, offset: usize) -> (res: u8)
    requires
        at + offset < data@.len(),
    ensures
        res == data@[at + offset],
{
    let total: usize = data.len();
    assert(at + offset < total);
    data[at + offset]
}

/// Reads a number from two bytes, most significant byte first.
fn read_be16(data: &[u8], at: usize) -> (res: u32)
    requires
        at + 1 < data@.len(),
    ensures
        res == be16(data@, at as int),
        res <= 0xffff,
{
    0x100 * (data[at] as u32) + data[at + 1] as u32
}

/// Finds the first code of a marker that starts at `from` or later.
fn find_marker(data: &[u8], from: usize) -> (res: usize)
    ensures
        res == next_marker(data@, from as int),
        res < data@.len() ==> res > from,
{
    let mut at: usize = from;
    while at < data.len() && at + 1 < data.len()
        invariant
            from <= at,
            next_marker(data@, at as int) == next_marker(data@, from as int),
        decreases data@.len() - at,
    {
        if data[at] == 0xff && data[at + 1] != 0 && data[at + 1] != 0xff {
            return at + 1;
        }
        at += 1;
    }
    data.len()
}

/// How far behind the code of a marker the decoder reads on, where more data stands there.
fn reach_of(data: &[u8], at: usize) -> (res: Option<usize>)
    requires
        at < data@.len(),
    ensures
        match res {
            Some(reach) => goes_on(data@, at as int) && reach == segment_reach(data@, at as int),
            None => !goes_on(data@, at as int),
        },
{
    if data.len() - at <= 2 {
        return None;
    }
    let len: u32 = read_be16(data, at + 1);
    let reach: usize = if data[at] == 0xe0 && len == 6 {
        8
    } else {
        1 + len as usize
    };
    if len >= 2 && reach < data.len() - at {
        Some(reach)
    } else {
        None
    }
}

/// The places of the codes of the header's markers.
fn find_header(data: &[u8]) -> (res: Vec<usize>)
    ensures
        places(res@) == header_markers(data@, 2),
        all_inside(data@, res@),
{
    let mut found: Vec<usize> = Vec::new();
    let mut from: usize = 2;
    loop
        invariant
            2 <= from,
            places(found@) + header_markers(data@, from as int) =~= header_markers(data@, 2),
            all_inside(data@, found@),
        decreases data@.len() - from,
    {
        let at: usize = find_marker(data, from);
        if at >= data.len() {
            return found;
        }
        let ghost before = found@;
        found.push(at);
        assert(places(found@) =~= places(before) + seq![at as int]);
        let code: u8 = data[at];
        let reach: Option<usize> = reach_of(data, at);
        if code == SCAN || code == 0xd9 || code == 0xcc || code == 0xdc {
            return found;
        }
        match reach {
            Some(reach) => {
                from = at + reach;
            },
            None => {
                return found;
            },
        }
    }
}

/// Adds the places of the codes of the markers behind the header to `found`.
fn find_later(data: &[u8], header: &Vec<usize>, found: &mut Vec<usize>)
    requires
        all_inside(data@, header@),
        all_inside(data@, old(found)@),
    ensures
        places(final(found)@) == places(old(found)@) + later_markers(data@, places(header@)),
        all_inside(data@, final(found)@),
{
    if header.len() == 0 {
        return;
    }
    let last: usize = header[header.len() - 1];
    assert(places(header@).last() == last);
    if data[last] != SCAN {
        return;
    }
    let mut from: usize = match reach_of(data, last) {
        Some(reach) => last + reach,
        None => {
            return;
        },
    };
    let ghost all = places(found@) + scan_markers(data@, from as int);
    loop
        invariant_except_break
            places(found@) + scan_markers(data@, from as int) =~= all,
        invariant
            all_inside(data@, found@),
        ensures
            places(found@) == all,
        decreases data@.len() - from,
    {
        let at: usize = find_marker(data, from);
        if at >= data.len() {
            break;
        }
        let ghost before = found@;
        found.push(at);
        assert(places(found@) =~= places(before) + seq![at as int]);
        let code: u8 = data[at];
        if code >= 0xd0 && code <= 0xd7 {
            from = at + 1;
            continue;
        }
        let reach: Option<usize> = reach_of(data, at);
        if code == 0xd9 || code == 0xcc || code == 0xdc {
            break;
        }
        match reach {
            Some(reach) => {
                from = at + reach;
            },
            None => {
                break;
            },
        }
    }
}

/// Whether a whole frame header has its code at `at`.
fn reads_frame(data: &[u8], at: usize) -> (res: bool)
    requires
        at < data@.len(),
    ensures
        res == frame_read(data@, at as int),
{
    if data.len() - at <= 8 {
        return false;
    }
    if read_be16(data, at + 4) == 0 || read_be16(data, at + 6) == 0 {
        return false;
    }
    let n: u8 = data[at + 8];
    if n < 1 || n > 4 || data.len() - at < 9 + 3 * (n as usize) {
        return false;
    }
    let mut k: usize = 0;
    while k < n as usize
        invariant
            k <= n <= 4,
            at + 9 + 3 * n <= data@.len(),
            n == data@[at + 8],
            frame_width(data@, at as int) > 0,
            frame_height(data@, at as int) > 0,
            forall|j: int| 0 <= j < k ==> #[trigger] sampling_read(data@, at as int, j),
        decreases n - k,
    {
        let hv: u8 = byte_behind(data, at, 10 + 3 * k);
        let h: u8 = hv / 16;
        let v: u8 = hv % 16;
        if (h != 1 && h != 2 && h != 4) || v < 1 || v > 4 {
            assert(!sampling_read(data@, at as int, k as int));
            return false;
        }
        k += 1;
    }
    true
}

/// The width and height in the frame header whose code stands at `at`.
fn frame_size(data: &[u8], at: usize) -> (res: (u64, u64))
    requires
        frame_read(data@, at as int),
    ensures
        res.0 == frame_width(data@, at as int),
        res.1 == frame_height(data@, at as int),
        1 <= res.0 <= 0xffff,
        1 <= res.1 <= 0xffff,
{
    let total: usize = data.len();
    assert(at + 8 < total);
    (read_be16(data, at + 6) as u64, read_be16(data, at + 4) as u64)
}

/// How densely component `k` of the frame is sampled, across and down.
fn sampling(data: &[u8], at: usize, k: usize) -> (res: (u64, u64))
    requires
        frame_read(data@, at as int),
        k < data@[at + 8],
    ensures
        res.0 == across(data@, at as int, k as int),
        res.1 == down(data@, at as int, k as int),
        1 <= res.0 <= 4,
        1 <= res.1 <= 4,
{
    assert(sampling_read(data@, at as int, k as int));
    let hv: u8 = byte_behind(data, at, 10 + 3 * k);
    ((hv / 16) as u64, (hv % 16) as u64)
}

/// The densest sampling among the first `m` components, across and down.
fn densest(data: &[u8], at: usize, m: usize) -> (res: (u64, u64))
    requires
        frame_read(data@, at as int),
        m <= data@[at + 8],
    ensures
        res.0 == most_across(data@, at as int, m as int),
        res.1 == most_down(data@, at as int, m as int),
        1 <= res.0 <= 4,
        1 <= res.1 <= 4,
{
    let mut most_h: u64 = 1;
    let mut most_v: u64 = 1;
    let mut k: usize = 0;
    while k < m
        invariant
            k <= m <= data@[at + 8],
            frame_read(data@, at as int),
            most_h == most_across(data@, at as int, k as int),
            most_v == most_down(data@, at as int, k as int),
            1 <= most_h <= 4,
            1 <= most_v <= 4,
        decreases m - k,
    {
        let (h, v): (u64, u64) = sampling(data, at, k);
        if h > most_h {
            most_h = h;
        }
        if v > most_v {
            most_v = v;
        }
        k += 1;
    }
    (most_h, most_v)
}

/// How many times component `k` is widened and heightened.
fn growth(data: &[u8], at: usize, k: usize) -> (res: (u64, u64))
    requires
        frame_read(data@, at as int),
        k < data@[at + 8],
    ensures
        res.0 == widened(data@, at as int, k as int),
        res.1 == heightened(data@, at as int, k as int),
{
    let (most_h, most_v): (u64, u64) = densest(data, at, byte_behind(data, at, 8) as usize);
    let (h, v): (u64, u64) = sampling(data, at, k);
    (most_h / h, most_v / v)
}

/// A quotient, rounded up.
fn round_up(a: u64, b: u64) -> (res: u64)
    requires
        1 <= a <= 0x100000,
        1 <= b <= 0x100000,
    ensures
        res == rounded_up(a as int, b as int),
        1 <= res <= a,
{
    let res: u64 = (a + b - 1) / b;
    assert(1 <= res <= a) by (nonlinear_arith)
        requires
            res == (a + b - 1) / (b as int),
            a >= 1,
            b >= 1,
    ;
    res
}

/// How many units the frame is wide, by the densest of the first `m` components.
fn count_across(data: &[u8], at: usize, m: usize) -> (res: u64)
    requires
        frame_read(data@, at as int),
        m <= data@[at + 8],
    ensures
        res == units_across(data@, at as int, m as int),
        1 <= res <= 0xffff,
{
    round_up(frame_size(data, at).0, 8 * densest(data, at, m).0)
}

/// How many units the frame is high.
fn count_down(data: &[u8], at: usize) -> (res: u64)
    requires
        frame_read(data@, at as int),
    ensures
        res == units_down(data@, at as int),
        1 <= res <= 0xffff,
{
    let n: usize = byte_behind(data, at, 8) as usize;
    round_up(frame_size(data, at).1, 8 * densest(data, at, n).1)
}

/// How many blocks the decoder counts in a row of component `k`.
fn count_row(data: &[u8], at: usize, k: usize) -> (res: u64)
    requires
        frame_read(data@, at as int),
        k < data@[at + 8],
    ensures
        res == row_blocks(data@, at as int, k as int),
        1 <= res <= 4 * 0xffff,
{
    let h: u64 = sampling(data, at, k).0;
    let units: u64 = count_across(data, at, k + 1);
    assert(1 <= h * units <= 4 * 0xffff) by (nonlinear_arith)
        requires
            1 <= h <= 4,
            1 <= units <= 0xffff,
    ;
    h * units
}

/// Whether each component can be doubled both ways where it has to be.
fn all_double(data: &[u8], at: usize) -> (res: bool)
    requires
        frame_read(data@, at as int),
    ensures
        res == forall|k: int| 0 <= k < data@[at + 8] ==> #[trigger] doubles(data@, at as int, k),
{
    let n: usize = byte_behind(data, at, 8) as usize;
    let first: u64 = count_row(data, at, 0);
    let mut k: usize = 0;
    while k < n
        invariant
            k <= n,
            n == data@[at + 8],
            frame_read(data@, at as int),
            first == row_blocks(data@, at as int, 0),
            forall|j: int| 0 <= j < k ==> #[trigger] doubles(data@, at as int, j),
        decreases n - k,
    {
        let (wide, high): (u64, u64) = growth(data, at, k);
        if wide == 2 && high == 2 && 2 * count_row(data, at, k) > first {
            assert(!doubles(data@, at as int, k as int));
            return false;
        }
        k += 1;
    }
    true
}

/// Whether some component is heightened by blending rows.
fn finds_blending(data: &[u8], at: usize) -> (res: bool)
    requires
        frame_read(data@, at as int),
    ensures
        res == some_blends(data@, at as int),
{
    let n: usize = byte_behind(data, at, 8) as usize;
    let mut k: usize = 0;
    while k < n
        invariant
            k <= n,
            n == data@[at + 8],
            frame_read(data@, at as int),
            forall|j: int| 0 <= j < k ==> !#[trigger] blends_rows(data@, at as int, j),
        decreases n - k,
    {
        let (wide, high): (u64, u64) = growth(data, at, k);
        if high == 2 && wide <= 2 {
            assert(blends_rows(data@, at as int, k as int));
            return true;
        }
        k += 1;
    }
    false
}

/// How many blocks of component `k` the decoder reads in a row of a scan at most.
fn count_scanned(data: &[u8], at: usize, k: usize, shared: bool) -> (res: u64)
    requires
        frame_read(data@, at as int),
        k < data@[at + 8],
    ensures
        res == scanned_blocks(data@, at as int, k as int, shared),
        res <= 4 * 0xffff,
{
    let width: u64 = frame_size(data, at).0;
    if !shared {
        let n: usize = byte_behind(data, at, 8) as usize;
        let h: u64 = sampling(data, at, k).0;
        assert(1 <= width * h <= 4 * 0xffff) by (nonlinear_arith)
            requires
                1 <= h <= 4,
                1 <= width <= 0xffff,
        ;
        return round_up(width * h, 8 * densest(data, at, n).0);
    }
    let row: u64 = count_row(data, at, k);
    let whole: u64 = round_up(width, 8);
    if row < whole {
        row
    } else {
        whole
    }
}

/// How many units the decoder has left for the last row of component `k` that it starts.
fn count_left(data: &[u8], at: usize, k: usize) -> (res: u64)
    requires
        frame_read(data@, at as int),
        k < data@[at + 8],
    ensures
        res == units_left(data@, at as int, k as int),
        1 <= res <= 0xffff * 0xffff,
{
    let n: usize = byte_behind(data, at, 8) as usize;
    let wide: u64 = count_across(data, at, n);
    let high: u64 = count_down(data, at);
    let taken: u64 = count_across(data, at, k + 1);
    assert(1 <= wide * high <= 0xffff * 0xffff) by (nonlinear_arith)
        requires
            1 <= wide <= 0xffff,
            1 <= high <= 0xffff,
    ;
    let held: u64 = wide * high;
    let fitting: u64 = (held - 1) / taken;
    let rows: u64 = if fitting < high - 1 {
        fitting
    } else {
        high - 1
    };
    assert(0 <= rows * taken <= held - 1) by (nonlinear_arith)
        requires
            0 <= rows <= fitting,
            fitting == (held - 1) / (taken as int),
            held >= 1,
            taken >= 1,
    ;
    held - rows * taken
}

/// Whether the rows of each component fit into what the decoder holds for them.
fn all_scans_fit(data: &[u8], at: usize, shared: bool) -> (res: bool)
    requires
        frame_read(data@, at as int),
    ensures
        res == forall|k: int|
            0 <= k < data@[at + 8] ==> #[trigger] scan_fits(data@, at as int, k, shared),
{
    let n: usize = byte_behind(data, at, 8) as usize;
    let mut k: usize = 0;
    while k < n
        invariant
            k <= n,
            n == data@[at + 8],
            frame_read(data@, at as int),
            forall|j: int| 0 <= j < k ==> #[trigger] scan_fits(data@, at as int, j, shared),
        decreases n - k,
    {
        let (h, v): (u64, u64) = sampling(data, at, k);
        let left: u64 = count_left(data, at, k);
        assert(1 <= h * v <= 16) by (nonlinear_arith)
            requires
                1 <= h <= 4,
                1 <= v <= 4,
        ;
        assert(0 <= h * v * left <= 16 * (0xffff * 0xffff)) by (nonlinear_arith)
            requires
                1 <= h * v <= 16,
                1 <= left <= 0xffff * 0xffff,
        ;
        let row: u64 = count_row(data, at, k);
        if count_scanned(data, at, k, shared) + 7 * row > 8 * (h * v * left) {
            assert(!scan_fits(data@, at as int, k as int, shared));
            return false;
        }
        k += 1;
    }
    true
}

/// Whether the scan whose code stands at `scan` is one of `n` components.
fn scans_all(data: &[u8], scan: usize, n: u8) -> (res: bool)
    requires
        scan < data@.len(),
    ensures
        res == (scan + 3 < data@.len() && data@[scan + 3] == n),
{
    data.len() - scan > 3 && data[scan + 3] == n
}

/// Whether a scan of several components may stand at `scan` or behind it.
fn finds_shared_scan(data: &[u8], scan: usize) -> (res: bool)
    ensures
        res == exists|i: int| scan <= i && #[trigger] shares_scan(data@, i),
{
    let mut i: usize = scan;
    while i < data.len()
        invariant
            scan <= i,
            forall|j: int| scan <= j < i ==> !#[trigger] shares_scan(data@, j),
        decreases data@.len() - i,
    {
        if i > 0 && data[i - 1] == 0xff && data[i] == SCAN && data.len() - i > 3 && data[i + 3]
            >= 2 {
            assert(shares_scan(data@, i as int));
            return true;
        }
        i += 1;
    }
    false
}

/// The colour transform of the Adobe segment whose code stands at `at`, where one does.
fn read_transform(data: &[u8], at: usize) -> (res: Option<u8>)
    requires
        at < data@.len(),
    ensures
        res == transform_at(data@, at as int),
{
    if data[at] == ADOBE && data.len() - at > 7 && read_be16(data, at + 1) >= 14 && data[at + 3]
        == 0x41 && data[at + 4] == 0x64 && data[at + 5] == 0x6f && data[at + 6] == 0x62 && data[at
        + 7] == 0x65 {
        if data.len() - at > 14 {
            Some(data[at + 14])
        } else {
            Some(0)
        }
    } else {
        None
    }
}

/// The colour transform of the last Adobe segment among the header's markers from `from` on.
fn find_transform(data: &[u8], header: &Vec<usize>, from: usize) -> (res: Option<u8>)
    requires
        all_inside(data@, header@),
        from <= header@.len(),
    ensures
        res == last_transform(data@, places(header@).skip(from as int)),
{
    let ghost all = places(header@).skip(from as int);
    let mut last: Option<u8> = None;
    let mut i: usize = from;
    while i < header.len()
        invariant
            from <= i <= header@.len(),
            all_inside(data@, header@),
            all == places(header@).skip(from as int),
            last == last_transform(data@, all.take(i - from)),
        decreases header@.len() - i,
    {
        let read: Option<u8> = read_transform(data, header[i]);
        assert(all.take(i - from + 1).drop_last() =~= all.take(i - from));
        if read.is_some() {
            last = read;
        }
        i += 1;
    }
    assert(all.take(i - from) =~= all);
    last
}

/// Whether a frame with these markers behind its header may lose its fourth ink.
fn finds_lost_ink(data: &[u8], markers: &Vec<usize>) -> (res: bool)
    requires
        all_inside(data@, markers@),
    ensures
        res == ink_lost(data@, places(markers@)),
{
    let ghost all = places(markers@);
    let mut last: Option<u8> = None;
    let mut i: usize = 0;
    while i < markers.len()
        invariant
            i <= markers@.len(),
            all_inside(data@, markers@),
            all == places(markers@),
            last == last_transform(data@, all.take(i as int)),
            forall|j: int| 0 <= j < i ==> !#[trigger] ink_lost_at(data@, all, j),
        decreases markers@.len() - i,
    {
        let at: usize = markers[i];
        assert(all[i as int] == at);
        if data[at] == SCAN && last == Some(1u8) {
            assert(ink_lost_at(data@, all, i as int));
            return true;
        }
        let read: Option<u8> = read_transform(data, at);
        assert(all.take(i + 1).drop_last() =~= all.take(i as int));
        if read.is_some() {
            last = read;
        }
        i += 1;
    }
    assert(ink_lost_at(data@, all, all.len() as int) == (last == Some(1u8)));
    last == Some(1u8)
}

/// The places of the codes of the markers behind marker `i` of the header, those behind the
/// header among them.
fn find_behind(data: &[u8], header: &Vec<usize>, i: usize) -> (res: Vec<usize>)
    requires
        all_inside(data@, header@),
        i < header@.len(),
    ensures
        places(res@) == places(header@).skip(i + 1) + later_markers(data@, places(header@)),
        all_inside(data@, res@),
{
    let mut behind: Vec<usize> = Vec::new();
    assert(i < header.len());
    let mut j: usize = i + 1;
    while j < header.len()
        invariant
            i < j <= header@.len(),
            all_inside(data@, header@),
            all_inside(data@, behind@),
            behind@ == header@.subrange(i + 1, j as int),
        decreases header@.len() - j,
    {
        behind.push(header[j]);
        j += 1;
    }
    assert(places(behind@) =~= places(header@).skip(i + 1));
    find_later(data, header, &mut behind);
    behind
}

/// Whether the decoder can be handed a frame whose header is marker `i` of the data's header.
fn has_decodable_frame(data: &[u8], header: &Vec<usize>, i: usize) -> (res: bool)
    requires
        all_inside(data@, header@),
        i < header@.len(),
    ensures
        res == decodable_frame(data@, places(header@), i as int),
{
    assert(i < header.len());
    let at: usize = header[i];
    assert(places(header@)[i as int] == at);
    let last: usize = header[header.len() - 1];
    assert(places(header@).last() == last);
    if data[last] != SCAN || !reads_frame(data, at) {
        return true;
    }
    let n: u8 = byte_behind(data, at, 8);
    let progressive: bool = data[at] == PROGRESSIVE;
    let (width, height): (u64, u64) = frame_size(data, at);
    assert(0 <= width * height <= 0xffff * 0xffff) by (nonlinear_arith)
        requires
            width <= 0xffff,
            height <= 0xffff,
    ;
    if 4 * (width * height) > isize::MAX as u64 {
        return false;
    }
    let apart: bool = !progressive && !scans_all(data, last, n);
    if (progressive || apart) && !all_double(data, at) {
        return false;
    }
    if apart {
        let shared: bool = finds_shared_scan(data, last);
        assert(shared == some_share_scan(data@, places(header@)));
        if !all_scans_fit(data, at, shared) {
            return false;
        }
    }
    if progressive && n == 1 && find_transform(data, header, i + 1) == Some(2u8) {
        return false;
    }
    assert(places(header@).skip(0) =~= places(header@));
    if progressive && n == 2 && find_transform(data, header, 0) == Some(2u8) {
        return false;
    }
    !(progressive && n == 4 && finds_blending(data, at) && finds_lost_ink(
        data,
        &find_behind(data, header, i),
    ))
}

/// Whether the decoder can be handed the data.
pub fn has_decodable_shape(data: &[u8]) -> (res: bool)
    ensures
        res == decodable_shape(data@),
{
    let header: Vec<usize> = find_header(data);
    let ghost all = places(header@);
    let mut i: usize = 0;
    while i < header.len()
        invariant
            i <= header@.len(),
            all == header_markers(data@, 2),
            all == places(header@),
            all_inside(data@, header@),
            forall|j: int|
                j < i && #[trigger] frame_at(data@, all, j) ==> decodable_frame(data@, all, j),
        decreases header@.len() - i,
    {
        let at: usize = header[i];
        assert(all[i as int] == at);
        if data[at] >= 0xc0 && data[at] <= 0xc2 && !has_decodable_frame(data, &header, i) {
            assert(frame_at(data@, all, i as int));
            return false;
        }
        i += 1;
    }
    true
}

/// Data is taken that has no frame header, or whose header does not end with a scan.
pub proof fn lemma_data_without_a_picture_is_taken(data: Seq<u8>)
    requires
        ({
            let header = header_markers(data, 2);
            ||| forall|i: int| !#[trigger] frame_at(data, header, i)
            ||| data[header.last()] != 0xda
        }),
    ensures
        decodable_shape(data),
{
}

/// A baseline frame whose first scan has all components is taken, however they are sampled, if
/// its pixels, at four bytes each, are no more than memory holds.
pub proof fn lemma_baseline_in_one_scan_is_taken(data: Seq<u8>)
    requires
        ({
            let header = header_markers(data, 2);
            let scan = header.last();
            forall|i: int| #[trigger]
                frame_at(data, header, i) ==> {
                    &&& data[header[i]] == 0xc0 || data[header[i]] == 0xc1
                    &&& scan + 3 < data.len() && data[scan + 3] == data[header[i] + 8]
                    &&& 4 * ((256 * data[header[i] + 6] + data[header[i] + 7]) * (256
                        * data[header[i] + 4] + data[header[i] + 5])) <= isize::MAX
                }
        }),
    ensures
        decodable_shape(data),
{
}

/// A frame is taken, baseline or progressive and in any scans, if no component is sampled more
/// densely across than the first, its pixels, at four bytes each, are no more than memory holds,
/// and no Adobe segment gives it another colour transform, or it has three components. The
/// sampling across is the upper half of a byte.
pub proof fn lemma_common_frames_are_taken(data: Seq<u8>)
    requires
        ({
            let header = header_markers(data, 2);
            forall|i: int| #[trigger]
                frame_at(data, header, i) ==> {
                    let at = header[i];
                    let n = data[at + 8];
                    &&& n == 3 || forall|m: int| 0 <= m < data.len() ==> #[trigger] data[m] != 0xee
                    &&& forall|k: int|
                        0 <= k < n ==> #[trigger] data[at + 10 + 3 * k] / 16 <= data[at + 10] / 16
                    &&& 4 * ((256 * data[at + 6] + data[at + 7]) * (256 * data[at + 4] + data[at
                        + 5])) <= isize::MAX
                }
        }),
    ensures
        decodable_shape(data),
{
    let header = header_markers(data, 2);
    lemma_header_inside(data, 2);
    assert forall|i: int| #[trigger] frame_at(data, header, i) implies decodable_frame(
        data,
        header,
        i,
    ) by {
        let at = header[i];
        let n = data[at + 8];
        if frame_read(data, at) {
            assert forall|k: int| 0 <= k < n implies #[trigger] across(data, at, k) <= across(
                data,
                at,
                0,
            ) by {
                assert(data[at + 10 + 3 * k] / 16 <= data[at + 10] / 16);
            }
            assert forall|k: int| 0 <= k < n implies #[trigger] doubles(data, at, k) by {
                lemma_widest_first(data, at, k, false);
            }
            let shared = some_share_scan(data, header);
            assert forall|k: int| 0 <= k < n implies #[trigger] scan_fits(data, at, k, shared) by {
                lemma_widest_first(data, at, k, shared);
            }
            if n != 3 {
                let behind = header.skip(i + 1);
                let later = later_markers(data, header);
                if header.len() > 0 {
                    lemma_scans_inside(
                        data,
                        header.last() + segment_reach(data, header.last()),
                    );
                }
                lemma_no_transform(data, behind);
                lemma_no_transform(data, header);
                let all = behind + later;
                assert forall|j: int| 0 <= j <= all.len() implies !#[trigger] ink_lost_at(
                    data,
                    all,
                    j,
                ) by {
                    lemma_no_transform(data, all.take(j));
                }
            }
        }
    }
}

/// The markers of the header lie in the data.
proof fn lemma_header_inside(data: Seq<u8>, from: int)
    ensures
        forall|i: int|
            0 <= i < header_markers(data, from).len() ==> 0 <= #[trigger] header_markers(
                data,
                from,
            )[i] < data.len(),
    decreases data.len() - from,
{
    let at = next_marker(data, from);
    if 0 <= from && at < data.len() {
        lemma_next_marker(data, from);
        if !(data[at] == SCAN || ends_image(data[at]) || !goes_on(data, at)) {
            lemma_header_inside(data, at + segment_reach(data, at));
            let rest = header_markers(data, at + segment_reach(data, at));
            assert(header_markers(data, from) == seq![at] + rest);
            assert forall|i: int| 0 <= i < header_markers(data, from).len() implies 0
                <= #[trigger] header_markers(data, from)[i] < data.len() by {
                if i > 0 {
                    assert(header_markers(data, from)[i] == rest[i - 1]);
                }
            }
        }
    }
}

/// The markers in and between the scans lie in the data.
proof fn lemma_scans_inside(data: Seq<u8>, from: int)
    ensures
        forall|i: int|
            0 <= i < scan_markers(data, from).len() ==> 0 <= #[trigger] scan_markers(data, from)[i]
                < data.len(),
    decreases data.len() - from,
{
    let at = next_marker(data, from);
    if 0 <= from && at < data.len() {
        lemma_next_marker(data, from);
        if 0xd0 <= data[at] <= 0xd7 || !(ends_image(data[at]) || !goes_on(data, at)) {
            let next = if 0xd0 <= data[at] <= 0xd7 {
                at + 1
            } else {
                at + segment_reach(data, at)
            };
            lemma_scans_inside(data, next);
            let rest = scan_markers(data, next);
            assert(scan_markers(data, from) == seq![at] + rest);
            assert forall|i: int| 0 <= i < scan_markers(data, from).len() implies 0
                <= #[trigger] scan_markers(data, from)[i] < data.len() by {
                if i > 0 {
                    assert(scan_markers(data, from)[i] == rest[i - 1]);
                }
            }
        }
    }
}

/// Markers that are no Adobe segments give no colour transform.
proof fn lemma_no_transform(data: Seq<u8>, markers: Seq<int>)
    requires
        forall|i: int| 0 <= i < markers.len() ==> data[#[trigger] markers[i]] != 0xee,
    ensures
        last_transform(data, markers) is None,
    decreases markers.len(),
{
    if markers.len() > 0 {
        lemma_no_transform(data, markers.drop_last());
    }
}

/// Where the first component is sampled most densely across, there is room for every component.
proof fn lemma_widest_first(data: Seq<u8>, at: int, k: int, shared: bool)
    requires
        frame_read(data, at),
        0 <= k < data[at + 8],
        forall|j: int|
            0 <= j < data[at + 8] ==> #[trigger] across(data, at, j) <= across(data, at, 0),
    ensures
        doubles(data, at, k),
        scan_fits(data, at, k, shared),
{
    let n = data[at + 8] as int;
    assert(sampling_read(data, at, 0));
    assert(sampling_read(data, at, k));
    lemma_first_is_most(data, at, k + 1);
    lemma_first_is_most(data, at, n);
    lemma_first_is_most(data, at, 1);
    lemma_most_down_positive(data, at, n);
    let most = across(data, at, 0);
    let h = across(data, at, k);
    let v = down(data, at, k);
    let width = frame_width(data, at);
    let x = units_across(data, at, n);
    let y = units_down(data, at);
    lemma_rounded_up(width, 8 * most);
    lemma_rounded_up(frame_height(data, at), 8 * most_down(data, at, n));
    assert(row_blocks(data, at, k) == h * x);
    assert(row_blocks(data, at, 0) == most * x);
    if most / h == 2 {
        assert(2 * h <= most) by (nonlinear_arith)
            requires
                most / h == 2,
                h >= 1,
        ;
        assert(2 * (h * x) <= most * x) by (nonlinear_arith)
            requires
                2 * h <= most,
                x >= 1,
        ;
    }
    let held = x * y;
    assert(held - 1 == (y - 1) * x + (x - 1)) by (nonlinear_arith)
        requires
            held == x * y,
    ;
    vstd::arithmetic::div_mod::lemma_fundamental_div_mod_converse(held - 1, x, y - 1, x - 1);
    assert(units_left(data, at, k) == held - (y - 1) * x);
    assert(units_left(data, at, k) == x) by (nonlinear_arith)
        requires
            units_left(data, at, k) == held - (y - 1) * x,
            held == x * y,
    ;
    assert(scanned_blocks(data, at, k, shared) <= h * x) by {
        if !shared {
            let p = width * h;
            assert(1 <= p <= (h * x) * (8 * most)) by (nonlinear_arith)
                requires
                    p == width * h,
                    1 <= width <= x * (8 * most),
                    h >= 1,
            ;
            lemma_rounded_up(p, 8 * most);
            let q = rounded_up(p, 8 * most);
            assert(q <= h * x) by (nonlinear_arith)
                requires
                    (q - 1) * (8 * most) < p,
                    p <= (h * x) * (8 * most),
                    most >= 1,
            ;
        }
    }
    assert(h * x + 7 * (h * x) <= 8 * (h * v * x)) by (nonlinear_arith)
        requires
            h >= 1,
            v >= 1,
            x >= 1,
    ;
}

/// A quotient rounded up is the least number that, multiplied, reaches the dividend.
proof fn lemma_rounded_up(a: int, b: int)
    requires
        a >= 1,
        b >= 1,
    ensures
        rounded_up(a, b) >= 1,
        (rounded_up(a, b) - 1) * b < a <= rounded_up(a, b) * b,
{
    let q = rounded_up(a, b);
    assert(q >= 1 && (q - 1) * b < a <= q * b) by (nonlinear_arith)
        requires
            q == (a + b - 1) / b,
            a >= 1,
            b >= 1,
    ;
}

/// Where no component is denser across than the first, the first is the densest of any first
/// few.
proof fn lemma_first_is_most(data: Seq<u8>, at: int, m: int)
    requires
        frame_read(data, at),
        1 <= m <= data[at + 8],
        forall|j: int|
            0 <= j < data[at + 8] ==> #[trigger] across(data, at, j) <= across(data, at, 0),
    ensures
        most_across(data, at, m) == across(data, at, 0),
    decreases m,
{
    assert(sampling_read(data, at, 0));
    if m > 1 {
        lemma_first_is_most(data, at, m - 1);
        assert(across(data, at, m - 1) <= across(data, at, 0));
    } else {
        assert(most_across(data, at, 0) == 1);
    }
}

/// The densest sampling down is at least one.
proof fn lemma_most_down_positive(data: Seq<u8>, at: int, m: int)
    ensures
        most_down(data, at, m) >= 1,
    decreases m,
{
    if m > 0 {
        lemma_most_down_positive(data, at, m - 1);
    }
}

/// A progressive frame of three components sampled 0x11, 0x22 and 0x11 is never taken, whatever
/// its size: the decoder has no room to double the first component.
pub proof fn lemma_doubling_the_first_is_refused(data: Seq<u8>, i: int)
    requires
        ({
            let header = header_markers(data, 2);
            let at = header[i];
            &&& frame_at(data, header, i)
            &&& data[header.last()] == 0xda
            &&& data[at] == 0xc2
            &&& at + 18 <= data.len()
            &&& data[at + 4] > 0 || data[at + 5] > 0
            &&& data[at + 6] > 0 || data[at + 7] > 0
            &&& data[at + 8] == 3
            &&& data[at + 10] == 0x11 && data[at + 13] == 0x22 && data[at + 16] == 0x11
        }),
    ensures
        !decodable_shape(data),
{
    let header = header_markers(data, 2);
    let at = header[i];
    assert(data[at + 10 + 3 * 0] == 0x11);
    assert(data[at + 10 + 3 * 1] == 0x22);
    assert(data[at + 10 + 3 * 2] == 0x11);
    assert forall|k: int| 0 <= k < 3 implies #[trigger] sampling_read(data, at, k) by {
        assert(k == 0 || k == 1 || k == 2);
    }
    reveal_with_fuel(most_across, 4);
    reveal_with_fuel(most_down, 4);
    assert(across(data, at, 0) == 1 && across(data, at, 1) == 2 && across(data, at, 2) == 1);
    assert(down(data, at, 0) == 1 && down(data, at, 1) == 2 && down(data, at, 2) == 1);
    assert(most_across(data, at, 1) == 1);
    assert(most_across(data, at, 3) == 2 && most_down(data, at, 3) == 2);
    lemma_rounded_up(frame_width(data, at), 8);
    assert(row_blocks(data, at, 0) == units_across(data, at, 1));
    assert(!doubles(data, at, 0));
    assert(!decodable_frame(data, header, i));
}

/// Whether the code of an Adobe segment with a colour transform stands at `m`: the code 0xEE,
/// two bytes of length, five letters, and, fourteen bytes behind the code, the transform.
pub open spec fn adobe_stands(data: Seq<u8>, m: int, transform: u8) -> bool {
    &&& 0 <= m && m + 14 < data.len()
    &&& data[m] == 0xee
    &&& 256 * data[m + 1] + data[m + 2] >= 14
    &&& data[m + 3] == 0x41 && data[m + 4] == 0x64 && data[m + 5] == 0x6f
    &&& data[m + 6] == 0x62 && data[m + 7] == 0x65
    &&& data[m + 14] == transform
}

/// The last of the Adobe segments decides.
proof fn lemma_last_adobe(data: Seq<u8>, markers: Seq<int>, j: int, transform: u8)
    requires
        0 <= j < markers.len(),
        adobe_stands(data, markers[j], transform),
        forall|m: int| j < m < markers.len() ==> data[#[trigger] markers[m]] != 0xee,
    ensures
        last_transform(data, markers) == Some(transform),
    decreases markers.len(),
{
    if j < markers.len() - 1 {
        assert(data[markers.last()] != 0xee);
        lemma_last_adobe(data, markers.drop_last(), j, transform);
    }
}

/// A progressive frame of one component, or of two, is never taken, whatever its size, where the
/// last Adobe segment of the header gives the colour transform of four inks; for one component,
/// where that segment stands behind the frame header.
pub proof fn lemma_few_components_with_inks_are_refused(data: Seq<u8>, i: int, j: int)
    requires
        ({
            let header = header_markers(data, 2);
            let at = header[i];
            &&& frame_at(data, header, i)
            &&& data[header.last()] == 0xda
            &&& data[at] == 0xc2
            &&& data[at + 8] == 1 || data[at + 8] == 2
            &&& at + 9 + 3 * data[at + 8] <= data.len()
            &&& data[at + 4] > 0 || data[at + 5] > 0
            &&& data[at + 6] > 0 || data[at + 7] > 0
            &&& data[at + 10] == 0x11 && (data[at + 8] == 2 ==> data[at + 13] == 0x11)
            &&& 0 <= j < header.len() && (data[at + 8] == 1 ==> i < j)
            &&& adobe_stands(data, header[j], 2)
            &&& forall|m: int| j < m < header.len() ==> data[#[trigger] header[m]] != 0xee
        }),
    ensures
        !decodable_shape(data),
{
    let header = header_markers(data, 2);
    let at = header[i];
    assert(data[at + 10 + 3 * 0] == 0x11);
    assert(data[at + 8] == 2 ==> data[at + 10 + 3 * 1] == 0x11);
    assert forall|k: int| 0 <= k < data[at + 8] implies #[trigger] sampling_read(data, at, k) by {
        assert(k == 0 || k == 1);
    }
    if data[at + 8] == 1 {
        let behind = header.skip(i + 1);
        assert(behind[j - i - 1] == header[j]);
        lemma_last_adobe(data, behind, j - i - 1, 2);
    } else {
        lemma_last_adobe(data, header, j, 2);
    }
    assert(!decodable_frame(data, header, i));
}

/// A progressive frame of four components sampled 0x22, 0x11, 0x11 and 0x22 is never taken,
/// whatever its size, where the last Adobe segment of the header stands behind the frame header
/// and takes the fourth ink away.
pub proof fn lemma_lost_ink_is_refused(data: Seq<u8>, i: int, j: int)
    requires
        ({
            let header = header_markers(data, 2);
            let at = header[i];
            &&& frame_at(data, header, i)
            &&& data[header.last()] == 0xda
            &&& data[at] == 0xc2
            &&& at + 21 <= data.len()
            &&& data[at + 4] > 0 || data[at + 5] > 0
            &&& data[at + 6] > 0 || data[at + 7] > 0
            &&& data[at + 8] == 4
            &&& data[at + 10] == 0x22 && data[at + 13] == 0x11 && data[at + 16] == 0x11
            &&& data[at + 19] == 0x22
            &&& i < j < header.len()
            &&& adobe_stands(data, header[j], 1)
            &&& forall|m: int| j < m < header.len() ==> data[#[trigger] header[m]] != 0xee
        }),
    ensures
        !decodable_shape(data),
{
    let header = header_markers(data, 2);
    let at = header[i];
    assert(data[at + 10 + 3 * 0] == 0x22);
    assert(data[at + 10 + 3 * 1] == 0x11);
    assert(data[at + 10 + 3 * 2] == 0x11);
    assert(data[at + 10 + 3 * 3] == 0x22);
    assert forall|k: int| 0 <= k < 4 implies #[trigger] sampling_read(data, at, k) by {
        assert(k == 0 || k == 1 || k == 2 || k == 3);
    }
    reveal_with_fuel(most_across, 5);
    reveal_with_fuel(most_down, 5);
    assert(most_across(data, at, 4) == 2 && most_down(data, at, 4) == 2);
    assert(blends_rows(data, at, 1));
    let behind = header.skip(i + 1);
    let all = behind + later_markers(data, header);
    let q = behind.len() - 1;
    assert(all[q] == header.last());
    let seen = all.take(q);
    assert(seen[j - i - 1] == header[j]);
    assert forall|m: int| j - i - 1 < m < seen.len() implies data[#[trigger] seen[m]] != 0xee by {
        assert(seen[m] == header[m + i + 1]);
    }
    lemma_last_adobe(data, seen, j - i - 1, 1);
    assert(ink_lost_at(data, all, q));
    assert(!decodable_frame(data, header, i));
}

/// A baseline frame of three components sampled 0x11, 0x21 and 0x11 whose first scan leaves
/// components out is not taken where it is wider than eight pixels and no higher than eight: the
/// decoder has no room for a row of the first component.
pub proof fn lemma_rows_without_room_are_refused(data: Seq<u8>, i: int)
    requires
        ({
            let header = header_markers(data, 2);
            let at = header[i];
            &&& frame_at(data, header, i)
            &&& data[header.last()] == 0xda
            &&& header.last() + 3 < data.len() && data[header.last() + 3] != 3
            &&& data[at] == 0xc0 || data[at] == 0xc1
            &&& at + 18 <= data.len()
            &&& data[at + 4] == 0 && 1 <= data[at + 5] <= 8
            &&& data[at + 6] > 0 || data[at + 7] > 8
            &&& data[at + 8] == 3
            &&& data[at + 10] == 0x11 && data[at + 13] == 0x21 && data[at + 16] == 0x11
        }),
    ensures
        !decodable_shape(data),
{
    let header = header_markers(data, 2);
    let at = header[i];
    assert(data[at + 10 + 3 * 0] == 0x11);
    assert(data[at + 10 + 3 * 1] == 0x21);
    assert(data[at + 10 + 3 * 2] == 0x11);
    assert forall|k: int| 0 <= k < 3 implies #[trigger] sampling_read(data, at, k) by {
        assert(k == 0 || k == 1 || k == 2);
    }
    reveal_with_fuel(most_across, 4);
    reveal_with_fuel(most_down, 4);
    assert(across(data, at, 0) == 1 && across(data, at, 1) == 2 && across(data, at, 2) == 1);
    assert(down(data, at, 0) == 1 && down(data, at, 1) == 1 && down(data, at, 2) == 1);
    assert(most_across(data, at, 1) == 1);
    assert(most_across(data, at, 3) == 2 && most_down(data, at, 3) == 1);
    let shared = some_share_scan(data, header);
    let x = units_across(data, at, 3);
    let taken = units_across(data, at, 1);
    assert(units_down(data, at) == 1);
    lemma_rounded_up(frame_width(data, at), 8);
    lemma_rounded_up(frame_width(data, at), 16);
    assert(x < taken);
    let held = x * units_down(data, at);
    assert(held == x) by (nonlinear_arith)
        requires
            held == x * units_down(data, at),
            units_down(data, at) == 1,
    ;
    assert((held - 1) / taken >= 0) by (nonlinear_arith)
        requires
            held >= 1,
            taken >= 1,
    ;
    assert(0 * taken == 0) by (nonlinear_arith);
    assert(units_left(data, at, 0) == x);
    assert(row_blocks(data, at, 0) == taken);
    assert(scanned_blocks(data, at, 0, shared) >= x);
    let left = units_left(data, at, 0);
    assert(across(data, at, 0) * down(data, at, 0) * left == x) by (nonlinear_arith)
        requires
            across(data, at, 0) == 1,
            down(data, at, 0) == 1,
            left == x,
    ;
    assert(!scan_fits(data, at, 0, shared));
    assert(!decodable_frame(data, header, i));
}

/// Whether a marker has its code at `m`: a byte that is neither 0x00 nor 0xFF behind a byte 0xFF.
pub open spec fn code_stands(data: Seq<u8>, m: int) -> bool {
    1 <= m < data.len() && data[m - 1] == 255 && data[m] != 0 && data[m] != 255
}

/// The next marker is the first one whose byte 0xFF stands at the place or behind it.
pub proof fn lemma_next_is_first(data: Seq<u8>, from: int)
    requires
        0 <= from,
    ensures
        ({
            let at = next_marker(data, from);
            &&& at < data.len() ==> from < at && code_stands(data, at)
            &&& forall|m: int| from < m < at ==> !#[trigger] code_stands(data, m)
            &&& at >= data.len() ==> forall|m: int| from < m ==> !#[trigger] code_stands(data, m)
        }),
    decreases data.len() - from,
{
    if from + 1 < data.len() && !is_marker(data, from + 1) {
        lemma_next_is_first(data, from + 1);
        assert(!code_stands(data, from + 1));
    }
}

/// Where the data behind a segment starts: two bytes behind its code give a length that counts
/// them. A JFIF segment of the length six takes a byte more.
pub open spec fn behind_segment(data: Seq<u8>, m: int) -> int {
    let length = 256 * data[m + 1] + data[m + 2];
    if data[m] == 0xe0 && length == 6 {
        m + 8
    } else {
        m + 1 + length
    }
}

/// The header's markers are read one after the other: marker `k` is the first one behind the
/// segment of the marker before it, or from `from` on. The header goes on behind each of them
/// but the last, which is a scan, the end of the image, one of two refused codes, or has no
/// marker behind its segment.
pub proof fn lemma_header_walk(data: Seq<u8>, from: int, k: int)
    requires
        0 <= from,
        0 <= k < header_markers(data, from).len(),
    ensures
        ({
            let header = header_markers(data, from);
            let m = header[k];
            let start = if k == 0 {
                from
            } else {
                behind_segment(data, header[k - 1])
            };
            let ends = data[m] == 0xda || data[m] == 0xd9 || data[m] == 0xcc || data[m] == 0xdc;
            &&& start < m && code_stands(data, m)
            &&& forall|j: int| start < j < m ==> !#[trigger] code_stands(data, j)
            &&& k < header.len() - 1 ==> !ends && 256 * data[m + 1] + data[m + 2] >= 2
            &&& k == header.len() - 1 ==> ends || m + 2 >= data.len() || 256 * data[m + 1] + data[m
                + 2] < 2 || forall|j: int|
                behind_segment(data, m) < j ==> !#[trigger] code_stands(data, j)
        }),
    decreases data.len() - from,
{
    let at = next_marker(data, from);
    lemma_next_is_first(data, from);
    lemma_next_marker(data, from);
    if !(data[at] == SCAN || ends_image(data[at]) || !goes_on(data, at)) {
        let next = at + segment_reach(data, at);
        let rest = header_markers(data, next);
        let header = header_markers(data, from);
        assert(header == seq![at] + rest);
        lemma_next_is_first(data, next);
        if k > 0 {
            lemma_header_walk(data, next, k - 1);
            assert(header[k] == rest[k - 1]);
            if k > 1 {
                assert(header[k - 1] == rest[k - 2]);
            }
        }
    }
}

/// Without markers in the header there is no marker in the data.
pub proof fn lemma_empty_header(data: Seq<u8>, from: int)
    requires
        0 <= from,
        header_markers(data, from).len() == 0,
    ensures
        forall|j: int| from < j ==> !#[trigger] code_stands(data, j),
{
    lemma_next_is_first(data, from);
}

/// The markers in and between the scans are read in the same way, but a restart marker has no
/// length, and a scan does not end them.
pub proof fn lemma_scan_walk(data: Seq<u8>, from: int, k: int)
    requires
        0 <= from,
        0 <= k < scan_markers(data, from).len(),
    ensures
        ({
            let markers = scan_markers(data, from);
            let m = markers[k];
            let before = markers[k - 1];
            let start = if k == 0 {
                from
            } else if 0xd0 <= data[before] <= 0xd7 {
                before + 1
            } else {
                behind_segment(data, before)
            };
            let restarts = 0xd0 <= data[m] <= 0xd7;
            let ends = data[m] == 0xd9 || data[m] == 0xcc || data[m] == 0xdc;
            &&& start < m && code_stands(data, m)
            &&& forall|j: int| start < j < m ==> !#[trigger] code_stands(data, j)
            &&& k < markers.len() - 1 ==> !ends && (restarts || 256 * data[m + 1] + data[m + 2]
                >= 2)
            &&& k == markers.len() - 1 && restarts ==> forall|j: int|
                m + 1 < j ==> !#[trigger] code_stands(data, j)
            &&& k == markers.len() - 1 && !restarts ==> ends || m + 2 >= data.len() || 256 * data[m
                + 1] + data[m + 2] < 2 || forall|j: int|
                behind_segment(data, m) < j ==> !#[trigger] code_stands(data, j)
        }),
    decreases data.len() - from,
{
    let at = next_marker(data, from);
    lemma_next_is_first(data, from);
    lemma_next_marker(data, from);
    let restarts = 0xd0 <= data[at] <= 0xd7;
    if restarts || !(ends_image(data[at]) || !goes_on(data, at)) {
        let next = if restarts {
            at + 1
        } else {
            at + segment_reach(data, at)
        };
        let rest = scan_markers(data, next);
        let markers = scan_markers(data, from);
        assert(markers == seq![at] + rest);
        lemma_next_is_first(data, next);
        if k > 0 {
            lemma_scan_walk(data, next, k - 1);
            assert(markers[k] == rest[k - 1]);
            if k > 1 {
                assert(markers[k - 1] == rest[k - 2]);
            }
        }
    }
}

} // verus!
