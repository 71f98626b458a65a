//! The binary frame that the host sends: one marker byte, the width and the height as
//! little-endian 32-bit numbers, then the JPEG data.

use vstd::prelude::*;
use vstd::slice::*;

verus! {

/// First byte of a binary frame from the host.
pub const FRAME_MAGIC: u8 = 0xF1;

/// The number of bytes before the JPEG data.
pub const FRAME_HEADER_LEN: usize = 9;

/// The number that four bytes stand for, least significant byte first.
pub open spec fn le32(b: Seq<u8>) -> int {
    b[0] + 0x100 * b[1] + 0x1_0000 * b[2] + 0x100_0000 * b[3]
}

/// The four bytes of a number, least significant byte first.
pub open spec fn le32_bytes(n: u32) -> Seq<u8> {
    seq![
        (n as int % 0x100) as u8,
        (n as int / 0x100 % 0x100) as u8,
        (n as int / 0x1_0000 % 0x100) as u8,
        (n as int / 0x100_0000) as u8,
    ]
}

/// Whether the bytes start with a frame header.
pub open spec fn has_frame_header(data: Seq<u8>) -> bool {
    data.len() >= FRAME_HEADER_LEN && data[0] == FRAME_MAGIC
}

/// Width, height and JPEG data of a frame; `None` where the bytes are no frame.
pub open spec fn frame_parts(data: Seq<u8>) -> Option<(u32, u32, Seq<u8>)> {
    if has_frame_header(data) {
        Some(
            (
                le32(data.subrange(1, 5)) as u32,
                le32(data.subrange(5, 9)) as u32,
                data.subrange(9, data.len() as int),
            ),
        )
    } else {
        None
    }
}

/// The bytes of a frame.
pub open spec fn frame_bytes(width: u32, height: u32, jpeg: Seq<u8>) -> Seq<u8> {
    seq![FRAME_MAGIC] + le32_bytes(width) + le32_bytes(height) + jpeg
}

/// Reads a little-endian number from four bytes of `data`, starting at `at`.
fn read_le32(data: &[u8], at: usize) -> (res: u32)
    requires
        at + 4 <= data@.len(),
    ensures
        res == le32(data@.subrange(at as int, at + 4)),
{
    let b0: u32 = data[at] as u32;
    let b1: u32 = data[at + 1] as u32;
    let b2: u32 = data[at + 2] as u32;
    let b3: u32 = data[at + 3] as u32;
    b0 + 0x100 * b1 + 0x1_0000 * b2 + 0x100_0000 * b3
}

/// Appends a number to `out`, least significant byte first.
fn push_le32(out: &mut Vec<u8>, n: u32)
    ensures
        final(out)@ == old(out)@ + le32_bytes(n),
{
    out.push((n % 0x100) as u8);
    out.push((n / 0x100 % 0x100) as u8);
    out.push((n / 0x1_0000 % 0x100) as u8);
    out.push((n / 0x100_0000) as u8);
    assert(out@ =~= old(out)@ + le32_bytes(n));
}

/// Splits a frame into width, height and JPEG data. Returns `None` for bytes that are
/// shorter than a header or do not start with the marker.
pub fn parse_frame_header(data: &[u8]) -> (res: Option<(u32, u32, &[u8])>)
    ensures
        match res {
            Some((w, h, jpeg)) => frame_parts(data@) == Some((w, h, jpeg@)),
            None => frame_parts(data@) is None,
        },
{
    if data.len() < FRAME_HEADER_LEN || data[0] != FRAME_MAGIC {
        return None;
    }
    let w: u32 = read_le32(data, 1);
    let h: u32 = read_le32(data, 5);
    let jpeg = slice_subrange(data, FRAME_HEADER_LEN, data.len());
    Some((w, h, jpeg))
}

/// Puts a header in front of JPEG data.
pub fn build_frame(width: u32, height: u32, jpeg: &[u8]) -> (res: Vec<u8>)
    ensures
        res@ == frame_bytes(width, height, jpeg@),
{
    let mut payload: Vec<u8> = Vec::new();
    payload.push(FRAME_MAGIC);
    push_le32(&mut payload, width);
    push_le32(&mut payload, height);
    payload.extend_from_slice(jpeg);
    assert(payload@ =~= frame_bytes(width, height, jpeg@));
    payload
}

/// Four bytes give back the number that they were made from.
proof fn lemma_le32_reads_back(n: u32)
    ensures
        le32(le32_bytes(n)) == n,
        le32_bytes(n).len() == 4,
{
    let v = n as int;
    assert(v == v % 0x100 + 0x100 * (v / 0x100 % 0x100) + 0x1_0000 * (v / 0x1_0000 % 0x100)
        + 0x100_0000 * (v / 0x100_0000));
}

/// Four bytes are the bytes of the number that they stand for.
proof fn lemma_le32_writes_back(b: Seq<u8>)
    requires
        b.len() == 4,
    ensures
        0 <= le32(b) <= u32::MAX,
        le32_bytes(le32(b) as u32) == b,
{
    let v = le32(b);
    assert(v % 0x100 == b[0] as int);
    assert(v / 0x100 % 0x100 == b[1] as int);
    assert(v / 0x1_0000 % 0x100 == b[2] as int);
    assert(v / 0x100_0000 == b[3] as int);
    assert(le32_bytes(v as u32) =~= b);
}

/// Reading a frame gives back the width, the height and the JPEG data it was built from.
pub proof fn lemma_frame_reads_back(width: u32, height: u32, jpeg: Seq<u8>)
    ensures
        frame_parts(frame_bytes(width, height, jpeg)) == Some((width, height, jpeg)),
{
    let data = frame_bytes(width, height, jpeg);
    lemma_le32_reads_back(width);
    lemma_le32_reads_back(height);
    assert(data.subrange(1, 5) =~= le32_bytes(width));
    assert(data.subrange(5, 9) =~= le32_bytes(height));
    assert(data.subrange(9, data.len() as int) =~= jpeg);
}

/// Bytes that are read as a frame are the frame of what was read: no two byte strings
/// stand for the same frame.
pub proof fn lemma_frame_writes_back(data: Seq<u8>)
    requires
        has_frame_header(data),
    ensures
        frame_parts(data) matches Some((w, h, jpeg)) && frame_bytes(w, h, jpeg) == data,
{
    lemma_le32_writes_back(data.subrange(1, 5));
    lemma_le32_writes_back(data.subrange(5, 9));
    let (w, h, jpeg) = frame_parts(data)->0;
    assert(frame_bytes(w, h, jpeg) =~= data);
}

/// A frame is the byte 0xF1, four bytes of the width and four of the height, in each the byte
/// that counts ones first, and then the JPEG data as it is.
pub proof fn lemma_frame_layout(width: u32, height: u32, jpeg: Seq<u8>)
    ensures
        ({
            let data = frame_bytes(width, height, jpeg);
            &&& data.len() == 9 + jpeg.len()
            &&& data[0] == 0xf1
            &&& data[1] + 256 * data[2] + 65536 * data[3] + 16777216 * data[4] == width
            &&& data[5] + 256 * data[6] + 65536 * data[7] + 16777216 * data[8] == height
            &&& forall|i: int| 0 <= i < jpeg.len() ==> #[trigger] data[9 + i] == jpeg[i]
        }),
{
    lemma_le32_reads_back(width);
    lemma_le32_reads_back(height);
    let data = frame_bytes(width, height, jpeg);
    assert(data.subrange(1, 5) =~= le32_bytes(width));
    assert(data.subrange(5, 9) =~= le32_bytes(height));
    assert(data.subrange(1, 5)[0] == data[1] && data.subrange(1, 5)[3] == data[4]);
    assert(data.subrange(5, 9)[0] == data[5] && data.subrange(5, 9)[3] == data[8]);
}

/// Bytes are a frame exactly if there are nine or more and the first is 0xF1. Four bytes each
/// give the width and the height, the byte that counts ones first, and all that follows is the
/// JPEG data.
pub proof fn lemma_frame_is_read(data: Seq<u8>)
    ensures
        frame_parts(data) is Some <==> data.len() >= 9 && data[0] == 0xf1,
        frame_parts(data) matches Some((w, h, jpeg)) ==> {
            &&& w == data[1] + 256 * data[2] + 65536 * data[3] + 16777216 * data[4]
            &&& h == data[5] + 256 * data[6] + 65536 * data[7] + 16777216 * data[8]
            &&& jpeg.len() == data.len() - 9
            &&& forall|i: int| 0 <= i < jpeg.len() ==> #[trigger] jpeg[i] == data[9 + i]
        },
{
    if frame_parts(data) is Some {
        lemma_le32_writes_back(data.subrange(1, 5));
        lemma_le32_writes_back(data.subrange(5, 9));
    }
}

} // verus!
