//! LZ4 block compression with a 4-byte little-endian length prefix, the
//! layout HAMMER2 stores LZ4-compressed blocks in.
use vstd::prelude::*;
use vstd::bytes::{spec_u32_from_le_bytes, spec_u32_to_le_bytes, u32_to_le_bytes};
use crate::errno::Errno;
use crate::fs::{le32, read_u32_le};
use crate::subs::DEBUFSIZE;

verus! {

/// Room given to the compressor: half of the buffer size, less the prefix
/// and a margin.
pub const LZ4_COMPRESS_ROOM: usize = 32760;

/// The largest input LZ4 accepts, and so the largest capacity it can be
/// asked to decompress into.
pub const LZ4_MAX_INPUT_SIZE: usize = 0x7E00_0000;

/// The output size that LZ4 guarantees compression of `n` bytes to fit in
/// (`LZ4_COMPRESSBOUND`).
pub open spec fn lz4_compress_bound(n: int) -> int {
    n + n / 255 + 16
}

/// What LZ4 block decompression makes of the compressed block `src` with
/// room for `capacity` bytes of output; `None` when the block is malformed
/// or does not fit.
pub uninterp spec fn lz4_block_decompress(src: Seq<u8>, capacity: int) -> Option<Seq<u8>>;

/// Compresses `src` by `lz4::block::compress_to_buffer` (default mode, no
/// size prefix) into a buffer of `capacity` bytes, which calls
/// `LZ4_compress_default`. The block is never empty and fits the buffer, and
/// LZ4 being lossless, decompressing it with room for at least `src.len()`
/// bytes gives `src` back. LZ4 documents that compression succeeds when the
/// buffer holds at least the compress bound of an input it accepts. Which
/// bytes the block holds is left unstated: they differ between builds.
#[verifier::external_body]
fn lz4_compress_block(src: &[u8], capacity: usize) -> (r: Option<Vec<u8>>)
    requires
        src@.len() <= i32::MAX,
        capacity <= i32::MAX,
    ensures
        match r {
            Some(v) => {
                &&& 0 < v@.len() <= capacity
                &&& forall|cap: int|
                    src@.len() <= cap <= LZ4_MAX_INPUT_SIZE ==> #[trigger] lz4_block_decompress(
                        v@,
                        cap,
                    ) == Some(src@)
            },
            None => !(src@.len() <= LZ4_MAX_INPUT_SIZE && capacity >= lz4_compress_bound(
                src@.len() as int,
            )),
        },
{
    let mut dst = vec![0u8; capacity];
    match lz4::block::compress_to_buffer(src, None, false, &mut dst) {
        Ok(n) => {
            dst.truncate(n);
            Some(dst)
        },
        Err(_) => None,
    }
}

/// Decompresses the block `src` by `lz4::block::decompress` with an
/// explicit capacity, which calls `LZ4_decompress_safe`; the output never
/// exceeds the capacity.
#[verifier::external_body]
fn lz4_decompress_block(src: &[u8], capacity: usize) -> (r: Option<Vec<u8>>)
    requires
        src@.len() <= i32::MAX,
        capacity <= LZ4_MAX_INPUT_SIZE,
    ensures
        match r {
            Some(v) => lz4_block_decompress(src@, capacity as int) == Some(v@) && v@.len()
                <= capacity,
            None => lz4_block_decompress(src@, capacity as int) is None,
        },
{
    lz4::block::decompress(src, Some(capacity as i32)).ok()
}

/// A compressed block behind its length as 4 little-endian bytes.
pub open spec fn lz4_frame_spec(payload: Seq<u8>) -> Seq<u8> {
    spec_u32_to_le_bytes(payload.len() as u32) + payload
}

/// The payload of a framed block: the bytes after the prefix, as many as
/// the prefix says; `None` when the prefix is negative as a signed 32-bit
/// value or runs past the buffer.
pub open spec fn lz4_unframe_spec(buf: Seq<u8>) -> Option<Seq<u8>> {
    let c = le32(buf, 0);
    if c >= 0x8000_0000 || 4 + c > buf.len() {
        None
    } else {
        Some(buf.subrange(4, 4 + c))
    }
}

/// A framed block `v` that [`compress`] may give for `buf`: the length of
/// its payload as 4 little-endian bytes, then a payload that fits the room
/// given and decompresses back to `buf`, or is empty; never empty when
/// `buf` is small enough that LZ4 guarantees it fits.
pub open spec fn lz4_compressed(v: Seq<u8>, buf: Seq<u8>) -> bool {
    let p = v.subrange(4, v.len() as int);
    &&& v.len() >= 4
    &&& v == lz4_frame_spec(p)
    &&& p.len() <= LZ4_COMPRESS_ROOM
    &&& p.len() > 0 ==> forall|cap: int|
        buf.len() <= cap <= LZ4_MAX_INPUT_SIZE ==> #[trigger] lz4_block_decompress(p, cap) == Some(
            buf,
        )
    &&& lz4_compress_bound(buf.len() as int) <= LZ4_COMPRESS_ROOM ==> p.len() > 0
}

/// What [`decompress`] returns for `buf` with room for `max_size` bytes.
pub open spec fn lz4_decompress_spec(buf: Seq<u8>, max_size: int) -> Result<Seq<u8>, Errno> {
    if buf.len() > i32::MAX {
        Err(Errno::EINVAL)
    } else {
        match lz4_unframe_spec(buf) {
            None => Err(Errno::EINVAL),
            Some(p) => match lz4_block_decompress(p, max_size) {
                Some(v) => Ok(v),
                None => Err(Errno::EINVAL),
            },
        }
    }
}

/// Frames a compressed block: its length as 4 little-endian bytes, then
/// the block.
pub fn lz4_frame(payload: &[u8]) -> (r: Vec<u8>)
    requires
        payload@.len() <= u32::MAX,
    ensures
        r@ == lz4_frame_spec(payload@),
{
    let mut r = u32_to_le_bytes(payload.len() as u32);
    let mut i: usize = 0;
    while i < payload.len()
        invariant
            i <= payload@.len(),
            r@ == spec_u32_to_le_bytes(payload@.len() as u32) + payload@.subrange(0, i as int),
        decreases payload@.len() - i,
    {
        r.push(payload[i]);
        i = i + 1;
        assert(r@ =~= spec_u32_to_le_bytes(payload@.len() as u32) + payload@.subrange(0, i as int));
    }
    assert(payload@.subrange(0, payload@.len() as int) =~= payload@);
    r
}

/// The payload of a framed block, if its prefix is a length that fits.
pub fn lz4_unframe(buf: &[u8]) -> (r: Option<&[u8]>)
    requires
        buf@.len() >= 4,
    ensures
        match lz4_unframe_spec(buf@) {
            Some(p) => r matches Some(s) && s@ == p,
            None => r is None,
        },
{
    let c = read_u32_le(buf, 0);
    if c >= 0x8000_0000 || buf.len() - 4 < c as usize {
        None
    } else {
        Some(&buf[4..4 + c as usize])
    }
}

/// Compresses `buf` into a framed LZ4 block. A block that does not fit in
/// the room given is stored as an empty frame. What comes out decompresses
/// back to `buf` when the frame holds a block.
pub fn compress(buf: &[u8]) -> (r: Result<Vec<u8>, Errno>)
    ensures
        buf@.len() > i32::MAX ==> r == Err::<Vec<u8>, Errno>(Errno::EINVAL),
        buf@.len() <= i32::MAX ==> (r matches Ok(v) && lz4_compressed(v@, buf@)),
        r matches Ok(v) ==> v@.len() >= 4,
        lz4_compress_bound(buf@.len() as int) <= LZ4_COMPRESS_ROOM ==> (r matches Ok(v)
            && lz4_decompress_spec(v@, DEBUFSIZE as int) == Ok::<Seq<u8>, Errno>(buf@)),
        r matches Ok(v) ==> (buf@.len() <= DEBUFSIZE && v@.len() > 4 ==> lz4_decompress_spec(
            v@,
            DEBUFSIZE as int,
        ) == Ok::<Seq<u8>, Errno>(buf@)),
{
    if buf.len() > 0x7FFF_FFFF {
        return Err(Errno::EINVAL);
    }
    let pay = match lz4_compress_block(buf, LZ4_COMPRESS_ROOM) {
        Some(v) => v,
        None => Vec::new(),
    };
    let r = lz4_frame(pay.as_slice());
    proof {
        vstd::bytes::lemma_auto_spec_u32_to_from_le_bytes();
        let p = pay@;
        assert(r@.subrange(4, r@.len() as int) =~= p);
        if buf@.len() <= DEBUFSIZE && r@.len() > 4 {
            let pre = spec_u32_to_le_bytes(p.len() as u32);
            assert(r@.subrange(0, 4) =~= pre);
            assert(le32(r@, 0) == p.len());
            assert(r@.subrange(4, 4 + p.len() as int) =~= p);
            assert(lz4_block_decompress(p, DEBUFSIZE as int) == Some(buf@));
        }
    }
    Ok(r)
}

/// Decompresses a framed LZ4 block with room for `max_size` bytes.
pub fn decompress(buf: &[u8], max_size: usize) -> (r: Result<Vec<u8>, Errno>)
    requires
        max_size <= DEBUFSIZE,
        buf@.len() >= 4,
        le32(buf@, 0) < 0x8000_0000 ==> le32(buf@, 0) <= buf@.len(),
    ensures
        match lz4_decompress_spec(buf@, max_size as int) {
            Ok(d) => r matches Ok(v) && v@ == d,
            Err(e) => r == Err::<Vec<u8>, Errno>(e),
        },
        r matches Ok(v) ==> v@.len() <= max_size,
{
    if buf.len() > 0x7FFF_FFFF {
        return Err(Errno::EINVAL);
    }
    match lz4_unframe(buf) {
        None => Err(Errno::EINVAL),
        Some(p) => match lz4_decompress_block(p, max_size) {
            Some(v) => Ok(v),
            None => Err(Errno::EINVAL),
        },
    }
}

} // verus!
