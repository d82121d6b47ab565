//! zlib (deflate) compression of blocks.
use vstd::prelude::*;
use crate::errno::Errno;
use crate::subs::DEBUFSIZE;
use miniz_oxide::inflate::TINFLStatus;

verus! {

/// The zlib stream that deflate makes of `src` at compression `level`.
pub uninterp spec fn zlib_deflate(src: Seq<u8>, level: u8) -> Seq<u8>;

/// Where inflating a zlib stream stopped short, as the inflater reports it.
#[derive(Debug, Clone, Copy, PartialEq, Eq, Structural)]
pub enum InflateStatus {
    /// The input ran out or was cut in a way that leaves no way forward.
    FailedCannotMakeProgress,
    /// The inflater was called with parameters it refuses.
    BadParam,
    /// The checksum at the end of the stream does not match the output.
    Adler32Mismatch,
    /// The stream is malformed.
    Failed,
    /// The stream ended.
    Done,
    /// More input is needed.
    NeedsMoreInput,
    /// More output would come than there is room for.
    HasMoreOutput,
    /// A status that the inflater may add in later versions.
    Other,
}

/// What inflating the zlib stream `src` gives when at most `max_size` bytes
/// may come out; the inflater's status when the stream is malformed or more
/// would come out.
pub uninterp spec fn zlib_inflate(src: Seq<u8>, max_size: int) -> Result<Seq<u8>, InflateStatus>;

/// Inflating the zlib stream `src` with room for `max_size` bytes gives
/// `out`.
pub open spec fn inflates_to(src: Seq<u8>, max_size: int, out: Seq<u8>) -> bool {
    zlib_inflate(src, max_size) == Ok::<Seq<u8>, InflateStatus>(out)
}

/// Compresses `src` by `miniz_oxide::deflate::compress_to_vec_zlib`. The
/// stream is lossless: inflating it with room for at least `src.len()` bytes
/// gives `src` back.
#[verifier::external_body]
fn zlib_deflate_vec(src: &[u8], level: u8) -> (r: Vec<u8>)
    ensures
        r@ == zlib_deflate(src@, level),
        forall|max: int|
            src@.len() <= max ==> #[trigger] inflates_to(r@, max, src@),
{
    miniz_oxide::deflate::compress_to_vec_zlib(src, level)
}

/// Decompresses `src` by `miniz_oxide::inflate::decompress_to_vec_zlib_with_limit`;
/// its output never exceeds `max_size` bytes. On failure, the status of the
/// error it returns is handed back (the partial output is dropped).
#[verifier::external_body]
fn zlib_inflate_vec(src: &[u8], max_size: usize) -> (r: Result<Vec<u8>, InflateStatus>)
    ensures
        match r {
            Ok(v) => zlib_inflate(src@, max_size as int) == Ok::<Seq<u8>, InflateStatus>(v@)
                && v@.len() <= max_size,
            Err(e) => zlib_inflate(src@, max_size as int) == Err::<Seq<u8>, InflateStatus>(e),
        },
{
    match miniz_oxide::inflate::decompress_to_vec_zlib_with_limit(src, max_size) {
        Ok(v) => Ok(v),
        Err(e) => Err(match e.status {
            TINFLStatus::FailedCannotMakeProgress => InflateStatus::FailedCannotMakeProgress,
            TINFLStatus::BadParam => InflateStatus::BadParam,
            TINFLStatus::Adler32Mismatch => InflateStatus::Adler32Mismatch,
            TINFLStatus::Failed => InflateStatus::Failed,
            TINFLStatus::Done => InflateStatus::Done,
            TINFLStatus::NeedsMoreInput => InflateStatus::NeedsMoreInput,
            TINFLStatus::HasMoreOutput => InflateStatus::HasMoreOutput,
            _ => InflateStatus::Other,
        }),
    }
}

/// What [`decompress`] returns for `buf` with room for `max_size` bytes.
pub open spec fn zlib_decompress_spec(buf: Seq<u8>, max_size: int) -> Result<Seq<u8>, InflateStatus> {
    zlib_inflate(buf, max_size)
}

/// Compresses `buf` into a zlib stream at `level`; the stream decompresses
/// back to `buf`.
pub fn compress(buf: &[u8], level: u8) -> (r: Result<Vec<u8>, Errno>)
    ensures
        r matches Ok(v) && v@ == zlib_deflate(buf@, level),
        r matches Ok(v) ==> (buf@.len() <= DEBUFSIZE ==> zlib_decompress_spec(
            v@,
            DEBUFSIZE as int,
        ) == Ok::<Seq<u8>, InflateStatus>(buf@)),
{
    let v = zlib_deflate_vec(buf, level);
    assert(inflates_to(v@, DEBUFSIZE as int, buf@) || buf@.len() > DEBUFSIZE);
    Ok(v)
}

/// Decompresses a zlib stream, refusing one that would give more than
/// `max_size` bytes.
pub fn decompress(buf: &[u8], max_size: usize) -> (r: Result<Vec<u8>, InflateStatus>)
    ensures
        match zlib_decompress_spec(buf@, max_size as int) {
            Ok(d) => r matches Ok(v) && v@ == d,
            Err(e) => r == Err::<Vec<u8>, InflateStatus>(e),
        },
        r matches Ok(v) ==> v@.len() <= max_size,
{
    zlib_inflate_vec(buf, max_size)
}

} // verus!
