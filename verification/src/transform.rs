//! The pluggable per-chunk transform: pass-through, or re-encode of
//! the image-data chunk with ancillary chunks dropped.

use vstd::prelude::*;
use crate::chunk::ChunkInfo;
use crate::errors::RewriteError;

verus! {

/// Which transform the engine is bound to for one rewrite.
#[derive(Clone, Copy, PartialEq, Eq, Structural)]
pub enum TransformKind {
    /// Keep every payload unchanged.
    Noop,
    /// Drop ancillary chunks and re-store the image-data chunk's
    /// payload without its inner compression.
    Reflate,
}

/// What a transform decided for one merged payload.
pub enum TransformOutcome {
    /// Write the chunk with this payload.
    Keep(Vec<u8>),
    /// Suppress the chunk entirely.
    Drop,
}

/// The mathematical outcome of a transform on one merged payload.
pub enum SpecOutcome {
    Keep(Seq<u8>),
    Drop,
    Fail,
}

/// The tag of the designated image-data chunk, `IDAT`.
pub open spec fn idat_tag() -> Seq<u8> {
    seq![73u8, 68u8, 65u8, 84u8]
}

/// An ASCII lowercase letter marks a chunk as ancillary.
pub open spec fn is_lower(b: u8) -> bool {
    97 <= b <= 122
}

/// The bytes a zlib stream inflates to, or nothing where the stream
/// is not valid zlib data. A function of the input bytes alone; its
/// definition is not restated here.
pub uninterp spec fn inflate_of(data: Seq<u8>) -> Option<Seq<u8>>;

/// The zlib stream that stores the given bytes without compression.
/// A function of the input bytes alone; its definition is not
/// restated here.
pub uninterp spec fn deflate_stored_of(raw: Seq<u8>) -> Seq<u8>;

/// What each transform returns for a merged payload under a tag.
pub open spec fn apply_transform_spec(t: TransformKind, tag: Seq<u8>, payload: Seq<u8>) ->
    SpecOutcome
    recommends
        tag.len() == 4,
{
    match t {
        TransformKind::Noop => SpecOutcome::Keep(payload),
        TransformKind::Reflate => {
            if is_lower(tag[0]) {
                SpecOutcome::Drop
            } else if tag != idat_tag() {
                SpecOutcome::Keep(payload)
            } else {
                match inflate_of(payload) {
                    Option::None => SpecOutcome::Fail,
                    Option::Some(raw) => SpecOutcome::Keep(deflate_stored_of(raw)),
                }
            }
        },
    }
}

/// Relies on flate2::read::ZlibDecoder and Read::read_to_end: inflates
/// a zlib stream held in memory; success and output depend on the
/// input bytes alone.
#[verifier::external_body]
fn zlib_decode(data: &Vec<u8>) -> (r: Option<Vec<u8>>)
    ensures
        match r {
            Option::Some(raw) => inflate_of(data@) == Option::Some(raw@),
            Option::None => inflate_of(data@) is None,
        },
{
    let mut inflate = flate2::read::ZlibDecoder::new(data.as_slice());
    let mut raw = Vec::new();
    match std::io::Read::read_to_end(&mut inflate, &mut raw) {
        Ok(_) => Some(raw),
        Err(_) => None,
    }
}

/// Relies on flate2::write::ZlibEncoder with Compression::none writing
/// into a Vec: re-encodes bytes as a stored (uncompressed) zlib
/// stream, a function of the input bytes alone, and that stream
/// inflates back to exactly the input bytes. The error path cannot
/// occur here: flate2 surfaces only errors of the underlying writer —
/// a Vec, whose writes are infallible — and compressor errors, which
/// arise only from invalid parameters flate2 never constructs.
#[verifier::external_body]
fn zlib_encode_stored(raw: &Vec<u8>) -> (r: Vec<u8>)
    ensures
        r@ == deflate_stored_of(raw@),
        inflate_of(r@) == Option::Some(raw@),
{
    let mut deflate = flate2::write::ZlibEncoder::new(Vec::new(), flate2::Compression::none());
    let _ = std::io::Write::write_all(&mut deflate, raw.as_slice());
    match deflate.finish() {
        Ok(v) => v,
        Err(_) => Vec::new(),
    }
}

/// The pass-through transform: every payload is kept unchanged.
pub fn transform_noop(_info: &ChunkInfo, buf: Vec<u8>) -> (r: Result<
    TransformOutcome,
    RewriteError,
>)
    ensures
        r matches Ok(o) && o matches TransformOutcome::Keep(p) && p == buf,
{
    Ok(TransformOutcome::Keep(buf))
}

/// The re-encoding transform: drops ancillary chunks (lowercase first
/// tag byte), keeps critical chunks other than image data unchanged,
/// and re-stores the image-data payload without its inner compression.
pub fn transform_reflate(info: &ChunkInfo, buf: Vec<u8>) -> (r: Result<
    TransformOutcome,
    RewriteError,
>)
    requires
        info.wf(),
    ensures
        ({
            let o = apply_transform_spec(TransformKind::Reflate, info.spec_tag(), buf@);
            &&& match r {
                Ok(TransformOutcome::Keep(p)) => o == SpecOutcome::Keep(p@),
                Ok(TransformOutcome::Drop) => o == SpecOutcome::Drop,
                Err(e) => e is TransformFailed && o is Fail,
            }
            &&& (o is Fail ==> r is Err)
            &&& (r matches Ok(TransformOutcome::Keep(p)) ==> inflate_of(p@) == inflate_of(buf@)
                || p@ == buf@)
        }),
{
    let tag = info.raw_type();
    if tag[0] >= 97 && tag[0] <= 122 {
        // Ancillary chunk: skip it.
        return Ok(TransformOutcome::Drop);
    }
    if !(tag[0] == 73 && tag[1] == 68 && tag[2] == 65 && tag[3] == 84) {
        proof {
            assert(info.spec_tag() != idat_tag());
        }
        return Ok(TransformOutcome::Keep(buf));
    }
    proof {
        assert(info.spec_tag() =~= idat_tag());
    }
    // Image-data chunk: inflate, then re-store uncompressed.
    let raw = match zlib_decode(&buf) {
        Some(raw) => raw,
        None => {
            return Err(RewriteError::TransformFailed);
        },
    };
    Ok(TransformOutcome::Keep(zlib_encode_stored(&raw)))
}

/// Runs the transform the engine was bound to.
pub(crate) fn apply_transform(t: TransformKind, info: &ChunkInfo, buf: Vec<u8>) -> (r: Result<
    TransformOutcome,
    RewriteError,
>)
    requires
        info.wf(),
    ensures
        ({
            let o = apply_transform_spec(t, info.spec_tag(), buf@);
            &&& match r {
                Ok(TransformOutcome::Keep(p)) => o == SpecOutcome::Keep(p@),
                Ok(TransformOutcome::Drop) => o == SpecOutcome::Drop,
                Err(e) => e is TransformFailed && o is Fail,
            }
            &&& (o is Fail ==> r is Err)
        }),
{
    match t {
        TransformKind::Noop => transform_noop(info, buf),
        TransformKind::Reflate => transform_reflate(info, buf),
    }
}

} // verus!
