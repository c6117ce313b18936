use vstd::prelude::*;
use crate::bitmap::Bitmap;
use crate::codec::decode_model;
use crate::error::{DecodeError, FetchError};
use crate::mask::MAX_SIDE;
use crate::process::{ct_chars, is_raster_type, is_svg_type, is_vector_result, parse_img_response};
use crate::raster::{raster_decodes, raster_result};

verus! {

/// A payload as it arrives from the transport or the disk: the body bytes
/// and the content type the sender declared, if any.
pub struct RawPayload {
    pub content_type: Option<String>,
    pub bytes: Vec<u8>,
}

/// Where a fetch gets its bitmap from: the on-disk cache, or the network.
#[derive(Clone, Copy, Debug, PartialEq, Eq, Structural)]
pub enum FetchSource {
    Disk,
    Net,
}

/// The first decision of every fetch: take the disk path exactly when the
/// derived key already has an entry in the cache directory; otherwise go to
/// the network.
pub fn choose_source(cached: bool) -> (r: FetchSource)
    ensures
        r == if cached {
            FetchSource::Disk
        } else {
            FetchSource::Net
        },
{
    if cached {
        FetchSource::Disk
    } else {
        FetchSource::Net
    }
}

/// The disk-hit path on the bytes of a cache entry: decodes the stored
/// bitmap. A stored entry decodes back exactly; anything else is surfaced as
/// an I/O failure of the read path, never silently treated as a miss.
pub fn load_cached_entry(bytes: &Vec<u8>) -> (r: Result<Bitmap, FetchError>)
    ensures
        match r {
            Ok(b) => decode_model(bytes@) == Some(b@) && b@.wf(),
            Err(e) => decode_model(bytes@) is None && e is Io,
        },
{
    match crate::codec::decode_bitmap(bytes) {
        Some(b) => Ok(b),
        None => Err(FetchError::Io("cache entry is not a stored bitmap".to_owned())),
    }
}

/// The completion step of the network path. A transport failure resolves to
/// a network error, never retried. A delivered response is decoded by its
/// declared content type: an unsupported type or a failed decode resolves to
/// that decode error; a successful decode yields the processed bitmap, which
/// the caller registers as a texture and then persists to the disk cache.
pub fn on_net_response(response: Result<RawPayload, String>, size: u32) -> (r: Result<
    Bitmap,
    FetchError,
>)
    requires
        1 <= size,
        size as int <= MAX_SIDE as int,
        4 * (size as int) * (size as int) <= usize::MAX as int,
    ensures
        response matches Err(e) ==> (r matches Err(f) && f matches FetchError::Network(m) && m@
            == e@),
        response matches Ok(p) ==> {
            let ct = ct_chars(p.content_type);
            &&& (!is_svg_type(ct) && !is_raster_type(ct)) ==> (r matches Err(f) && f matches
                FetchError::Decode(d) && d matches DecodeError::UnsupportedContentType(m) && m@
                == ct)
            &&& is_svg_type(ct) ==> match r {
                Ok(b) => b@.width == size as nat && b@.height == size as nat && b@.wf()
                    && is_vector_result(b@, size as nat),
                Err(f) => f matches FetchError::Decode(d) && d is Vector,
            }
            &&& is_raster_type(ct) ==> {
                &&& (r is Ok) == raster_decodes(p.bytes@)
                &&& match r {
                    Ok(b) => b@ == raster_result(p.bytes@, size as nat) && b@.width
                        == size as nat && b@.height == size as nat && b@.wf(),
                    Err(f) => f matches FetchError::Decode(d) && d is Raster,
                }
            }
        },
{
    match response {
        Err(e) => Err(FetchError::Network(e)),
        Ok(p) => match parse_img_response(p.content_type, &p.bytes, size) {
            Ok(b) => Ok(b),
            Err(d) => Err(FetchError::Decode(d)),
        },
    }
}

/// Whether a completed network fetch is followed by a best-effort write of
/// its bitmap to the disk cache: exactly the successful decodes are
/// persisted; no file is written for any failure.
pub fn should_persist(outcome: &Result<Bitmap, FetchError>) -> (r: bool)
    ensures
        r == (outcome is Ok),
{
    outcome.is_ok()
}

} // verus!
