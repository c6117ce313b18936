use vstd::prelude::*;

verus! {

/// A payload could not be turned into a bitmap.
#[derive(Clone, Debug, PartialEq, Eq)]
pub enum DecodeError {
    /// The raster decoder rejected the bytes; the message is the decoder's.
    Raster(String),
    /// The vector rasterizer rejected the markup; the message is the rasterizer's.
    Vector(String),
    /// The declared content type names neither a vector nor a raster image;
    /// the field holds that content type.
    UnsupportedContentType(String),
}

/// A single fetch request failed. Every failure is scoped to its own request.
#[derive(Clone, Debug, PartialEq, Eq)]
pub enum FetchError {
    /// Reading or writing a cache entry failed.
    Io(String),
    /// The transport could not deliver a response; the message is the transport's.
    Network(String),
    /// The response body could not be decoded.
    Decode(DecodeError),
}

} // verus!
