//! Codec-prefix framing for self-describing serialized payloads.
//!
//! A payload is tagged by prepending the varint-encoded numeric code of the
//! codec that produced it, so a reader can recover the format from the bytes
//! alone.  The crate holds a closed codec registry ([`codec`]), the unsigned
//! varint wire encoding ([`varint`]), and the framing operations that prepend,
//! inspect and strip the code ([`codec_prefix`]).

use vstd::prelude::*;

pub mod codec;
pub mod codec_prefix;
pub mod varint;

verus! {

/// What decoding a framed buffer yields: the recovered value together with
/// the codec identity the buffer was framed with.
pub struct DecodeResult<T> {
    pub data: T,
    pub codec: codec::CodecType,
}

} // verus!
