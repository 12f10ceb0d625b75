//! The prefix framer: prepends the varint-encoded numeric code of a codec to
//! a payload, peeks the code from the front of a framed buffer, and strips
//! the code to recover the payload.

use crate::codec::lemma_registry_left_inverse;
use crate::codec::spec_code_of;
use crate::codec::spec_identity_of;
use crate::codec::CodecType;
use crate::varint::decode_varint;
use crate::varint::encode_varint;
use crate::varint::lemma_varint_decode_incomplete;
use crate::varint::lemma_varint_decode_terminator;
use crate::varint::lemma_varint_round_trip;
use crate::varint::varint_decode;
use crate::varint::varint_encode;
use vstd::prelude::*;
use vstd::slice::slice_subrange;

verus! {

/// Why `add` could fail: the byte sink refused an append.  The sink here is
/// an in-memory buffer whose append cannot fail, and `add` proves that it
/// never returns this error.
#[derive(Clone, Copy, Debug, PartialEq, Eq, Structural)]
pub enum PrefixError {
    SinkWriteFailure,
}

/// A framed buffer: the varint-encoded numeric code of `c`, then the
/// payload, byte for byte.
pub open spec fn spec_frame(c: CodecType, payload: Seq<u8>) -> Seq<u8> {
    varint_encode(spec_code_of(c)) + payload
}

/// What peeking at a buffer yields: the registered identity of the leading
/// varint's value, `None` when no complete varint is there or its value is
/// not a registered code.
pub open spec fn spec_peek(s: Seq<u8>) -> Option<CodecType> {
    match varint_decode(s) {
        Some((v, _)) => spec_identity_of(v),
        None => None,
    }
}

/// What stripping the prefix from a buffer yields: everything after the
/// leading varint, whatever its value; the empty sequence when no complete
/// varint is there.
pub open spec fn spec_strip(s: Seq<u8>) -> Seq<u8> {
    match varint_decode(s) {
        Some((_, k)) => s.skip(k as int),
        None => Seq::empty(),
    }
}

/// Returns `data` prefixed with the varint-encoded numeric code of `codec`.
///
/// The identity is always resolvable (the enumeration is closed) and the
/// in-memory append cannot fail, so the result is always `Ok`.
pub fn add(codec: CodecType, data: &[u8]) -> (r: Result<Vec<u8>, PrefixError>)
    ensures
        r is Ok,
        r->Ok_0@ == spec_frame(codec, data@),
{
    let code: u64 = codec.hex();
    let mut target: Vec<u8> = encode_varint(code);
    proof {
        assert(target@ + data@.subrange(0, 0) =~= target@);
    }
    let mut i: usize = 0;
    while i < data.len()
        invariant
            i <= data@.len(),
            target@ == varint_encode(spec_code_of(codec)) + data@.subrange(0, i as int),
        decreases data@.len() - i,
    {
        target.push(data[i]);
        proof {
            assert(target@ =~= varint_encode(spec_code_of(codec)) + data@.subrange(
                0,
                i as int + 1,
            ));
        }
        i = i + 1;
    }
    proof {
        assert(data@.subrange(0, data@.len() as int) =~= data@);
    }
    Ok(target)
}

/// Returns the codec identity whose numeric code `data` is prefixed with,
/// or `None` when the buffer holds no complete varint or the decoded code is
/// registered to no codec.  Never fails and reads no byte past the end.
pub fn get(data: &[u8]) -> (r: Option<CodecType>)
    ensures
        r == spec_peek(data@),
{
    match decode_varint(data) {
        Some((code, _)) => CodecType::by_hex(code),
        None => None,
    }
}

/// Removes the codec prefix and returns the raw payload.
///
/// Stripping is purely a byte-offset operation: it does not consult the
/// registry, so it succeeds also on buffers carrying an unknown code.  When
/// the buffer ends mid-varint the result is empty.
pub fn remove<'a>(data: &'a [u8]) -> (r: &'a [u8])
    ensures
        r@ == spec_strip(data@),
{
    let len: usize = data.len();
    let mut i: usize = 0;
    while i < len
        invariant
            len == data@.len(),
            i <= len,
            forall|j: int| 0 <= j < i ==> data@[j] >= 128,
        decreases len - i,
    {
        if data[i] < 128 {
            proof {
                lemma_varint_decode_terminator(data@, i as int);
                assert(data@.subrange(i as int + 1, len as int) =~= data@.skip(i as int + 1));
            }
            return slice_subrange(data, i + 1, len);
        }
        i = i + 1;
    }
    proof {
        lemma_varint_decode_incomplete(data@);
        assert(data@.subrange(len as int, len as int) =~= Seq::<u8>::empty());
    }
    slice_subrange(data, len, len)
}

/// Stripping ignores the registry: for every numeric code, registered or
/// not, stripping the frame built from its encoding yields the payload.
pub proof fn lemma_strip_any_code(code: nat, payload: Seq<u8>)
    ensures
        spec_strip(varint_encode(code) + payload) == payload,
{
    lemma_varint_round_trip(code, payload);
    assert((varint_encode(code) + payload).skip(varint_encode(code).len() as int) =~= payload);
}

/// Round trip: for every registered identity and every payload, the empty
/// one included, stripping the prefix from the framed buffer yields the
/// payload unchanged.
pub proof fn lemma_prefix_round_trip(c: CodecType, payload: Seq<u8>)
    ensures
        spec_strip(spec_frame(c, payload)) == payload,
{
    lemma_strip_any_code(spec_code_of(c), payload);
}

/// Identity recovery: for every registered identity and every payload,
/// peeking at the framed buffer finds that identity again.
pub proof fn lemma_prefix_identity_recovery(c: CodecType, payload: Seq<u8>)
    ensures
        spec_peek(spec_frame(c, payload)) == Some(c),
{
    lemma_varint_round_trip(spec_code_of(c), payload);
    lemma_registry_left_inverse(c);
}

/// Unknown-codec safety: when the leading varint decodes to a code that the
/// registry does not hold, peeking reports the absence rather than failing.
pub proof fn lemma_peek_unknown_codec(s: Seq<u8>, v: nat, k: nat)
    requires
        varint_decode(s) == Some((v, k)),
        spec_identity_of(v) is None,
    ensures
        spec_peek(s) is None,
{
}

/// Truncated-input safety: a buffer that ends mid-varint (every byte still
/// carries the continuation bit) peeks to no identity and strips to the
/// empty payload.
pub proof fn lemma_truncated_input_safe(s: Seq<u8>)
    requires
        forall|j: int| 0 <= j < s.len() ==> s[j] >= 128,
    ensures
        spec_peek(s) is None,
        spec_strip(s) == Seq::<u8>::empty(),
{
    lemma_varint_decode_incomplete(s);
}

} // verus!
