//! The codec registry: a fixed bidirectional mapping between the closed set
//! of codec identities and their canonical numeric codes.

use vstd::prelude::*;

verus! {

/// A member of the closed set of supported serialization formats.
#[derive(Clone, Copy, Debug, PartialEq, Eq, Structural)]
pub enum CodecType {
    JSON,
}

/// The canonical numeric code registered for a codec identity.  Total: every
/// identity of the closed enumeration has exactly one code.
pub open spec fn spec_code_of(c: CodecType) -> nat {
    match c {
        CodecType::JSON => 0xf01,
    }
}

/// The codec identity registered under a numeric code; `None` marks a code
/// that no registered codec owns.
pub open spec fn spec_identity_of(code: nat) -> Option<CodecType> {
    if code == 0xf01 {
        Some(CodecType::JSON)
    } else {
        None
    }
}

impl CodecType {
    /// The numeric code of this codec identity.  Cannot fail: the
    /// enumeration is closed, so the lookup is total.
    pub fn hex(&self) -> (code: u64)
        ensures
            code == spec_code_of(*self),
    {
        match *self {
            CodecType::JSON => 0xf01,
        }
    }

    /// Looks a numeric code up in the registry.  An unregistered code is a
    /// valid, expected outcome reported as `None`, never a failure.
    pub fn by_hex(hex: u64) -> (r: Option<CodecType>)
        ensures
            r == spec_identity_of(hex as nat),
    {
        match hex {
            0xf01 => Some(CodecType::JSON),
            _ => None,
        }
    }
}

/// The registry is a bijection, left to right: looking up the code of any
/// identity finds that identity again.
pub proof fn lemma_registry_left_inverse(c: CodecType)
    ensures
        spec_identity_of(spec_code_of(c)) == Some(c),
{
}

/// The registry is a bijection, right to left: a successful lookup pins the
/// code, so no two identities share one.
pub proof fn lemma_registry_right_inverse(code: nat, c: CodecType)
    requires
        spec_identity_of(code) == Some(c),
    ensures
        spec_code_of(c) == code,
{
}

} // verus!
