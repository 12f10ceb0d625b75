//! The unsigned varint wire encoding: little-endian group order, seven data
//! bits per byte, high bit set on every byte that another byte follows.
//!
//! Decoding is self-terminating: the first byte with a clear high bit ends
//! the varint, so the payload offset of a framed buffer is unambiguous and
//! never depends on the payload length.

use vstd::arithmetic::div_mod::lemma_fundamental_div_mod;
use vstd::arithmetic::div_mod::lemma_fundamental_div_mod_converse;
use vstd::prelude::*;

verus! {

/// The unsigned varint encoding of `n`: the least significant seven-bit
/// group comes first, and every byte but the last carries the high bit.
pub open spec fn varint_encode(n: nat) -> Seq<u8>
    decreases n,
{
    if n < 128 {
        seq![n as u8]
    } else {
        seq![(n % 128 + 128) as u8] + varint_encode(n / 128)
    }
}

/// Decoding a leading unsigned varint from `s`: `Some((value, len))` when
/// `s` starts with a complete varint occupying `len` bytes, `None` when `s`
/// ends before a terminating byte (one with the high bit clear).
pub open spec fn varint_decode(s: Seq<u8>) -> Option<(nat, nat)>
    decreases s.len(),
{
    if s.len() == 0 {
        None
    } else if s[0] < 128 {
        Some((s[0] as nat, 1nat))
    } else {
        match varint_decode(s.skip(1)) {
            Some((v, k)) => Some((((s[0] - 128) + 128 * v) as nat, k + 1)),
            None => None,
        }
    }
}

/// A complete leading varint occupies at least one byte and no more than the
/// whole buffer.
pub proof fn lemma_varint_decode_bounds(s: Seq<u8>)
    ensures
        varint_decode(s) is Some ==> 1 <= varint_decode(s).unwrap().1 <= s.len(),
    decreases s.len(),
{
    if s.len() > 0 && s[0] >= 128 {
        lemma_varint_decode_bounds(s.skip(1));
    }
}

/// Decoding inverts encoding: a buffer that starts with the encoding of `n`
/// decodes to `n`, consuming exactly the encoded bytes, whatever follows.
pub proof fn lemma_varint_round_trip(n: nat, rest: Seq<u8>)
    ensures
        varint_decode(varint_encode(n) + rest) == Some((n, varint_encode(n).len())),
    decreases n,
{
    let s = varint_encode(n) + rest;
    if n < 128 {
        assert(s[0] == n as u8);
    } else {
        let head = (n % 128 + 128) as u8;
        assert(s[0] == head);
        lemma_varint_round_trip(n / 128, rest);
        assert(s.skip(1) =~= varint_encode(n / 128) + rest);
        lemma_fundamental_div_mod(n as int, 128);
        assert((head - 128) + 128 * (n / 128) == n);
    }
}

/// A buffer whose every byte carries the continuation bit ends mid-varint:
/// nothing decodes from it.
pub proof fn lemma_varint_decode_incomplete(s: Seq<u8>)
    requires
        forall|j: int| 0 <= j < s.len() ==> s[j] >= 128,
    ensures
        varint_decode(s) is None,
    decreases s.len(),
{
    if s.len() > 0 {
        assert(forall|j: int| 0 <= j < s.skip(1).len() ==> s.skip(1)[j] >= 128);
        lemma_varint_decode_incomplete(s.skip(1));
    }
}

/// The first byte with a clear high bit terminates the varint: when it
/// stands at index `i`, the varint occupies exactly the first `i + 1` bytes.
pub proof fn lemma_varint_decode_terminator(s: Seq<u8>, i: int)
    requires
        0 <= i < s.len(),
        forall|j: int| 0 <= j < i ==> s[j] >= 128,
        s[i] < 128,
    ensures
        varint_decode(s) is Some,
        varint_decode(s).unwrap().1 == i + 1,
    decreases i,
{
    if i > 0 {
        assert(forall|j: int| 0 <= j < i - 1 ==> s.skip(1)[j] >= 128);
        assert(s.skip(1)[i - 1] < 128);
        lemma_varint_decode_terminator(s.skip(1), i - 1);
    }
}

/// Minimality of the encoding: no buffer decodes to `v` in fewer bytes than
/// `varint_encode(v)` uses; in particular a value below 128 encodes to a
/// single byte.
pub proof fn lemma_varint_minimality(s: Seq<u8>, v: nat, k: nat)
    requires
        varint_decode(s) == Some((v, k)),
    ensures
        varint_encode(v).len() <= k,
        v < 128 ==> varint_encode(v).len() == 1,
    decreases s.len(),
{
    if s[0] >= 128 {
        let v2: nat = varint_decode(s.skip(1)).unwrap().0;
        let k2: nat = varint_decode(s.skip(1)).unwrap().1;
        lemma_varint_minimality(s.skip(1), v2, k2);
        if v >= 128 {
            lemma_fundamental_div_mod_converse(v as int, 128, v2 as int, s[0] - 128);
            assert(v / 128 == v2);
        }
    }
}

/// Encodes `value` as an unsigned varint.
pub fn encode_varint(value: u64) -> (r: Vec<u8>)
    ensures
        r@ == varint_encode(value as nat),
{
    let mut out: Vec<u8> = Vec::new();
    let mut n: u64 = value;
    proof {
        assert(out@ + varint_encode(n as nat) =~= varint_encode(value as nat));
    }
    while n >= 128
        invariant
            varint_encode(value as nat) == out@ + varint_encode(n as nat),
        decreases n,
    {
        let ghost prev: Seq<u8> = out@;
        let ghost n_prev: nat = n as nat;
        let byte: u8 = (n % 128 + 128) as u8;
        out.push(byte);
        n = n / 128;
        proof {
            assert(varint_encode(n_prev) == seq![byte] + varint_encode(n as nat));
            assert(out@ + varint_encode(n as nat) =~= prev + varint_encode(n_prev));
        }
    }
    let ghost prev: Seq<u8> = out@;
    out.push(n as u8);
    proof {
        assert(varint_encode(n as nat) =~= seq![n as u8]);
        assert(out@ =~= prev + varint_encode(n as nat));
    }
    out
}

/// Decodes the unsigned varint at the front of `data`, returning the value
/// and the number of bytes it occupies.  `None` when no complete varint is
/// there, and also when the decoded value does not fit in a `u64`.
pub fn decode_varint(data: &[u8]) -> (r: Option<(u64, usize)>)
    ensures
        (match varint_decode(data@) {
            Some((v, k)) => if v <= u64::MAX {
                r == Some((v as u64, k as usize))
            } else {
                r is None
            },
            None => r is None,
        }),
{
    proof {
        assert(data@.skip(0) =~= data@);
    }
    decode_varint_from(data, 0)
}

/// Decodes the unsigned varint that starts at index `i` of `data`, counting
/// its length from `i`.
fn decode_varint_from(data: &[u8], i: usize) -> (r: Option<(u64, usize)>)
    requires
        i <= data@.len(),
    ensures
        (match varint_decode(data@.skip(i as int)) {
            Some((v, k)) => if v <= u64::MAX {
                r == Some((v as u64, k as usize))
            } else {
                r is None
            },
            None => r is None,
        }),
    decreases data@.len() - i,
{
    if i == data.len() {
        return None;
    }
    let b: u8 = data[i];
    proof {
        assert(data@.skip(i as int)[0] == data@[i as int]);
    }
    if b < 128 {
        Some((b as u64, 1))
    } else {
        proof {
            assert(data@.skip(i as int).skip(1) =~= data@.skip(i as int + 1));
        }
        match decode_varint_from(data, i + 1) {
            None => None,
            Some((v2, k2)) => {
                proof {
                    lemma_varint_decode_bounds(data@.skip(i as int + 1));
                }
                let low: u64 = (b - 128) as u64;
                match v2.checked_mul(128) {
                    None => None,
                    Some(m) => match m.checked_add(low) {
                        None => None,
                        Some(value) => Some((value, k2 + 1)),
                    },
                }
            },
        }
    }
}

} // verus!
