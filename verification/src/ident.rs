//! The identifier generator.
//!
//! An identifier is a fixed-length, lexically sortable string of 26
//! characters from the Crockford base32 alphabet: 48 bits of timestamp
//! followed by 80 bits of caller-supplied entropy, most significant bits
//! first.  The two characters at offsets 6 and 7 are then overwritten
//! with the first two bytes of the owning noun's name, case-folded: the
//! identifier carries a weak tag of its noun type, at a small, accepted
//! cost in randomness at those two positions.

use vstd::prelude::*;
use vstd::string::*;
use crate::text::lower_byte;

verus! {

/// The Crockford base32 digit for a value below 32: `0-9` then the
/// upper-case consonant alphabet that skips `I`, `L`, `O` and `U`.
pub open spec fn crockford(v: u8) -> u8 {
    if v < 10 {
        (48 + v) as u8
    } else if v < 18 {
        (55 + v) as u8
    } else if v < 20 {
        (56 + v) as u8
    } else if v < 22 {
        (57 + v) as u8
    } else if v < 27 {
        (58 + v) as u8
    } else {
        (59 + v) as u8
    }
}

/// The 128-bit value an identifier encodes: the low 48 bits of the
/// timestamp, then the ten entropy bytes, most significant first.
pub open spec fn ulid_value(time: u64, e: Seq<u8>) -> u128 {
    (((time as u128) & 0xFFFF_FFFF_FFFF) << 80) | ((e[0] as u128) << 72) | ((e[1] as u128) << 64)
        | ((e[2] as u128) << 56) | ((e[3] as u128) << 48) | ((e[4] as u128) << 40) | ((e[5] as u128)
        << 32) | ((e[6] as u128) << 24) | ((e[7] as u128) << 16) | ((e[8] as u128) << 8) | (
    e[9] as u128)
}

/// Digit `i` of the base32 rendering: five bits at a time, most
/// significant first.
pub open spec fn ulid_byte_at(n: u128, i: int) -> u8 {
    crockford((((n >> (((125 - 5 * i)) as u128)) & 31) as u8))
}

/// The 26 identifier bytes before the noun tag is stamped in.
pub open spec fn ulid_bytes(time: u64, e: Seq<u8>) -> Seq<u8> {
    Seq::new(26, |i: int| ulid_byte_at(ulid_value(time, e), i))
}

/// The tag byte a noun character stamps into the identifier: the
/// character's byte, case-folded.
pub open spec fn tag_byte(c: char) -> u8 {
    lower_byte(c as u8)
}

/// The Crockford base32 digit for `v`.
fn crockford_byte(v: u8) -> (r: u8)
    requires
        v < 32,
    ensures
        r == crockford(v),
{
    if v < 10 {
        48 + v
    } else if v < 18 {
        55 + v
    } else if v < 20 {
        56 + v
    } else if v < 22 {
        57 + v
    } else if v < 27 {
        58 + v
    } else {
        59 + v
    }
}

/// Relies on `String::from_utf8`: a sequence of bytes below 128 is valid
/// UTF-8 and decodes to the string of exactly those characters, in order.
#[verifier::external_body]
fn ascii_string(bytes: Vec<u8>) -> (r: String)
    requires
        forall|i: int| 0 <= i < bytes@.len() ==> bytes@[i] < 128,
    ensures
        r@.len() == bytes@.len(),
        forall|i: int| 0 <= i < bytes@.len() ==> r@[i] == bytes@[i] as char,
{
    match String::from_utf8(bytes) {
        Ok(s) => s,
        Err(_) => String::new(),
    }
}

/// Mint an identifier for a record of the named noun type.
///
/// The result always has exactly 26 characters: the base32 rendering of
/// the timestamp and entropy, except that the characters at offsets 6 and
/// 7 are the first two bytes of the noun's name, case-folded.  The
/// timestamp occupies the most significant bits, so identifiers minted at
/// strictly later milliseconds almost always sort after earlier ones;
/// two noun types whose names share a two-byte prefix lose the same two
/// positions of randomness, an accepted trade-off.
pub fn new_id(noun: &str, time_ms: u64, entropy: &Vec<u8>) -> (r: String)
    requires
        noun.is_ascii(),
        noun@.len() >= 2,
        entropy@.len() == 10,
    ensures
        r@.len() == 26,
        forall|j: int|
            0 <= j < 26 && j != 6 && j != 7 ==> r@[j] == ulid_bytes(time_ms, entropy@)[j] as char,
        r@[6] == tag_byte(noun@[0]) as char,
        r@[7] == tag_byte(noun@[1]) as char,
{
    let n: u128 = (((time_ms as u128) & 0xFFFF_FFFF_FFFF) << 80) | ((entropy[0] as u128) << 72) | (
    (entropy[1] as u128) << 64) | ((entropy[2] as u128) << 56) | ((entropy[3] as u128) << 48) | ((
    entropy[4] as u128) << 40) | ((entropy[5] as u128) << 32) | ((entropy[6] as u128) << 24) | ((
    entropy[7] as u128) << 16) | ((entropy[8] as u128) << 8) | (entropy[9] as u128);
    proof {
        assert(n == ulid_value(time_ms, entropy@));
    }
    let mut out: Vec<u8> = Vec::new();
    let mut i: usize = 0;
    while i < 26
        invariant
            i <= 26,
            out@.len() == i,
            forall|j: int| 0 <= j < i ==> out@[j] == ulid_byte_at(n, j),
            forall|j: int| 0 <= j < i ==> out@[j] < 128,
        decreases 26 - i,
    {
        let shift: u128 = (125 - 5 * i) as u128;
        let masked: u128 = (n >> shift) & 31;
        proof {
            assert(masked < 32) by (bit_vector)
                requires
                    masked == (n >> shift) & 31,
            ;
        }
        let v: u8 = masked as u8;
        let c = crockford_byte(v);
        out.push(c);
        i += 1;
    }
    let t0 = first_tag(noun, 0);
    let t1 = first_tag(noun, 1);
    out[6] = t0;
    out[7] = t1;
    let r = ascii_string(out);
    r
}

/// The tag byte for character `i` of the noun's name.
fn first_tag(noun: &str, i: usize) -> (r: u8)
    requires
        noun.is_ascii(),
        i < noun@.len(),
    ensures
        r == tag_byte(noun@[i as int]),
        r < 128,
{
    let b = noun.get_ascii(i);
    proof {
        assert('\u{0}' <= noun@[i as int] <= '\u{7f}');
    }
    if 65 <= b && b <= 90 {
        b + 32
    } else {
        b
    }
}

} // verus!
