//! Protobuf wire-format primitives: base-128 varints, the two
//! fixed-width little-endian encodings, and tag framing.

use vstd::prelude::*;
use vstd::arithmetic::div_mod::lemma_fundamental_div_mod;

verus! {

/// Wire type of a single encoded field, as carried in the low three
/// bits of every tag. Group wire types are not supported.
#[derive(Clone, Copy, Debug, PartialEq, Eq, Structural)]
pub enum WireType {
    Varint,
    Fixed64,
    LengthDelimited,
    Fixed32,
}

/// Numeric code of a wire type on the wire.
pub open spec fn wire_type_num(w: WireType) -> u64 {
    match w {
        WireType::Varint => 0,
        WireType::Fixed64 => 1,
        WireType::LengthDelimited => 2,
        WireType::Fixed32 => 5,
    }
}

/// Numeric code of a wire type, as the tag carries it.
pub fn wire_type_to_num(w: WireType) -> (n: u64)
    ensures
        n == wire_type_num(w),
{
    match w {
        WireType::Varint => 0,
        WireType::Fixed64 => 1,
        WireType::LengthDelimited => 2,
        WireType::Fixed32 => 5,
    }
}

/// Wire type denoted by a numeric code, if any; codes 3 and 4 (the
/// deprecated group markers) and codes above 5 are not accepted.
pub open spec fn spec_wire_type_from_num(n: u64) -> Option<WireType> {
    if n == 0 {
        Some(WireType::Varint)
    } else if n == 1 {
        Some(WireType::Fixed64)
    } else if n == 2 {
        Some(WireType::LengthDelimited)
    } else if n == 5 {
        Some(WireType::Fixed32)
    } else {
        None
    }
}

/// Wire type denoted by a numeric code, as the decoder accepts it.
pub fn wire_type_from_num(n: u64) -> (r: Option<WireType>)
    ensures
        r == spec_wire_type_from_num(n),
{
    if n == 0 {
        Some(WireType::Varint)
    } else if n == 1 {
        Some(WireType::Fixed64)
    } else if n == 2 {
        Some(WireType::LengthDelimited)
    } else if n == 5 {
        Some(WireType::Fixed32)
    } else {
        None
    }
}

/// Largest field number the wire format admits: tags reserve 29 bits.
pub const FIELD_NUMBER_MAX: u32 = 0x1FFF_FFFF;

/// Base-128 encoding of `x`, least significant group first, the high
/// bit of each byte marking a continuation.
pub open spec fn enc_varint(x: nat) -> Seq<u8>
    decreases x,
{
    if x < 128 {
        seq![x as u8]
    } else {
        seq![(x % 128 + 128) as u8] + enc_varint(x / 128)
    }
}

/// Result of parsing a prefix of a byte sequence: the value read and
/// how many bytes it occupied.
pub open spec fn parse_varint_rec(s: Seq<u8>, fuel: nat) -> Option<(nat, int)>
    decreases fuel,
{
    if fuel == 0 || s.len() == 0 {
        None
    } else if s[0] < 128 {
        Some((s[0] as nat, 1))
    } else {
        match parse_varint_rec(s.skip(1), (fuel - 1) as nat) {
            None => None,
            Some((v, n)) => Some(((s[0] - 128) as nat + 128 * v, n + 1)),
        }
    }
}

/// Varint at the head of `s`: at most ten bytes, value within `u64`.
/// `None` on an empty or truncated head, an overlong varint, or a
/// value beyond 64 bits.
pub open spec fn parse_varint(s: Seq<u8>) -> Option<(u64, int)> {
    match parse_varint_rec(s, 10) {
        None => None,
        Some((v, n)) => if v <= u64::MAX {
            Some((v as u64, n))
        } else {
            None
        },
    }
}

/// 128 raised to `k`.
pub open spec fn pow128(k: nat) -> nat
    decreases k,
{
    if k == 0 {
        1
    } else {
        128 * pow128((k - 1) as nat)
    }
}

proof fn lemma_enc_varint_len_bounded(x: nat, k: nat)
    requires
        k >= 1,
        x < pow128(k),
    ensures
        enc_varint(x).len() <= k,
    decreases x,
{
    if x >= 128 {
        assert(pow128(k) == 128 * pow128((k - 1) as nat));
        assert(x / 128 < pow128((k - 1) as nat)) by {
            lemma_fundamental_div_mod(x as int, 128);
        }
        lemma_enc_varint_len_bounded(x / 128, (k - 1) as nat);
    }
}

/// A varint is one to ten bytes long for any value a `u64` can hold.
pub proof fn lemma_enc_varint_len(x: nat)
    ensures
        1 <= enc_varint(x).len(),
        x <= u64::MAX ==> enc_varint(x).len() <= 10,
{
    if x <= u64::MAX {
        assert(pow128(10) > u64::MAX) by {
            reveal_with_fuel(pow128, 11);
        }
        lemma_enc_varint_len_bounded(x, 10);
    }
}

proof fn lemma_parse_enc_varint_rec(x: nat, rest: Seq<u8>, fuel: nat)
    requires
        fuel >= enc_varint(x).len(),
    ensures
        parse_varint_rec(enc_varint(x) + rest, fuel) == Some((x, enc_varint(x).len() as int)),
    decreases x,
{
    let s = enc_varint(x) + rest;
    if x < 128 {
        assert(s[0] == x as u8);
    } else {
        let b: u8 = (x % 128 + 128) as u8;
        assert(s[0] == b);
        assert(s.skip(1) =~= enc_varint(x / 128) + rest);
        lemma_enc_varint_len(x / 128);
        lemma_parse_enc_varint_rec(x / 128, rest, (fuel - 1) as nat);
        assert((b - 128) as nat + 128 * (x / 128) == x) by {
            lemma_fundamental_div_mod(x as int, 128);
        }
    }
}

/// Decoding inverts encoding: a varint written for `x` parses back to
/// `x` and consumes exactly its own bytes, whatever follows it.
pub proof fn lemma_parse_enc_varint(x: u64, rest: Seq<u8>)
    ensures
        parse_varint(enc_varint(x as nat) + rest) == Some((x, enc_varint(x as nat).len() as int)),
{
    lemma_enc_varint_len(x as nat);
    lemma_parse_enc_varint_rec(x as nat, rest, 10);
}

/// A successful parse consumes between one byte and the whole input,
/// and no more than `fuel` bytes.
pub proof fn lemma_parse_varint_rec_bounds(s: Seq<u8>, fuel: nat)
    ensures
        match parse_varint_rec(s, fuel) {
            Some((v, n)) => 1 <= n <= s.len() && n <= fuel,
            None => true,
        },
    decreases fuel,
{
    if fuel > 0 && s.len() > 0 && s[0] >= 128 {
        lemma_parse_varint_rec_bounds(s.skip(1), (fuel - 1) as nat);
    }
}

/// Little-endian four-byte encoding.
pub open spec fn enc_fixed32(x: u32) -> Seq<u8> {
    vstd::bytes::spec_u32_to_le_bytes(x)
}

/// Little-endian eight-byte encoding.
pub open spec fn enc_fixed64(x: u64) -> Seq<u8> {
    vstd::bytes::spec_u64_to_le_bytes(x)
}

/// Tag framing a field on the wire: the field number shifted over the
/// three wire-type bits, as one varint.
pub open spec fn enc_tag(field_number: u32, w: WireType) -> Seq<u8> {
    enc_varint((field_number * 8 + wire_type_num(w)) as nat)
}

/// Number of bytes the tag of `field_number` occupies; every wire
/// type gives the same length.
pub open spec fn tag_len(field_number: u32) -> nat {
    enc_varint((field_number * 8) as nat).len()
}

proof fn lemma_enc_varint_same_len(a: nat, b: nat)
    requires
        a / 128 == b / 128,
        a < 128 <==> b < 128,
    ensures
        enc_varint(a).len() == enc_varint(b).len(),
    decreases a,
{
    if a >= 128 {
        lemma_enc_varint_same_len(a / 128, a / 128);
    }
}

/// A tag's length does not depend on its wire type.
pub proof fn lemma_tag_len(field_number: u32, w: WireType)
    ensures
        enc_tag(field_number, w).len() == tag_len(field_number),
{
    let a = (field_number * 8 + wire_type_num(w)) as nat;
    let b = (field_number * 8) as nat;
    let q = b / 128;
    let r = b % 128;
    lemma_fundamental_div_mod(b as int, 128);
    assert(r % 8 == 0 && r <= 120) by (nonlinear_arith)
        requires
            b % 8 == 0,
            b == 128 * (b / 128) + b % 128,
            0 <= b % 128 < 128,
            r == b % 128,
    ;
    assert(a == q * 128 + (r + wire_type_num(w)) && 0 <= r + wire_type_num(w) < 128);
    vstd::arithmetic::div_mod::lemma_fundamental_div_mod_converse(
        a as int,
        128,
        q as int,
        (r + wire_type_num(w)) as int,
    );
    lemma_enc_varint_same_len(a, b);
}

/// Number of bytes the varint encoding of `x` occupies.
pub fn varint_size64(x: u64) -> (n: u32)
    ensures
        n == enc_varint(x as nat).len(),
        1 <= n <= 10,
    decreases x,
{
    proof {
        lemma_enc_varint_len(x as nat);
    }
    if x < 128 {
        1
    } else {
        1 + varint_size64(x / 128)
    }
}

/// Number of bytes the tag of `field_number` occupies.
pub fn tag_size(field_number: u32) -> (n: u32)
    ensures
        n == tag_len(field_number),
        1 <= n <= 10,
{
    varint_size64((field_number as u64) * 8)
}

} // verus!
