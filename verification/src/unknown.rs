//! Unknown fields: wire data kept verbatim for field numbers the
//! descriptor does not know, so re-encoding is lossless.

use vstd::prelude::*;
use crate::output::OutputStream;
use crate::wire::{enc_fixed32, enc_fixed64, enc_tag, enc_varint, lemma_tag_len, tag_size,
    varint_size64, WireType, FIELD_NUMBER_MAX};

verus! {

/// One raw value read for an unrecognized field, kept by wire shape.
pub enum UnknownValue {
    Varint(u64),
    Fixed32(u32),
    Fixed64(u64),
    LengthDelimited(Vec<u8>),
}

impl UnknownValue {
    /// Wire type under which this value travels.
    pub open spec fn wire_type(self) -> WireType {
        match self {
            UnknownValue::Varint(_) => WireType::Varint,
            UnknownValue::Fixed32(_) => WireType::Fixed32,
            UnknownValue::Fixed64(_) => WireType::Fixed64,
            UnknownValue::LengthDelimited(_) => WireType::LengthDelimited,
        }
    }

    /// Payload bytes of this value, without its tag; a
    /// length-delimited payload carries its length prefix.
    pub open spec fn enc(self) -> Seq<u8> {
        match self {
            UnknownValue::Varint(v) => enc_varint(v as nat),
            UnknownValue::Fixed32(x) => enc_fixed32(x),
            UnknownValue::Fixed64(x) => enc_fixed64(x),
            UnknownValue::LengthDelimited(b) => enc_varint(b@.len()) + b@,
        }
    }
}

/// Tag plus payload of one unknown field.
pub open spec fn enc_unknown_field(number: u32, v: UnknownValue) -> Seq<u8> {
    enc_tag(number, v.wire_type()) + v.enc()
}

/// Encoding of a run of unknown fields, in the order they arrived.
pub open spec fn enc_unknowns(s: Seq<(u32, UnknownValue)>) -> Seq<u8>
    decreases s.len(),
{
    if s.len() == 0 {
        Seq::empty()
    } else {
        enc_unknown_field(s[0].0, s[0].1) + enc_unknowns(s.skip(1))
    }
}

/// The encoding of concatenated runs is the concatenation of their
/// encodings.
pub proof fn lemma_enc_unknowns_concat(a: Seq<(u32, UnknownValue)>, b: Seq<(u32, UnknownValue)>)
    ensures
        enc_unknowns(a + b) == enc_unknowns(a) + enc_unknowns(b),
    decreases a.len(),
{
    if a.len() == 0 {
        assert(a + b =~= b);
        assert(enc_unknowns(a) + enc_unknowns(b) =~= enc_unknowns(b));
    } else {
        assert((a + b).skip(1) =~= a.skip(1) + b);
        lemma_enc_unknowns_concat(a.skip(1), b);
        assert(enc_unknowns(a + b) =~= enc_unknowns(a) + enc_unknowns(b));
    }
}

/// Appending one unknown field appends its encoding.
pub proof fn lemma_enc_unknowns_push(s: Seq<(u32, UnknownValue)>, number: u32, v: UnknownValue)
    ensures
        enc_unknowns(s.push((number, v))) == enc_unknowns(s) + enc_unknown_field(number, v),
{
    assert(s.push((number, v)) =~= s + seq![(number, v)]);
    lemma_enc_unknowns_concat(s, seq![(number, v)]);
    assert(enc_unknowns(seq![(number, v)].skip(1)) == Seq::<u8>::empty());
    assert(enc_unknowns(seq![(number, v)]) =~= enc_unknown_field(number, v));
}

/// The run around position `i` splits into what precedes it, its
/// own field, and what follows.
pub proof fn lemma_enc_unknowns_split(s: Seq<(u32, UnknownValue)>, i: int)
    requires
        0 <= i < s.len(),
    ensures
        enc_unknowns(s) == enc_unknowns(s.take(i)) + enc_unknown_field(s[i].0, s[i].1)
            + enc_unknowns(s.skip(i + 1)),
{
    assert(s =~= s.take(i) + s.skip(i));
    lemma_enc_unknowns_concat(s.take(i), s.skip(i));
    assert(s.skip(i)[0] == s[i]);
    assert(s.skip(i).skip(1) =~= s.skip(i + 1));
    assert(enc_unknowns(s.skip(i)) == enc_unknown_field(s[i].0, s[i].1) + enc_unknowns(
        s.skip(i + 1),
    ));
}

/// Law: an unknown field passes through unchanged. The payload a
/// kept raw value encodes to decodes back to the same raw value, so
/// re-encoding an unknown field reproduces its field number, wire
/// type and contents on the wire.
pub proof fn lemma_unknown_value_round_trip(u: UnknownValue, rest: Seq<u8>)
    requires
        u matches UnknownValue::LengthDelimited(b) ==> b@.len() <= u32::MAX,
    ensures
        match u {
            UnknownValue::Varint(v) => crate::wire::parse_varint(u.enc() + rest) == Some(
                (v, u.enc().len() as int),
            ),
            UnknownValue::Fixed32(x) => u.enc().len() == 4
                && vstd::bytes::spec_u32_from_le_bytes((u.enc() + rest).subrange(0, 4)) == x,
            UnknownValue::Fixed64(x) => u.enc().len() == 8
                && vstd::bytes::spec_u64_from_le_bytes((u.enc() + rest).subrange(0, 8)) == x,
            UnknownValue::LengthDelimited(b) => crate::input::parse_len_delimited(
                u.enc() + rest,
            ) matches Some((pb, n)) && pb == b@ && n == u.enc().len(),
        },
{
    match u {
        UnknownValue::Varint(v) => {
            crate::wire::lemma_parse_enc_varint(v, rest);
        },
        UnknownValue::Fixed32(x) => {
            vstd::bytes::lemma_auto_spec_u32_to_from_le_bytes();
            assert((u.enc() + rest).subrange(0, 4) =~= enc_fixed32(x));
        },
        UnknownValue::Fixed64(x) => {
            vstd::bytes::lemma_auto_spec_u64_to_from_le_bytes();
            assert((u.enc() + rest).subrange(0, 8) =~= enc_fixed64(x));
        },
        UnknownValue::LengthDelimited(b) => {
            crate::wire::lemma_parse_enc_varint(b@.len() as u64, b@ + rest);
            assert(u.enc() + rest =~= enc_varint(b@.len()) + (b@ + rest));
            let n0 = enc_varint(b@.len()).len() as int;
            assert((u.enc() + rest).subrange(n0, n0 + b@.len() as int) =~= b@);
            assert(crate::input::parse_len_delimited(u.enc() + rest) == Some(
                (b@, n0 + b@.len() as int),
            ));
        },
    }
}

/// All unknown fields of one message, in arrival order.
pub struct UnknownFields {
    pub entries: Vec<(u32, UnknownValue)>,
}

impl UnknownFields {
    /// Every kept field number is one the wire format can frame.
    pub open spec fn wf(self) -> bool {
        forall|i: int|
            0 <= i < self.entries@.len() ==> 1 <= (#[trigger] self.entries@[i]).0
                <= FIELD_NUMBER_MAX
    }

    /// Encoding of the whole block.
    pub open spec fn enc(self) -> Seq<u8> {
        enc_unknowns(self.entries@)
    }

    /// Fresh, empty collection.
    pub fn new() -> (r: UnknownFields)
        ensures
            r.entries@ == Seq::<(u32, UnknownValue)>::empty(),
            r.wf(),
    {
        UnknownFields { entries: Vec::new() }
    }

    /// Number of values kept.
    pub fn len(&self) -> (n: usize)
        ensures
            n == self.entries@.len(),
    {
        self.entries.len()
    }

    /// Keeps one more raw value under `number`, after all earlier
    /// ones.
    pub fn add_value(&mut self, number: u32, v: UnknownValue)
        requires
            old(self).wf(),
            1 <= number <= FIELD_NUMBER_MAX,
        ensures
            final(self).entries@ == old(self).entries@.push((number, v)),
            final(self).wf(),
    {
        self.entries.push((number, v));
    }

    /// Wire size of the whole block: each kept field's tag plus
    /// payload.
    pub fn compute_size(&self) -> (r: u32)
        requires
            self.wf(),
            self.enc().len() <= u32::MAX,
        ensures
            r == self.enc().len(),
    {
        let n = self.entries.len();
        let mut sum: u32 = 0;
        let mut i: usize = 0;
        while i < n
            invariant
                n == self.entries@.len(),
                0 <= i <= n,
                self.wf(),
                self.enc().len() <= u32::MAX,
                sum == enc_unknowns(self.entries@.take(i as int)).len(),
            decreases n - i,
        {
            proof {
                lemma_enc_unknowns_split(self.entries@, i as int);
                lemma_tag_len(
                    self.entries@[i as int].0,
                    self.entries@[i as int].1.wire_type(),
                );
                lemma_enc_unknowns_push(
                    self.entries@.take(i as int),
                    self.entries@[i as int].0,
                    self.entries@[i as int].1,
                );
                assert(self.entries@.take(i + 1) =~= self.entries@.take(i as int).push(
                    self.entries@[i as int],
                ));
            }
            let (number, v) = &self.entries[i];
            let payload: u32 = match v {
                UnknownValue::Varint(x) => varint_size64(*x),
                UnknownValue::Fixed32(_) => {
                    proof {
                        vstd::bytes::lemma_auto_spec_u32_to_from_le_bytes();
                    }
                    4
                },
                UnknownValue::Fixed64(_) => {
                    proof {
                        vstd::bytes::lemma_auto_spec_u64_to_from_le_bytes();
                    }
                    8
                },
                UnknownValue::LengthDelimited(b) => varint_size64(b.len() as u64) + (b.len()
                    as u32),
            };
            sum = sum + (tag_size(*number) + payload);
            i = i + 1;
        }
        proof {
            assert(self.entries@.take(n as int) =~= self.entries@);
        }
        sum
    }

    /// Emits every kept field, tags and payloads, in arrival order.
    pub fn write_to(&self, os: &mut OutputStream)
        requires
            self.wf(),
        ensures
            final(os).buf@ == old(os).buf@ + self.enc(),
    {
        let ghost start = os.buf@;
        let n = self.entries.len();
        let mut i: usize = 0;
        while i < n
            invariant
                n == self.entries@.len(),
                0 <= i <= n,
                self.wf(),
                os.buf@ == start + enc_unknowns(self.entries@.take(i as int)),
            decreases n - i,
        {
            let ghost before = self.entries@.take(i as int);
            let (number, v) = &self.entries[i];
            assert(1 <= self.entries@[i as int].0 <= FIELD_NUMBER_MAX);
            os.write_tag(*number, wire_type_of(v));
            write_unknown_payload(os, v);
            proof {
                lemma_enc_unknowns_push(before, *number, self.entries@[i as int].1);
                assert(self.entries@.take(i + 1) =~= before.push(self.entries@[i as int]));
            }
            i = i + 1;
        }
        proof {
            assert(self.entries@.take(n as int) =~= self.entries@);
        }
    }
}

/// Wire type of a raw value, read without consuming it.
pub fn wire_type_of(v: &UnknownValue) -> (w: WireType)
    ensures
        w == v.wire_type(),
{
    match v {
        UnknownValue::Varint(_) => WireType::Varint,
        UnknownValue::Fixed32(_) => WireType::Fixed32,
        UnknownValue::Fixed64(_) => WireType::Fixed64,
        UnknownValue::LengthDelimited(_) => WireType::LengthDelimited,
    }
}

/// Emits the payload of one raw value, without its tag.
pub fn write_unknown_payload(os: &mut OutputStream, v: &UnknownValue)
    ensures
        final(os).buf@ == old(os).buf@ + v.enc(),
{
    match v {
        UnknownValue::Varint(x) => os.write_raw_varint64(*x),
        UnknownValue::Fixed32(x) => os.write_fixed32(*x),
        UnknownValue::Fixed64(x) => os.write_fixed64(*x),
        UnknownValue::LengthDelimited(b) => {
            os.write_raw_varint64(b.len() as u64);
            os.write_raw_bytes(b.as_slice());
            assert(os.buf@ =~= old(os).buf@ + v.enc());
        },
    }
}

} // verus!
