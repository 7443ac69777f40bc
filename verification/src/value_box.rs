//! Owned runtime-typed values: one tagged box holding any protobuf
//! scalar, enum ordinal, bytes, string, or nested dynamic message,
//! with its wire size, encoding, and borrowed views.

use vstd::prelude::*;
use vstd::string::StrSliceExecFns;
use vstd::utf8::{encode_utf8, valid_utf8};
use crate::descriptor::{share_descriptor, EnumDescriptor, RuntimeType};
use crate::dynamic::DynamicMessage;
use crate::input::{InputStream, WireError};
use crate::output::OutputStream;
use crate::wire::{enc_fixed32, enc_fixed64, enc_tag, enc_varint, lemma_tag_len, parse_varint,
    tag_size, varint_size64, WireType, FIELD_NUMBER_MAX};

verus! {

/// Owner of one value of any elementary type. Floating-point values
/// are carried as their bit patterns, so equality is protobuf's
/// "equal bits" notion.
pub enum ReflectValueBox {
    U32(u32),
    U64(u64),
    I32(i32),
    I64(i64),
    F32(u32),
    F64(u64),
    Bool(bool),
    String(String),
    Bytes(Vec<u8>),
    Enum(EnumDescriptor, i32),
    Message(Box<DynamicMessage>),
}

/// Borrowed view of one value; strings, bytes and nested messages
/// are not copied.
pub enum ReflectValueRef<'a> {
    U32(u32),
    U64(u64),
    I32(i32),
    I64(i64),
    F32(u32),
    F64(u64),
    Bool(bool),
    String(&'a str),
    Bytes(&'a [u8]),
    Enum(EnumDescriptor, i32),
    Message(&'a DynamicMessage),
}

impl ReflectValueBox {
    /// The runtime type this value carries.
    pub open spec fn value_type(self) -> RuntimeType {
        match self {
            ReflectValueBox::U32(_) => RuntimeType::U32,
            ReflectValueBox::U64(_) => RuntimeType::U64,
            ReflectValueBox::I32(_) => RuntimeType::I32,
            ReflectValueBox::I64(_) => RuntimeType::I64,
            ReflectValueBox::F32(_) => RuntimeType::F32,
            ReflectValueBox::F64(_) => RuntimeType::F64,
            ReflectValueBox::Bool(_) => RuntimeType::Bool,
            ReflectValueBox::String(_) => RuntimeType::String,
            ReflectValueBox::Bytes(_) => RuntimeType::Bytes,
            ReflectValueBox::Enum(d, _) => RuntimeType::Enum(d),
            ReflectValueBox::Message(m) => RuntimeType::Message(m.descriptor),
        }
    }

    /// A value is well formed when any message below it is.
    pub open spec fn wf(self) -> bool
        decreases self,
    {
        match self {
            ReflectValueBox::Message(m) => m.wf(),
            _ => true,
        }
    }

    /// Wire type under which this value is framed.
    pub open spec fn wire_type(self) -> WireType {
        match self {
            ReflectValueBox::F32(_) => WireType::Fixed32,
            ReflectValueBox::F64(_) => WireType::Fixed64,
            ReflectValueBox::String(_) => WireType::LengthDelimited,
            ReflectValueBox::Bytes(_) => WireType::LengthDelimited,
            ReflectValueBox::Message(_) => WireType::LengthDelimited,
            _ => WireType::Varint,
        }
    }

    /// Payload encoding, without the field tag. The length-delimited
    /// kinds — strings, bytes, nested messages — carry their own
    /// length prefix, so sizes compose additively for every caller.
    pub open spec fn enc(self) -> Seq<u8>
        decreases self, 0int,
    {
        match self {
            ReflectValueBox::U32(x) => enc_varint(x as nat),
            ReflectValueBox::U64(x) => enc_varint(x as nat),
            ReflectValueBox::I32(x) => enc_varint((x as i64 as u64) as nat),
            ReflectValueBox::I64(x) => enc_varint((x as u64) as nat),
            ReflectValueBox::F32(b) => enc_fixed32(b),
            ReflectValueBox::F64(b) => enc_fixed64(b),
            ReflectValueBox::Bool(b) => enc_varint(if b {
                1
            } else {
                0
            }),
            ReflectValueBox::String(s) => enc_varint(encode_utf8(s@).len()) + encode_utf8(s@),
            ReflectValueBox::Bytes(b) => enc_varint(b@.len()) + b@,
            ReflectValueBox::Enum(_, v) => enc_varint((v as u32) as nat),
            ReflectValueBox::Message(m) => enc_varint(m.enc().len()) + m.enc(),
        }
    }

    /// Tag plus payload of this value under `field_number`.
    pub open spec fn enc_with_tag(self, field_number: u32) -> Seq<u8>
        decreases self, 1int,
    {
        enc_tag(field_number, self.wire_type()) + self.enc()
    }

    /// The borrowed view `r` shows exactly this value.
    pub open spec fn ref_matches(self, r: ReflectValueRef) -> bool {
        match (self, r) {
            (ReflectValueBox::U32(a), ReflectValueRef::U32(b)) => a == b,
            (ReflectValueBox::U64(a), ReflectValueRef::U64(b)) => a == b,
            (ReflectValueBox::I32(a), ReflectValueRef::I32(b)) => a == b,
            (ReflectValueBox::I64(a), ReflectValueRef::I64(b)) => a == b,
            (ReflectValueBox::F32(a), ReflectValueRef::F32(b)) => a == b,
            (ReflectValueBox::F64(a), ReflectValueRef::F64(b)) => a == b,
            (ReflectValueBox::Bool(a), ReflectValueRef::Bool(b)) => a == b,
            (ReflectValueBox::String(a), ReflectValueRef::String(b)) => a@ == b@,
            (ReflectValueBox::Bytes(a), ReflectValueRef::Bytes(b)) => a@ == b@,
            (ReflectValueBox::Enum(d, a), ReflectValueRef::Enum(e, b)) => d == e && a == b,
            (ReflectValueBox::Message(m), ReflectValueRef::Message(r)) => *r == *m,
            _ => false,
        }
    }

    /// Type of this value.
    pub fn get_type(&self) -> (r: RuntimeType)
        ensures
            r == self.value_type(),
    {
        match self {
            ReflectValueBox::U32(_) => RuntimeType::U32,
            ReflectValueBox::U64(_) => RuntimeType::U64,
            ReflectValueBox::I32(_) => RuntimeType::I32,
            ReflectValueBox::I64(_) => RuntimeType::I64,
            ReflectValueBox::F32(_) => RuntimeType::F32,
            ReflectValueBox::F64(_) => RuntimeType::F64,
            ReflectValueBox::Bool(_) => RuntimeType::Bool,
            ReflectValueBox::String(_) => RuntimeType::String,
            ReflectValueBox::Bytes(_) => RuntimeType::Bytes,
            ReflectValueBox::Enum(d, _) => RuntimeType::Enum(*d),
            ReflectValueBox::Message(m) => RuntimeType::Message(share_descriptor(&m.descriptor)),
        }
    }

    /// Borrowed view of this value.
    pub fn as_value_ref(&self) -> (r: ReflectValueRef<'_>)
        ensures
            self.ref_matches(r),
    {
        match self {
            ReflectValueBox::U32(v) => ReflectValueRef::U32(*v),
            ReflectValueBox::U64(v) => ReflectValueRef::U64(*v),
            ReflectValueBox::I32(v) => ReflectValueRef::I32(*v),
            ReflectValueBox::I64(v) => ReflectValueRef::I64(*v),
            ReflectValueBox::F32(v) => ReflectValueRef::F32(*v),
            ReflectValueBox::F64(v) => ReflectValueRef::F64(*v),
            ReflectValueBox::Bool(v) => ReflectValueRef::Bool(*v),
            ReflectValueBox::String(v) => ReflectValueRef::String(v.as_str()),
            ReflectValueBox::Bytes(v) => ReflectValueRef::Bytes(v.as_slice()),
            ReflectValueBox::Enum(d, v) => ReflectValueRef::Enum(*d, *v),
            ReflectValueBox::Message(m) => ReflectValueRef::Message(&**m),
        }
    }

    /// Extracts the underlying plain value; on a type mismatch the
    /// box comes back unchanged.
    pub fn downcast<V: ProtobufValue>(self) -> (r: Result<V, ReflectValueBox>)
        ensures
            match r {
                Ok(x) => self == x.boxed(),
                Err(e) => e == self && forall|x: V| self != x.boxed(),
            },
            forall|x: V| self == x.boxed() ==> r == Ok::<V, ReflectValueBox>(x),
    {
        V::from_value_box(self)
    }

    /// Wire size of the payload, without the field tag; the
    /// length-delimited kinds count their length prefix.
    pub fn compute_size(&self) -> (r: u32)
        requires
            self.wf(),
            self.enc().len() <= u32::MAX,
        ensures
            r == self.enc().len(),
        decreases *self,
    {
        match self {
            ReflectValueBox::U32(x) => varint_size64(*x as u64),
            ReflectValueBox::U64(x) => varint_size64(*x),
            ReflectValueBox::I32(x) => varint_size64(*x as i64 as u64),
            ReflectValueBox::I64(x) => varint_size64(*x as u64),
            ReflectValueBox::F32(_) => {
                proof {
                    vstd::bytes::lemma_auto_spec_u32_to_from_le_bytes();
                }
                4
            },
            ReflectValueBox::F64(_) => {
                proof {
                    vstd::bytes::lemma_auto_spec_u64_to_from_le_bytes();
                }
                8
            },
            ReflectValueBox::Bool(_) => 1,
            ReflectValueBox::String(s) => {
                let n = s.as_str().len();
                varint_size64(n as u64) + n as u32
            },
            ReflectValueBox::Bytes(b) => {
                let n = b.len();
                varint_size64(n as u64) + n as u32
            },
            ReflectValueBox::Enum(_, v) => varint_size64(*v as u32 as u64),
            ReflectValueBox::Message(m) => {
                let body = m.encoded_size();
                varint_size64(body as u64) + body
            },
        }
    }

    /// Emits the tag and then the payload of this value under
    /// `field_number`.
    pub fn write_to_with_cached_sizes(&self, os: &mut OutputStream, field_number: u32)
        requires
            self.wf(),
            1 <= field_number <= FIELD_NUMBER_MAX,
            self.enc().len() <= u32::MAX,
        ensures
            final(os).buf@ == old(os).buf@ + self.enc_with_tag(field_number),
        decreases *self,
    {
        match self {
            ReflectValueBox::U32(x) => {
                os.write_tag(field_number, WireType::Varint);
                os.write_raw_varint64(*x as u64);
            },
            ReflectValueBox::U64(x) => {
                os.write_tag(field_number, WireType::Varint);
                os.write_raw_varint64(*x);
            },
            ReflectValueBox::I32(x) => {
                os.write_tag(field_number, WireType::Varint);
                os.write_raw_varint64(*x as i64 as u64);
            },
            ReflectValueBox::I64(x) => {
                os.write_tag(field_number, WireType::Varint);
                os.write_raw_varint64(*x as u64);
            },
            ReflectValueBox::F32(b) => {
                os.write_tag(field_number, WireType::Fixed32);
                os.write_fixed32(*b);
            },
            ReflectValueBox::F64(b) => {
                os.write_tag(field_number, WireType::Fixed64);
                os.write_fixed64(*b);
            },
            ReflectValueBox::Bool(b) => {
                os.write_tag(field_number, WireType::Varint);
                os.write_raw_varint64(if *b {
                    1
                } else {
                    0
                });
            },
            ReflectValueBox::String(s) => {
                os.write_tag(field_number, WireType::LengthDelimited);
                let bv = s.as_str().as_bytes_vec();
                os.write_raw_varint64(bv.len() as u64);
                os.write_raw_bytes(bv.as_slice());
            },
            ReflectValueBox::Bytes(b) => {
                os.write_tag(field_number, WireType::LengthDelimited);
                os.write_raw_varint64(b.len() as u64);
                os.write_raw_bytes(b.as_slice());
            },
            ReflectValueBox::Enum(_, v) => {
                os.write_tag(field_number, WireType::Varint);
                os.write_raw_varint64(*v as u32 as u64);
            },
            ReflectValueBox::Message(m) => {
                os.write_tag(field_number, WireType::LengthDelimited);
                let body = m.encoded_size();
                os.write_raw_varint64(body as u64);
                m.write_to_with_cached_sizes(os);
            },
        }
        assert(os.buf@ =~= old(os).buf@ + self.enc_with_tag(field_number));
    }
}

/// Borrowed-mutable view of one value. Only the message variant can
/// be viewed mutably: scalars are replaced whole through their slot.
pub enum ReflectValueMut<'a> {
    Message(&'a mut DynamicMessage),
}

impl ReflectValueBox {
    /// Mutable view of the nested message. Any other variant is a
    /// precondition violation.
    pub fn as_mut_message(&mut self) -> (r: &mut DynamicMessage)
        requires
            *old(self) matches ReflectValueBox::Message(_),
        ensures
            *old(self) matches ReflectValueBox::Message(m) && *r == *m,
            *final(self) matches ReflectValueBox::Message(mm) && *mm == *final(r),
    {
        match self {
            ReflectValueBox::Message(m) => &mut **m,
            _ => vstd::pervasive::unreached(),
        }
    }
}

/// The declared default value of type `t`: zero, empty, the first
/// enum value, or a fresh dynamic message of the field's
/// descriptor.
pub fn default_value_box(t: &RuntimeType) -> (r: ReflectValueBox)
    requires
        t.wf(),
    ensures
        r.value_type() == *t,
        r.wf(),
        r.is_default_value(),
{
    match t {
        RuntimeType::U32 => ReflectValueBox::U32(0),
        RuntimeType::I32 => ReflectValueBox::I32(0),
        RuntimeType::U64 => ReflectValueBox::U64(0),
        RuntimeType::I64 => ReflectValueBox::I64(0),
        RuntimeType::F32 => ReflectValueBox::F32(0),
        RuntimeType::F64 => ReflectValueBox::F64(0),
        RuntimeType::Bool => ReflectValueBox::Bool(false),
        RuntimeType::String => ReflectValueBox::String(String::new()),
        RuntimeType::Bytes => ReflectValueBox::Bytes(Vec::new()),
        RuntimeType::Enum(d) => ReflectValueBox::Enum(*d, 0),
        RuntimeType::Message(d) => ReflectValueBox::Message(
            Box::new(DynamicMessage::new(share_descriptor(d))),
        ),
    }
}

/// Decoding the head of `rem` as a value of type `t` yields `v` and
/// consumes `consumed` bytes. For a nested message only the
/// descriptor is pinned here; its own decode contract says the rest.
pub open spec fn parses_as(
    t: RuntimeType,
    rem: Seq<u8>,
    v: ReflectValueBox,
    consumed: int,
) -> bool {
    match t {
        RuntimeType::U32 => parse_varint(rem) matches Some((pv, n)) && v
            == ReflectValueBox::U32(crate::input::u64_low_u32(pv)) && consumed == n,
        RuntimeType::U64 => parse_varint(rem) matches Some((pv, n)) && v
            == ReflectValueBox::U64(pv) && consumed == n,
        RuntimeType::I32 => parse_varint(rem) matches Some((pv, n)) && v
            == ReflectValueBox::I32(crate::input::u64_low_i32(pv)) && consumed == n,
        RuntimeType::I64 => parse_varint(rem) matches Some((pv, n)) && v
            == ReflectValueBox::I64(pv as i64) && consumed == n,
        RuntimeType::F32 => rem.len() >= 4 && v == ReflectValueBox::F32(
            vstd::bytes::spec_u32_from_le_bytes(rem.subrange(0, 4)),
        ) && consumed == 4,
        RuntimeType::F64 => rem.len() >= 8 && v == ReflectValueBox::F64(
            vstd::bytes::spec_u64_from_le_bytes(rem.subrange(0, 8)),
        ) && consumed == 8,
        RuntimeType::Bool => parse_varint(rem) matches Some((pv, n)) && v
            == ReflectValueBox::Bool(pv != 0) && consumed == n,
        RuntimeType::String => crate::input::parse_len_delimited(rem) matches Some((b, n))
            && valid_utf8(b) && (v matches ReflectValueBox::String(s) && encode_utf8(s@) == b)
            && consumed == n,
        RuntimeType::Bytes => crate::input::parse_len_delimited(rem) matches Some((b, n)) && (
        v matches ReflectValueBox::Bytes(b2) && b2@ == b) && consumed == n,
        RuntimeType::Enum(d) => parse_varint(rem) matches Some((pv, n)) && v
            == ReflectValueBox::Enum(d, crate::input::u64_low_i32(pv)) && consumed == n,
        RuntimeType::Message(d) => v matches ReflectValueBox::Message(m) && m.descriptor == d
            && (parse_varint(rem) matches Some((len, n)) && n + len <= rem.len() && consumed
            == n + len),
    }
}

/// No value of type `t` decodes at the head of `rem`. For a nested
/// message any failure inside it counts.
pub open spec fn parse_fails_for(t: RuntimeType, rem: Seq<u8>) -> bool {
    match t {
        RuntimeType::U32 => parse_varint(rem) is None,
        RuntimeType::U64 => parse_varint(rem) is None,
        RuntimeType::I32 => parse_varint(rem) is None,
        RuntimeType::I64 => parse_varint(rem) is None,
        RuntimeType::Bool => parse_varint(rem) is None,
        RuntimeType::Enum(_) => parse_varint(rem) is None,
        RuntimeType::F32 => rem.len() < 4,
        RuntimeType::F64 => rem.len() < 8,
        RuntimeType::String => crate::input::parse_len_delimited(rem) is None || !valid_utf8(
            crate::input::parse_len_delimited(rem)->Some_0.0,
        ),
        RuntimeType::Bytes => crate::input::parse_len_delimited(rem) is None,
        RuntimeType::Message(_) => true,
    }
}

/// Bytes one value of type `t` occupies at the head of `rem`, when
/// its frame parses there.
pub open spec fn value_consumed(t: RuntimeType, rem: Seq<u8>) -> int {
    match t {
        RuntimeType::F32 => 4,
        RuntimeType::F64 => 8,
        RuntimeType::String => crate::input::parse_len_delimited(rem)->Some_0.1,
        RuntimeType::Bytes => crate::input::parse_len_delimited(rem)->Some_0.1,
        RuntimeType::Message(_) => parse_varint(rem)->Some_0.1 + parse_varint(rem)->Some_0.0,
        _ => parse_varint(rem)->Some_0.1,
    }
}

/// One value of type `t` decodes at the head of `rem`: the mirror
/// of `parse_fails_for` that also recurses into a nested message's
/// own fields.
pub open spec fn value_ok(t: RuntimeType, rem: Seq<u8>) -> bool
    decreases rem.len(), 0int,
{
    match t {
        RuntimeType::Message(d) => parse_varint(rem) matches Some((len, n)) && 1 <= n && n
            + len <= rem.len() && crate::dynamic::msg_fields_ok(
            d.fields@,
            rem.subrange(n, n + len),
        ),
        _ => !parse_fails_for(t, rem),
    }
}

impl ReflectValueBox {
    /// The declared default of type `t`: zero, empty, the first enum
    /// value, or a fresh message of the field's descriptor.
    pub open spec fn is_default_value(self) -> bool {
        match self {
            ReflectValueBox::U32(x) => x == 0,
            ReflectValueBox::U64(x) => x == 0,
            ReflectValueBox::I32(x) => x == 0,
            ReflectValueBox::I64(x) => x == 0,
            ReflectValueBox::F32(b) => b == 0,
            ReflectValueBox::F64(b) => b == 0,
            ReflectValueBox::Bool(b) => !b,
            ReflectValueBox::String(s) => s@.len() == 0,
            ReflectValueBox::Bytes(b) => b@.len() == 0,
            ReflectValueBox::Enum(_, v) => v == 0,
            ReflectValueBox::Message(m) => m.fields@.len() == 0
                && m.unknown_fields.entries@.len() == 0,
        }
    }

    /// Decodes one value of this box's own type from the stream, in
    /// place: scalars are overwritten, strings and bytes replaced,
    /// and a nested message merged under its declared length.
    #[verifier::rlimit(50)]
    pub fn merge_from(&mut self, is: &mut InputStream) -> (r: Result<(), WireError>)
        requires
            old(self).wf(),
            old(is).wf(),
        ensures
            final(is).wf(),
            final(is).same_buf(*old(is)),
            old(is).pos <= final(is).pos,
            final(self).value_type() == old(self).value_type(),
            final(self).wf(),
            r is Ok ==> final(is).pos > old(is).pos && parses_as(
                old(self).value_type(),
                old(is).remaining(),
                *final(self),
                final(is).pos - old(is).pos,
            ),
            r is Err ==> !value_ok(old(self).value_type(), old(is).remaining()),
        decreases old(is).limit - old(is).pos, 0int,
    {
        match self {
            ReflectValueBox::U32(v) => {
                proof {
                    crate::wire::lemma_parse_varint_rec_bounds(is.remaining(), 10);
                }
                match is.read_uint32() {
                    Ok(x) => {
                        *v = x;
                        Ok(())
                    },
                    Err(e) => Err(e),
                }
            },
            ReflectValueBox::U64(v) => {
                proof {
                    crate::wire::lemma_parse_varint_rec_bounds(is.remaining(), 10);
                }
                match is.read_uint64() {
                    Ok(x) => {
                        *v = x;
                        Ok(())
                    },
                    Err(e) => Err(e),
                }
            },
            ReflectValueBox::I32(v) => {
                proof {
                    crate::wire::lemma_parse_varint_rec_bounds(is.remaining(), 10);
                }
                match is.read_int32() {
                    Ok(x) => {
                        *v = x;
                        Ok(())
                    },
                    Err(e) => Err(e),
                }
            },
            ReflectValueBox::I64(v) => {
                proof {
                    crate::wire::lemma_parse_varint_rec_bounds(is.remaining(), 10);
                }
                match is.read_int64() {
                    Ok(x) => {
                        *v = x;
                        Ok(())
                    },
                    Err(e) => Err(e),
                }
            },
            ReflectValueBox::F32(v) => match is.read_fixed32() {
                Ok(x) => {
                    *v = x;
                    Ok(())
                },
                Err(e) => Err(e),
            },
            ReflectValueBox::F64(v) => match is.read_fixed64() {
                Ok(x) => {
                    *v = x;
                    Ok(())
                },
                Err(e) => Err(e),
            },
            ReflectValueBox::Bool(v) => {
                proof {
                    crate::wire::lemma_parse_varint_rec_bounds(is.remaining(), 10);
                }
                match is.read_bool() {
                    Ok(x) => {
                        *v = x;
                        Ok(())
                    },
                    Err(e) => Err(e),
                }
            },
            ReflectValueBox::String(v) => {
                proof {
                    crate::wire::lemma_parse_varint_rec_bounds(is.remaining(), 10);
                }
                match is.read_string() {
                    Ok(x) => {
                        *v = x;
                        Ok(())
                    },
                    Err(e) => Err(e),
                }
            },
            ReflectValueBox::Bytes(v) => {
                proof {
                    crate::wire::lemma_parse_varint_rec_bounds(is.remaining(), 10);
                }
                match is.read_bytes() {
                    Ok(x) => {
                        *v = x;
                        Ok(())
                    },
                    Err(e) => Err(e),
                }
            },
            ReflectValueBox::Enum(_, v) => {
                proof {
                    crate::wire::lemma_parse_varint_rec_bounds(is.remaining(), 10);
                }
                match is.read_int32() {
                    Ok(x) => {
                        *v = x;
                        Ok(())
                    },
                    Err(e) => Err(e),
                }
            },
            ReflectValueBox::Message(m) => {
                proof {
                    crate::wire::lemma_parse_varint_rec_bounds(is.remaining(), 10);
                }
                let ghost rem = is.remaining();
                let len = match is.read_raw_varint64() {
                    Ok(l) => l,
                    Err(e) => {
                        return Err(e);
                    },
                };
                let ghost nvar = rem.len() - is.remaining().len();
                proof {
                    assert(is.remaining() =~= rem.skip(nvar as int));
                }
                let outer = match is.push_limit(len) {
                    Ok(o) => o,
                    Err(e) => {
                        proof {
                            assert(len > rem.len() - nvar);
                        }
                        return Err(e);
                    },
                };
                proof {
                    assert(is.remaining() =~= rem.subrange(nvar as int, nvar + len as int));
                }
                match m.merge_from(is) {
                    Ok(u) => {
                        is.pop_limit(outer);
                        Ok(u)
                    },
                    Err(e) => {
                        proof {
                            assert(!crate::dynamic::msg_fields_ok(
                                old(self)->Message_0.descriptor.fields@,
                                rem.subrange(nvar as int, nvar + len as int),
                            ));
                        }
                        is.pop_limit(outer);
                        Err(e)
                    },
                }
            },
        }
    }
}

/// Two values show the same through reflection: same kind, same
/// contents, strings and bytes compared by what they hold.
pub open spec fn same_observation(a: ReflectValueBox, b: ReflectValueBox) -> bool {
    match (a, b) {
        (ReflectValueBox::U32(x), ReflectValueBox::U32(y)) => x == y,
        (ReflectValueBox::U64(x), ReflectValueBox::U64(y)) => x == y,
        (ReflectValueBox::I32(x), ReflectValueBox::I32(y)) => x == y,
        (ReflectValueBox::I64(x), ReflectValueBox::I64(y)) => x == y,
        (ReflectValueBox::F32(x), ReflectValueBox::F32(y)) => x == y,
        (ReflectValueBox::F64(x), ReflectValueBox::F64(y)) => x == y,
        (ReflectValueBox::Bool(x), ReflectValueBox::Bool(y)) => x == y,
        (ReflectValueBox::String(x), ReflectValueBox::String(y)) => x@ == y@,
        (ReflectValueBox::Bytes(x), ReflectValueBox::Bytes(y)) => x@ == y@,
        (ReflectValueBox::Enum(d, x), ReflectValueBox::Enum(e, y)) => d == e && x == y,
        (ReflectValueBox::Message(m), ReflectValueBox::Message(n)) => m == n,
        _ => false,
    }
}

/// Law: encoding a value and decoding it back round-trips. The
/// payload any scalar, enum, string or bytes value encodes to
/// decodes without error, consumes exactly its own bytes, and every
/// value it can decode to shows the same through reflection.
pub proof fn lemma_value_round_trip(v: ReflectValueBox, rest: Seq<u8>)
    requires
        v.wf(),
        !(v matches ReflectValueBox::Message(_)),
        v.enc().len() <= u32::MAX,
    ensures
        !parse_fails_for(v.value_type(), v.enc() + rest),
        forall|v2: ReflectValueBox, n: int|
            #[trigger] parses_as(v.value_type(), v.enc() + rest, v2, n) ==> n == v.enc().len()
                && same_observation(v2, v),
{
    let t = v.value_type();
    let s = v.enc() + rest;
    match v {
        ReflectValueBox::U32(x) => {
            crate::wire::lemma_parse_enc_varint(x as u64, rest);
            assert(crate::wire::parse_varint(s) == Some((x as u64, v.enc().len() as int)));
        },
        ReflectValueBox::U64(x) => {
            crate::wire::lemma_parse_enc_varint(x, rest);
        },
        ReflectValueBox::I32(x) => {
            crate::wire::lemma_parse_enc_varint(x as i64 as u64, rest);
            assert(((x as i64 as u64) as u32) as i32 == x) by (bit_vector);
        },
        ReflectValueBox::I64(x) => {
            crate::wire::lemma_parse_enc_varint(x as u64, rest);
            assert((x as u64) as i64 == x) by (bit_vector);
        },
        ReflectValueBox::F32(bits) => {
            vstd::bytes::lemma_auto_spec_u32_to_from_le_bytes();
            assert(s.subrange(0, 4) =~= enc_fixed32(bits));
        },
        ReflectValueBox::F64(bits) => {
            vstd::bytes::lemma_auto_spec_u64_to_from_le_bytes();
            assert(s.subrange(0, 8) =~= enc_fixed64(bits));
        },
        ReflectValueBox::Bool(b) => {
            crate::wire::lemma_parse_enc_varint(
                if b {
                    1
                } else {
                    0
                },
                rest,
            );
        },
        ReflectValueBox::String(st) => {
            let bs = encode_utf8(st@);
            assert(v.enc() == enc_varint(bs.len()) + bs);
            vstd::utf8::encode_utf8_valid_utf8(st@);
            crate::wire::lemma_parse_enc_varint(bs.len() as u64, bs + rest);
            assert(s =~= enc_varint(bs.len()) + (bs + rest));
            let n0 = enc_varint(bs.len()).len() as int;
            assert(s.subrange(n0, n0 + bs.len() as int) =~= bs);
            assert(crate::input::parse_len_delimited(s) == Some((bs, n0 + bs.len() as int)));
            assert forall|v2: ReflectValueBox, n: int|
                #[trigger] parses_as(t, s, v2, n) implies n == v.enc().len()
                && same_observation(v2, v) by {
                let s2 = v2->String_0;
                assert(encode_utf8(s2@) == bs);
                vstd::utf8::encode_utf8_decode_utf8(s2@);
                vstd::utf8::encode_utf8_decode_utf8(st@);
                assert(s2@ == st@);
            }
        },
        ReflectValueBox::Bytes(b) => {
            assert(v.enc() == enc_varint(b@.len()) + b@);
            crate::wire::lemma_parse_enc_varint(b@.len() as u64, b@ + rest);
            assert(s =~= enc_varint(b@.len()) + (b@ + rest));
            let n0 = enc_varint(b@.len()).len() as int;
            assert(s.subrange(n0, n0 + b@.len() as int) =~= b@);
            assert(crate::input::parse_len_delimited(s) == Some((b@, n0 + b@.len() as int)));
        },
        ReflectValueBox::Enum(_, val) => {
            crate::wire::lemma_parse_enc_varint(val as u32 as u64, rest);
            assert(((val as u32 as u64) as u32) as i32 == val) by (bit_vector);
        },
        ReflectValueBox::Message(_) => {},
    }
}

/// Two byte vectors hold the same bytes.
pub fn bytes_eq(a: &Vec<u8>, b: &Vec<u8>) -> (r: bool)
    ensures
        r == (a@ == b@),
{
    if a.len() != b.len() {
        return false;
    }
    let n = a.len();
    let mut i: usize = 0;
    while i < n
        invariant
            n == a@.len(),
            n == b@.len(),
            0 <= i <= n,
            forall|j: int| 0 <= j < i ==> a@[j] == b@[j],
        decreases n - i,
    {
        if a[i] != b[i] {
            return false;
        }
        i = i + 1;
    }
    proof {
        assert(a@ =~= b@);
    }
    true
}

/// Observational equality of two values, as `as_value_ref` views
/// compare: scalars by value, floats by bits, strings and bytes by
/// contents, enums by descriptor and ordinal. Nested messages are
/// outside this function's preconditions: their equality rests on
/// structural equality of opaque string and byte payloads, which no
/// executable comparison can decide.
pub fn observation_eq(a: &ReflectValueBox, b: &ReflectValueBox) -> (r: bool)
    requires
        !(*a matches ReflectValueBox::Message(_)),
        !(*b matches ReflectValueBox::Message(_)),
    ensures
        r == same_observation(*a, *b),
{
    match (a, b) {
        (ReflectValueBox::U32(x), ReflectValueBox::U32(y)) => *x == *y,
        (ReflectValueBox::U64(x), ReflectValueBox::U64(y)) => *x == *y,
        (ReflectValueBox::I32(x), ReflectValueBox::I32(y)) => *x == *y,
        (ReflectValueBox::I64(x), ReflectValueBox::I64(y)) => *x == *y,
        (ReflectValueBox::F32(x), ReflectValueBox::F32(y)) => *x == *y,
        (ReflectValueBox::F64(x), ReflectValueBox::F64(y)) => *x == *y,
        (ReflectValueBox::Bool(x), ReflectValueBox::Bool(y)) => *x == *y,
        (ReflectValueBox::String(x), ReflectValueBox::String(y)) => x.eq(y),
        (ReflectValueBox::Bytes(x), ReflectValueBox::Bytes(y)) => bytes_eq(x, y),
        (ReflectValueBox::Enum(d, x), ReflectValueBox::Enum(e, y)) => *d == *e && *x == *y,
        _ => false,
    }
}

/// Plain Rust type that one box variant carries; `downcast` moves a
/// box back into it.
pub trait ProtobufValue: Sized {
    /// The boxed form of this value.
    spec fn boxed(self) -> ReflectValueBox;

    /// Moves a box into a plain value of this type: `Ok` exactly on
    /// the variant this type fills, the box unchanged otherwise.
    fn from_value_box(v: ReflectValueBox) -> (r: Result<Self, ReflectValueBox>)
        ensures
            match r {
                Ok(x) => v == x.boxed(),
                Err(e) => e == v && forall|x: Self| v != x.boxed(),
            },
            forall|x: Self| v == x.boxed() ==> r == Ok::<Self, ReflectValueBox>(x),
    ;
}

impl From<u32> for ReflectValueBox {
    fn from(v: u32) -> ReflectValueBox {
        ReflectValueBox::U32(v)
    }
}

impl vstd::std_specs::convert::FromSpecImpl<u32> for ReflectValueBox {
    open spec fn obeys_from_spec() -> bool {
        true
    }

    open spec fn from_spec(v: u32) -> ReflectValueBox {
        ReflectValueBox::U32(v)
    }
}

impl From<u64> for ReflectValueBox {
    fn from(v: u64) -> ReflectValueBox {
        ReflectValueBox::U64(v)
    }
}

impl vstd::std_specs::convert::FromSpecImpl<u64> for ReflectValueBox {
    open spec fn obeys_from_spec() -> bool {
        true
    }

    open spec fn from_spec(v: u64) -> ReflectValueBox {
        ReflectValueBox::U64(v)
    }
}

impl From<i32> for ReflectValueBox {
    fn from(v: i32) -> ReflectValueBox {
        ReflectValueBox::I32(v)
    }
}

impl vstd::std_specs::convert::FromSpecImpl<i32> for ReflectValueBox {
    open spec fn obeys_from_spec() -> bool {
        true
    }

    open spec fn from_spec(v: i32) -> ReflectValueBox {
        ReflectValueBox::I32(v)
    }
}

impl From<i64> for ReflectValueBox {
    fn from(v: i64) -> ReflectValueBox {
        ReflectValueBox::I64(v)
    }
}

impl vstd::std_specs::convert::FromSpecImpl<i64> for ReflectValueBox {
    open spec fn obeys_from_spec() -> bool {
        true
    }

    open spec fn from_spec(v: i64) -> ReflectValueBox {
        ReflectValueBox::I64(v)
    }
}

impl From<bool> for ReflectValueBox {
    fn from(v: bool) -> ReflectValueBox {
        ReflectValueBox::Bool(v)
    }
}

impl vstd::std_specs::convert::FromSpecImpl<bool> for ReflectValueBox {
    open spec fn obeys_from_spec() -> bool {
        true
    }

    open spec fn from_spec(v: bool) -> ReflectValueBox {
        ReflectValueBox::Bool(v)
    }
}

impl From<String> for ReflectValueBox {
    fn from(v: String) -> ReflectValueBox {
        ReflectValueBox::String(v)
    }
}

impl vstd::std_specs::convert::FromSpecImpl<String> for ReflectValueBox {
    open spec fn obeys_from_spec() -> bool {
        true
    }

    open spec fn from_spec(v: String) -> ReflectValueBox {
        ReflectValueBox::String(v)
    }
}

impl From<Vec<u8>> for ReflectValueBox {
    fn from(v: Vec<u8>) -> ReflectValueBox {
        ReflectValueBox::Bytes(v)
    }
}

impl vstd::std_specs::convert::FromSpecImpl<Vec<u8>> for ReflectValueBox {
    open spec fn obeys_from_spec() -> bool {
        true
    }

    open spec fn from_spec(v: Vec<u8>) -> ReflectValueBox {
        ReflectValueBox::Bytes(v)
    }
}

impl ProtobufValue for u32 {
    open spec fn boxed(self) -> ReflectValueBox {
        ReflectValueBox::U32(self)
    }

    fn from_value_box(v: ReflectValueBox) -> (r: Result<u32, ReflectValueBox>) {
        match v {
            ReflectValueBox::U32(x) => Ok(x),
            other => Err(other),
        }
    }
}

impl ProtobufValue for u64 {
    open spec fn boxed(self) -> ReflectValueBox {
        ReflectValueBox::U64(self)
    }

    fn from_value_box(v: ReflectValueBox) -> (r: Result<u64, ReflectValueBox>) {
        match v {
            ReflectValueBox::U64(x) => Ok(x),
            other => Err(other),
        }
    }
}

impl ProtobufValue for i32 {
    open spec fn boxed(self) -> ReflectValueBox {
        ReflectValueBox::I32(self)
    }

    fn from_value_box(v: ReflectValueBox) -> (r: Result<i32, ReflectValueBox>) {
        match v {
            ReflectValueBox::I32(x) => Ok(x),
            other => Err(other),
        }
    }
}

impl ProtobufValue for i64 {
    open spec fn boxed(self) -> ReflectValueBox {
        ReflectValueBox::I64(self)
    }

    fn from_value_box(v: ReflectValueBox) -> (r: Result<i64, ReflectValueBox>) {
        match v {
            ReflectValueBox::I64(x) => Ok(x),
            other => Err(other),
        }
    }
}

impl ProtobufValue for bool {
    open spec fn boxed(self) -> ReflectValueBox {
        ReflectValueBox::Bool(self)
    }

    fn from_value_box(v: ReflectValueBox) -> (r: Result<bool, ReflectValueBox>) {
        match v {
            ReflectValueBox::Bool(x) => Ok(x),
            other => Err(other),
        }
    }
}

impl ProtobufValue for String {
    open spec fn boxed(self) -> ReflectValueBox {
        ReflectValueBox::String(self)
    }

    fn from_value_box(v: ReflectValueBox) -> (r: Result<String, ReflectValueBox>) {
        match v {
            ReflectValueBox::String(x) => Ok(x),
            other => Err(other),
        }
    }
}

impl ProtobufValue for Vec<u8> {
    open spec fn boxed(self) -> ReflectValueBox {
        ReflectValueBox::Bytes(self)
    }

    fn from_value_box(v: ReflectValueBox) -> (r: Result<Vec<u8>, ReflectValueBox>) {
        match v {
            ReflectValueBox::Bytes(x) => Ok(x),
            other => Err(other),
        }
    }
}

} // verus!
