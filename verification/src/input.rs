//! Byte-level input stream: a cursor over a byte buffer with a
//! nesting limit, and one reader per wire-format primitive, each
//! pinned to the corresponding parse function.

use vstd::prelude::*;
use vstd::utf8::{encode_utf8, valid_utf8};
use crate::unknown::UnknownValue;
use crate::wire::{parse_varint, spec_wire_type_from_num, WireType, FIELD_NUMBER_MAX};

verus! {

/// Why a decode stopped: the two regimes of recoverable wire errors,
/// malformed data and truncation, plus invalid text.
#[derive(Clone, Copy, Debug, PartialEq, Eq, Structural)]
pub enum WireError {
    /// The input ended, or its current limit was reached, mid-value.
    UnexpectedEof,
    /// A varint ran past ten bytes or past 64 bits of value.
    MalformedVarint,
    /// A tag held field number zero, one beyond the 29-bit range, or
    /// a wire type this decoder does not accept.
    MalformedTag,
    /// A declared length ran past the bytes actually present.
    Truncated,
    /// A string field's bytes were not valid UTF-8.
    InvalidUtf8,
}

/// Varint read as an unsigned 32-bit value: the low bits of the
/// 64-bit value on the wire.
pub open spec fn u64_low_u32(v: u64) -> u32 {
    v as u32
}

/// Varint read as a signed 32-bit value.
pub open spec fn u64_low_i32(v: u64) -> i32 {
    v as u32 as i32
}

/// Length-delimited run at the head of `s`: its contents and the
/// total bytes consumed, length prefix included.
pub open spec fn parse_len_delimited(s: Seq<u8>) -> Option<(Seq<u8>, int)> {
    match parse_varint(s) {
        None => None,
        Some((len, n)) => if n + len <= s.len() {
            Some((s.subrange(n, n + len), n + len as int))
        } else {
            None
        },
    }
}

/// Tag at the head of `s`: field number, wire type, bytes consumed.
pub open spec fn parse_tag(s: Seq<u8>) -> Option<((u32, WireType), int)> {
    match parse_varint(s) {
        None => None,
        Some((v, n)) => {
            let number = v / 8;
            match spec_wire_type_from_num(v % 8) {
                None => None,
                Some(w) => if 1 <= number <= FIELD_NUMBER_MAX {
                    Some(((number as u32, w), n))
                } else {
                    None
                },
            }
        },
    }
}

/// Bytes a raw value of wire type `w` occupies at the head of
/// `rem`, when one parses there.
pub open spec fn unknown_parse_len(w: WireType, rem: Seq<u8>) -> Option<int> {
    match w {
        WireType::Varint => match parse_varint(rem) {
            Some((_, n)) => Some(n),
            None => None,
        },
        WireType::Fixed32 => if rem.len() >= 4 {
            Some(4)
        } else {
            None
        },
        WireType::Fixed64 => if rem.len() >= 8 {
            Some(8)
        } else {
            None
        },
        WireType::LengthDelimited => match parse_len_delimited(rem) {
            Some((_, n)) => Some(n),
            None => None,
        },
    }
}

/// Law: a tag round-trips. The tag written for a field number and
/// wire type parses back to exactly that pair, consuming its own
/// bytes, whatever follows.
pub proof fn lemma_parse_enc_tag(field_number: u32, w: WireType, rest: Seq<u8>)
    requires
        1 <= field_number <= FIELD_NUMBER_MAX,
    ensures
        parse_tag(crate::wire::enc_tag(field_number, w) + rest) == Some(
            ((field_number, w), crate::wire::enc_tag(field_number, w).len() as int),
        ),
{
    let v: u64 = ((field_number as u64) * 8 + crate::wire::wire_type_num(w)) as u64;
    crate::wire::lemma_parse_enc_varint(v, rest);
    vstd::arithmetic::div_mod::lemma_fundamental_div_mod_converse(
        v as int,
        8,
        field_number as int,
        crate::wire::wire_type_num(w) as int,
    );
}

/// Cursor over a byte buffer. `limit` is the current nesting bound:
/// reads stop there as if the buffer ended, and decoding a
/// length-delimited region pushes it inward and pops it back.
pub struct InputStream {
    pub buf: Vec<u8>,
    pub pos: usize,
    pub limit: usize,
}

impl InputStream {
    /// The cursor sits between start and limit, the limit within the
    /// buffer.
    pub open spec fn wf(self) -> bool {
        self.pos <= self.limit <= self.buf@.len()
    }

    /// Bytes still to be read under the current limit.
    pub open spec fn remaining(self) -> Seq<u8> {
        self.buf@.subrange(self.pos as int, self.limit as int)
    }

    /// The two streams differ at most in cursor position.
    pub open spec fn same_buf(self, other: InputStream) -> bool {
        self.buf == other.buf && self.limit == other.limit
    }

    /// Stream over a whole buffer.
    pub fn new(buf: Vec<u8>) -> (r: InputStream)
        ensures
            r.wf(),
            r.buf == buf,
            r.pos == 0,
            r.limit == buf@.len(),
            r.remaining() == buf@,
    {
        let limit = buf.len();
        let r = InputStream { buf, pos: 0, limit };
        assert(r.remaining() =~= r.buf@);
        r
    }

    /// True when the current limit leaves nothing to read.
    pub fn eof(&self) -> (r: bool)
        requires
            self.wf(),
        ensures
            r == (self.remaining().len() == 0),
    {
        self.pos == self.limit
    }

    /// Reads one raw byte.
    pub fn read_raw_byte(&mut self) -> (r: Result<u8, WireError>)
        requires
            old(self).wf(),
        ensures
            final(self).wf(),
            final(self).same_buf(*old(self)),
            match r {
                Ok(b) => old(self).remaining().len() > 0 && b == old(self).remaining()[0]
                    && final(self).pos == old(self).pos + 1,
                Err(e) => old(self).remaining().len() == 0 && *final(self) == *old(self)
                    && e == WireError::UnexpectedEof,
            },
    {
        if self.pos == self.limit {
            Err(WireError::UnexpectedEof)
        } else {
            let b = self.buf[self.pos];
            self.pos = self.pos + 1;
            Ok(b)
        }
    }

    fn read_varint_chunk(&mut self, fuel: u64) -> (r: Result<u64, WireError>)
        requires
            old(self).wf(),
        ensures
            final(self).wf(),
            final(self).same_buf(*old(self)),
            old(self).pos <= final(self).pos,
            match r {
                Ok(v) => crate::wire::parse_varint_rec(old(self).remaining(), fuel as nat)
                    matches Some((pv, n)) && pv == v as nat && final(self).pos == old(self).pos
                    + n,
                Err(_) => match crate::wire::parse_varint_rec(
                    old(self).remaining(),
                    fuel as nat,
                ) {
                    None => true,
                    Some((pv, n)) => pv > u64::MAX,
                },
            },
        decreases fuel,
    {
        if fuel == 0 {
            return Err(WireError::MalformedVarint);
        }
        let b = match self.read_raw_byte() {
            Ok(b) => b,
            Err(e) => {
                return Err(e);
            },
        };
        if b < 128 {
            Ok(b as u64)
        } else {
            let ghost rem0 = old(self).remaining();
            assert(self.remaining() =~= rem0.skip(1));
            match self.read_varint_chunk(fuel - 1) {
                Err(e) => Err(e),
                Ok(v) => {
                    let head: u64 = (b - 128) as u64;
                    if v > (u64::MAX - head) / 128 {
                        proof {
                            let inner = crate::wire::parse_varint_rec(
                                rem0.skip(1),
                                (fuel - 1) as nat,
                            );
                            if inner is Some {
                                let (pv, n) = inner->Some_0;
                                assert(head as nat + 128 * pv > u64::MAX) by (nonlinear_arith)
                                    requires
                                        pv == v as nat,
                                        v > (u64::MAX - head) / 128,
                                        head < 128,
                                        (u64::MAX - head) / 128 * 128 + (u64::MAX - head) % 128
                                            == u64::MAX - head,
                                        0 <= (u64::MAX - head) % 128 < 128,
                                ;
                            }
                        }
                        Err(WireError::MalformedVarint)
                    } else {
                        proof {
                            assert(head + 128 * v <= u64::MAX) by (nonlinear_arith)
                                requires
                                    v <= (u64::MAX - head) / 128,
                                    head < 128,
                                    (u64::MAX - head) / 128 * 128 + (u64::MAX - head) % 128
                                        == u64::MAX - head,
                                    0 <= (u64::MAX - head) % 128 < 128,
                            ;
                        }
                        Ok(head + 128 * v)
                    }
                },
            }
        }
    }

    /// Reads one varint as an unsigned 64-bit value.
    pub fn read_raw_varint64(&mut self) -> (r: Result<u64, WireError>)
        requires
            old(self).wf(),
        ensures
            final(self).wf(),
            final(self).same_buf(*old(self)),
            old(self).pos <= final(self).pos,
            match r {
                Ok(v) => parse_varint(old(self).remaining()) matches Some((pv, n)) && pv == v
                    && final(self).pos == old(self).pos + n,
                Err(_) => parse_varint(old(self).remaining()) is None,
            },
    {
        self.read_varint_chunk(10)
    }

    /// Reads a varint and keeps its low 64 bits as `u64`.
    pub fn read_uint64(&mut self) -> (r: Result<u64, WireError>)
        requires
            old(self).wf(),
        ensures
            final(self).wf(),
            final(self).same_buf(*old(self)),
            old(self).pos <= final(self).pos,
            match r {
                Ok(v) => parse_varint(old(self).remaining()) matches Some((pv, n)) && pv == v
                    && final(self).pos == old(self).pos + n,
                Err(_) => parse_varint(old(self).remaining()) is None,
            },
    {
        self.read_raw_varint64()
    }

    /// Reads a varint and keeps its low 32 bits as `u32`.
    pub fn read_uint32(&mut self) -> (r: Result<u32, WireError>)
        requires
            old(self).wf(),
        ensures
            final(self).wf(),
            final(self).same_buf(*old(self)),
            old(self).pos <= final(self).pos,
            match r {
                Ok(v) => parse_varint(old(self).remaining()) matches Some((pv, n)) && v
                    == u64_low_u32(pv) && final(self).pos == old(self).pos + n,
                Err(_) => parse_varint(old(self).remaining()) is None,
            },
    {
        match self.read_raw_varint64() {
            Ok(v) => Ok(v as u32),
            Err(e) => Err(e),
        }
    }

    /// Reads a varint and keeps its low 32 bits as `i32`.
    pub fn read_int32(&mut self) -> (r: Result<i32, WireError>)
        requires
            old(self).wf(),
        ensures
            final(self).wf(),
            final(self).same_buf(*old(self)),
            old(self).pos <= final(self).pos,
            match r {
                Ok(v) => parse_varint(old(self).remaining()) matches Some((pv, n)) && v
                    == u64_low_i32(pv) && final(self).pos == old(self).pos + n,
                Err(_) => parse_varint(old(self).remaining()) is None,
            },
    {
        match self.read_raw_varint64() {
            Ok(v) => Ok(v as u32 as i32),
            Err(e) => Err(e),
        }
    }

    /// Reads a varint as a signed 64-bit value.
    pub fn read_int64(&mut self) -> (r: Result<i64, WireError>)
        requires
            old(self).wf(),
        ensures
            final(self).wf(),
            final(self).same_buf(*old(self)),
            old(self).pos <= final(self).pos,
            match r {
                Ok(v) => parse_varint(old(self).remaining()) matches Some((pv, n)) && v == pv
                    as i64 && final(self).pos == old(self).pos + n,
                Err(_) => parse_varint(old(self).remaining()) is None,
            },
    {
        match self.read_raw_varint64() {
            Ok(v) => Ok(v as i64),
            Err(e) => Err(e),
        }
    }

    /// Reads a varint as a boolean: anything but zero is true.
    pub fn read_bool(&mut self) -> (r: Result<bool, WireError>)
        requires
            old(self).wf(),
        ensures
            final(self).wf(),
            final(self).same_buf(*old(self)),
            old(self).pos <= final(self).pos,
            match r {
                Ok(v) => parse_varint(old(self).remaining()) matches Some((pv, n)) && v == (pv
                    != 0) && final(self).pos == old(self).pos + n,
                Err(_) => parse_varint(old(self).remaining()) is None,
            },
    {
        match self.read_raw_varint64() {
            Ok(v) => Ok(v != 0),
            Err(e) => Err(e),
        }
    }

    /// Reads four little-endian bytes.
    pub fn read_fixed32(&mut self) -> (r: Result<u32, WireError>)
        requires
            old(self).wf(),
        ensures
            final(self).wf(),
            final(self).same_buf(*old(self)),
            match r {
                Ok(x) => old(self).remaining().len() >= 4 && x
                    == vstd::bytes::spec_u32_from_le_bytes(old(self).remaining().subrange(0, 4))
                    && final(self).pos == old(self).pos + 4,
                Err(e) => old(self).remaining().len() < 4 && *final(self) == *old(self) && e
                    == WireError::UnexpectedEof,
            },
    {
        if self.limit - self.pos < 4 {
            return Err(WireError::UnexpectedEof);
        }
        let mut tmp: Vec<u8> = Vec::new();
        tmp.push(self.buf[self.pos]);
        tmp.push(self.buf[self.pos + 1]);
        tmp.push(self.buf[self.pos + 2]);
        tmp.push(self.buf[self.pos + 3]);
        self.pos = self.pos + 4;
        assert(tmp@ =~= old(self).remaining().subrange(0, 4));
        let x = vstd::bytes::u32_from_le_bytes(tmp.as_slice());
        Ok(x)
    }

    /// Reads eight little-endian bytes.
    pub fn read_fixed64(&mut self) -> (r: Result<u64, WireError>)
        requires
            old(self).wf(),
        ensures
            final(self).wf(),
            final(self).same_buf(*old(self)),
            match r {
                Ok(x) => old(self).remaining().len() >= 8 && x
                    == vstd::bytes::spec_u64_from_le_bytes(old(self).remaining().subrange(0, 8))
                    && final(self).pos == old(self).pos + 8,
                Err(e) => old(self).remaining().len() < 8 && *final(self) == *old(self) && e
                    == WireError::UnexpectedEof,
            },
    {
        if self.limit - self.pos < 8 {
            return Err(WireError::UnexpectedEof);
        }
        let mut tmp: Vec<u8> = Vec::new();
        tmp.push(self.buf[self.pos]);
        tmp.push(self.buf[self.pos + 1]);
        tmp.push(self.buf[self.pos + 2]);
        tmp.push(self.buf[self.pos + 3]);
        tmp.push(self.buf[self.pos + 4]);
        tmp.push(self.buf[self.pos + 5]);
        tmp.push(self.buf[self.pos + 6]);
        tmp.push(self.buf[self.pos + 7]);
        self.pos = self.pos + 8;
        assert(tmp@ =~= old(self).remaining().subrange(0, 8));
        let x = vstd::bytes::u64_from_le_bytes(tmp.as_slice());
        Ok(x)
    }

    /// Reads a length prefix and then that many raw bytes.
    pub fn read_bytes(&mut self) -> (r: Result<Vec<u8>, WireError>)
        requires
            old(self).wf(),
        ensures
            final(self).wf(),
            final(self).same_buf(*old(self)),
            old(self).pos <= final(self).pos,
            match r {
                Ok(v) => parse_len_delimited(old(self).remaining()) matches Some((b, n)) && v@
                    == b && final(self).pos == old(self).pos + n,
                Err(_) => parse_len_delimited(old(self).remaining()) is None,
            },
    {
        let ghost rem0 = old(self).remaining();
        let len = match self.read_raw_varint64() {
            Ok(v) => v,
            Err(e) => {
                return Err(e);
            },
        };
        let avail = self.limit - self.pos;
        if len > avail as u64 {
            return Err(WireError::Truncated);
        }
        let len = len as usize;
        let ghost n0 = self.pos - old(self).pos;
        let start = self.pos;
        let mut v: Vec<u8> = Vec::new();
        let mut i: usize = 0;
        while i < len
            invariant
                self.wf(),
                self.same_buf(*old(self)),
                start == self.pos - i,
                i <= len,
                self.pos + (len - i) <= self.limit,
                v@ == self.buf@.subrange(start as int, self.pos as int),
            decreases len - i,
        {
            let b = self.buf[self.pos];
            v.push(b);
            self.pos = self.pos + 1;
            i = i + 1;
            assert(v@ =~= self.buf@.subrange(start as int, self.pos as int));
        }
        proof {
            let (pb, pn) = parse_len_delimited(rem0)->Some_0;
            assert(v@ =~= rem0.subrange(n0 as int, n0 + len as int));
        }
        Ok(v)
    }

    /// Reads a length-prefixed run of bytes that must be UTF-8 text.
    pub fn read_string(&mut self) -> (r: Result<String, WireError>)
        requires
            old(self).wf(),
        ensures
            final(self).wf(),
            final(self).same_buf(*old(self)),
            old(self).pos <= final(self).pos,
            match r {
                Ok(s) => parse_len_delimited(old(self).remaining()) matches Some((b, n))
                    && valid_utf8(b) && encode_utf8(s@) == b && final(self).pos == old(self).pos
                    + n,
                Err(_) => parse_len_delimited(old(self).remaining()) is None
                    || !valid_utf8(parse_len_delimited(old(self).remaining())->Some_0.0),
            },
    {
        let bytes = match self.read_bytes() {
            Ok(b) => b,
            Err(e) => {
                return Err(e);
            },
        };
        string_from_utf8(bytes)
    }

    /// Narrows the readable region to the next `len` bytes, handing
    /// back the outer limit to restore afterwards.
    pub fn push_limit(&mut self, len: u64) -> (r: Result<usize, WireError>)
        requires
            old(self).wf(),
        ensures
            final(self).wf(),
            final(self).buf == old(self).buf,
            final(self).pos == old(self).pos,
            match r {
                Ok(outer) => len <= old(self).remaining().len() && outer == old(self).limit
                    && final(self).limit == old(self).pos + len
                    && final(self).remaining() == old(self).remaining().take(len as int),
                Err(e) => len > old(self).remaining().len() && *final(self) == *old(self) && e
                    == WireError::Truncated,
            },
    {
        let avail = self.limit - self.pos;
        if len > avail as u64 {
            Err(WireError::Truncated)
        } else {
            let outer = self.limit;
            self.limit = self.pos + len as usize;
            assert(self.remaining() =~= old(self).remaining().take(len as int));
            Ok(outer)
        }
    }

    /// Restores the limit that `push_limit` displaced.
    pub fn pop_limit(&mut self, outer: usize)
        requires
            old(self).wf(),
            old(self).limit <= outer <= old(self).buf@.len(),
        ensures
            final(self).wf(),
            final(self).buf == old(self).buf,
            final(self).pos == old(self).pos,
            final(self).limit == outer,
    {
        self.limit = outer;
    }

    /// Reads one tag and splits it into field number and wire type.
    pub fn read_tag_unpack(&mut self) -> (r: Result<(u32, WireType), WireError>)
        requires
            old(self).wf(),
        ensures
            final(self).wf(),
            final(self).same_buf(*old(self)),
            old(self).pos <= final(self).pos,
            match r {
                Ok(t) => parse_tag(old(self).remaining()) matches Some((pt, n)) && pt == t
                    && final(self).pos == old(self).pos + n,
                Err(_) => parse_tag(old(self).remaining()) is None,
            },
    {
        let v = match self.read_raw_varint64() {
            Ok(v) => v,
            Err(e) => {
                return Err(e);
            },
        };
        let number = v / 8;
        let w = match crate::wire::wire_type_from_num(v % 8) {
            Some(w) => w,
            None => {
                return Err(WireError::MalformedTag);
            },
        };
        if number == 0 || number > FIELD_NUMBER_MAX as u64 {
            return Err(WireError::MalformedTag);
        }
        Ok((number as u32, w))
    }

    /// Reads the raw value of an unrecognized field under wire type
    /// `w`, keeping it for lossless re-encoding.
    pub fn read_unknown(&mut self, w: WireType) -> (r: Result<UnknownValue, WireError>)
        requires
            old(self).wf(),
        ensures
            final(self).wf(),
            final(self).same_buf(*old(self)),
            old(self).pos <= final(self).pos,
            match r {
                Ok(u) => u.wire_type() == w && match u {
                    UnknownValue::Varint(v) => parse_varint(old(self).remaining())
                        matches Some((pv, n)) && pv == v && final(self).pos == old(self).pos
                        + n,
                    UnknownValue::Fixed32(x) => old(self).remaining().len() >= 4 && x
                        == vstd::bytes::spec_u32_from_le_bytes(
                        old(self).remaining().subrange(0, 4),
                    ) && final(self).pos == old(self).pos + 4,
                    UnknownValue::Fixed64(x) => old(self).remaining().len() >= 8 && x
                        == vstd::bytes::spec_u64_from_le_bytes(
                        old(self).remaining().subrange(0, 8),
                    ) && final(self).pos == old(self).pos + 8,
                    UnknownValue::LengthDelimited(b) => parse_len_delimited(
                        old(self).remaining(),
                    ) matches Some((pb, n)) && pb == b@ && final(self).pos == old(self).pos
                        + n,
                },
                Err(_) => match w {
                    WireType::Varint => parse_varint(old(self).remaining()) is None,
                    WireType::Fixed32 => old(self).remaining().len() < 4,
                    WireType::Fixed64 => old(self).remaining().len() < 8,
                    WireType::LengthDelimited => parse_len_delimited(old(self).remaining())
                        is None,
                },
            },
    {
        match w {
            WireType::Varint => match self.read_raw_varint64() {
                Ok(v) => Ok(UnknownValue::Varint(v)),
                Err(e) => Err(e),
            },
            WireType::Fixed32 => match self.read_fixed32() {
                Ok(x) => Ok(UnknownValue::Fixed32(x)),
                Err(e) => Err(e),
            },
            WireType::Fixed64 => match self.read_fixed64() {
                Ok(x) => Ok(UnknownValue::Fixed64(x)),
                Err(e) => Err(e),
            },
            WireType::LengthDelimited => match self.read_bytes() {
                Ok(b) => Ok(UnknownValue::LengthDelimited(b)),
                Err(e) => Err(e),
            },
        }
    }
}

/// Relies on String::from_utf8: it returns Ok exactly when the bytes
/// are valid UTF-8, and then the returned string is the one those
/// bytes spell.
#[verifier::external_body]
fn string_from_utf8(bytes: Vec<u8>) -> (r: Result<String, WireError>)
    ensures
        match r {
            Ok(s) => valid_utf8(bytes@) && encode_utf8(s@) == bytes@,
            Err(e) => !valid_utf8(bytes@) && e == WireError::InvalidUtf8,
        },
{
    match String::from_utf8(bytes) {
        Ok(s) => Ok(s),
        Err(_) => Err(WireError::InvalidUtf8),
    }
}

} // verus!
