//! Byte-level output stream: an append-only buffer with one writer
//! per wire-format primitive, each pinned to its encoding.

use vstd::prelude::*;
use crate::wire::{enc_fixed32, enc_fixed64, enc_tag, enc_varint, wire_type_to_num, WireType,
    FIELD_NUMBER_MAX};

verus! {

/// Growing byte buffer that the encoders write into.
pub struct OutputStream {
    pub buf: Vec<u8>,
}

impl OutputStream {
    /// Fresh, empty stream.
    pub fn new() -> (r: OutputStream)
        ensures
            r.buf@ == Seq::<u8>::empty(),
    {
        OutputStream { buf: Vec::new() }
    }

    /// Bytes written so far.
    pub fn bytes(&self) -> (r: &Vec<u8>)
        ensures
            r@ == self.buf@,
    {
        &self.buf
    }

    /// Appends one raw byte.
    pub fn write_raw_byte(&mut self, b: u8)
        ensures
            final(self).buf@ == old(self).buf@.push(b),
    {
        self.buf.push(b);
    }

    /// Appends the varint encoding of `x`.
    pub fn write_raw_varint64(&mut self, x: u64)
        ensures
            final(self).buf@ == old(self).buf@ + enc_varint(x as nat),
        decreases x,
    {
        if x < 128 {
            self.buf.push(x as u8);
            assert(self.buf@ =~= old(self).buf@ + enc_varint(x as nat));
        } else {
            let b: u8 = ((x % 128) + 128) as u8;
            self.buf.push(b);
            self.write_raw_varint64(x / 128);
            assert(self.buf@ =~= old(self).buf@ + enc_varint(x as nat));
        }
    }

    /// Appends the varint encoding of a 32-bit value.
    pub fn write_raw_varint32(&mut self, x: u32)
        ensures
            final(self).buf@ == old(self).buf@ + enc_varint(x as nat),
    {
        self.write_raw_varint64(x as u64);
    }

    /// Appends the tag of `field_number` under wire type `w`.
    pub fn write_tag(&mut self, field_number: u32, w: WireType)
        requires
            field_number <= FIELD_NUMBER_MAX,
        ensures
            final(self).buf@ == old(self).buf@ + enc_tag(field_number, w),
    {
        let n: u64 = (field_number as u64) * 8 + wire_type_to_num(w);
        self.write_raw_varint64(n);
    }

    /// Appends four little-endian bytes.
    pub fn write_fixed32(&mut self, x: u32)
        ensures
            final(self).buf@ == old(self).buf@ + enc_fixed32(x),
    {
        let mut bytes = vstd::bytes::u32_to_le_bytes(x);
        self.buf.append(&mut bytes);
    }

    /// Appends eight little-endian bytes.
    pub fn write_fixed64(&mut self, x: u64)
        ensures
            final(self).buf@ == old(self).buf@ + enc_fixed64(x),
    {
        let mut bytes = vstd::bytes::u64_to_le_bytes(x);
        self.buf.append(&mut bytes);
    }

    /// Appends a byte run as it stands, with no length prefix.
    pub fn write_raw_bytes(&mut self, b: &[u8])
        ensures
            final(self).buf@ == old(self).buf@ + b@,
    {
        let mut bytes = vstd::slice::slice_to_vec(b);
        self.buf.append(&mut bytes);
    }
}

} // verus!
