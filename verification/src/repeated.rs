//! Repeated field slot: an ordered sequence of values, all of one
//! declared element type.

use vstd::prelude::*;
use crate::descriptor::{wire_for, RuntimeType};
use crate::input::{parse_len_delimited, InputStream, WireError};
use crate::output::OutputStream;
use crate::value_box::{default_value_box, parse_fails_for, parses_as, ReflectValueBox,
    ReflectValueRef};
use crate::wire::{lemma_tag_len, parse_varint, tag_size, WireType, FIELD_NUMBER_MAX};

verus! {

/// Encoding of a run of elements, each under its own tag, in order.
/// This core never produces the packed form; each element is framed
/// separately, which every conforming decoder accepts.
pub open spec fn enc_elems(s: Seq<ReflectValueBox>, field_number: u32) -> Seq<u8>
    decreases s, 0int,
{
    if s.len() == 0 {
        Seq::empty()
    } else {
        s[0].enc_with_tag(field_number) + enc_elems(s.skip(1), field_number)
    }
}

/// The encoding of concatenated runs is the concatenation of their
/// encodings.
pub proof fn lemma_enc_elems_concat(s: Seq<ReflectValueBox>, t: Seq<ReflectValueBox>, f: u32)
    ensures
        enc_elems(s + t, f) == enc_elems(s, f) + enc_elems(t, f),
    decreases s.len(),
{
    if s.len() == 0 {
        assert(s + t =~= t);
        assert(enc_elems(s, f) + enc_elems(t, f) =~= enc_elems(t, f));
    } else {
        assert((s + t).skip(1) =~= s.skip(1) + t);
        lemma_enc_elems_concat(s.skip(1), t, f);
        assert(enc_elems(s + t, f) =~= enc_elems(s, f) + enc_elems(t, f));
    }
}

/// Appending one element appends its tagged encoding.
pub proof fn lemma_enc_elems_push(s: Seq<ReflectValueBox>, v: ReflectValueBox, f: u32)
    ensures
        enc_elems(s.push(v), f) == enc_elems(s, f) + v.enc_with_tag(f),
{
    assert(s.push(v) =~= s + seq![v]);
    lemma_enc_elems_concat(s, seq![v], f);
    assert(enc_elems(seq![v].skip(1), f) == Seq::<u8>::empty());
    assert(enc_elems(seq![v], f) =~= v.enc_with_tag(f));
}

/// The run around position `i` splits into what precedes it, its own
/// element, and what follows.
pub proof fn lemma_enc_elems_split(s: Seq<ReflectValueBox>, i: int, f: u32)
    requires
        0 <= i < s.len(),
    ensures
        enc_elems(s, f) == enc_elems(s.take(i), f) + s[i].enc_with_tag(f) + enc_elems(
            s.skip(i + 1),
            f,
        ),
{
    assert(s =~= s.take(i) + s.skip(i));
    lemma_enc_elems_concat(s.take(i), s.skip(i), f);
    assert(s.skip(i)[0] == s[i]);
    assert(s.skip(i).skip(1) =~= s.skip(i + 1));
    assert(enc_elems(s.skip(i), f) == s[i].enc_with_tag(f) + enc_elems(s.skip(i + 1), f));
}

/// Bytes one element of a packed run of type `t` occupies at the
/// head of `rem`, when one parses there. Packed runs carry only the
/// non-length-delimited kinds, so an element is one varint or one
/// fixed-width group.
pub open spec fn packed_consumed(t: RuntimeType, rem: Seq<u8>) -> int {
    match t {
        RuntimeType::F32 => 4,
        RuntimeType::F64 => 8,
        _ => parse_varint(rem)->Some_0.1,
    }
}

/// Elements of type `t` parse one after another and exactly fill
/// `body`.
pub open spec fn packed_body_ok(t: RuntimeType, body: Seq<u8>) -> bool
    decreases body.len(),
{
    if body.len() == 0 {
        true
    } else {
        &&& !parse_fails_for(t, body)
        &&& 1 <= packed_consumed(t, body) <= body.len()
        &&& packed_body_ok(t, body.skip(packed_consumed(t, body)))
    }
}

/// `vs` are exactly the values the packed run `body` spells, in
/// order.
pub open spec fn packed_values(t: RuntimeType, body: Seq<u8>, vs: Seq<ReflectValueBox>) -> bool
    decreases body.len(),
{
    if body.len() == 0 {
        vs.len() == 0
    } else {
        &&& vs.len() > 0
        &&& 1 <= packed_consumed(t, body) <= body.len()
        &&& parses_as(t, body, vs[0], packed_consumed(t, body))
        &&& packed_values(t, body.skip(packed_consumed(t, body)), vs.skip(1))
    }
}

/// Ordered sequence of values, all of element type `elem`.
pub struct DynamicRepeated {
    pub elem: RuntimeType,
    pub vec: Vec<ReflectValueBox>,
}

impl DynamicRepeated {
    /// Every element is well formed and of the declared type.
    pub open spec fn wf(self) -> bool
        decreases self,
    {
        &&& self.elem.wf()
        &&& forall|i: int|
            0 <= i < self.vec@.len() ==> (#[trigger] self.vec@[i]).wf() && self.vec@[i].value_type()
                == self.elem
    }

    /// Encoding under `field_number`: each element tagged, in order.
    pub open spec fn enc(self, field_number: u32) -> Seq<u8>
        decreases self, 0int,
    {
        enc_elems(self.vec@, field_number)
    }

    /// Empty sequence of element type `elem`.
    pub fn new(elem: RuntimeType) -> (r: DynamicRepeated)
        ensures
            r.elem == elem,
            r.vec@ == Seq::<ReflectValueBox>::empty(),
            elem.wf() ==> r.wf(),
    {
        DynamicRepeated { elem, vec: Vec::new() }
    }

    /// Number of elements.
    pub fn len(&self) -> (n: usize)
        ensures
            n == self.vec@.len(),
    {
        self.vec.len()
    }

    /// Borrowed view of the element at `index`.
    pub fn get(&self, index: usize) -> (r: ReflectValueRef<'_>)
        requires
            index < self.vec@.len(),
        ensures
            self.vec@[index as int].ref_matches(r),
    {
        self.vec[index].as_value_ref()
    }

    /// Replaces the element at `index`. A value of the wrong type is
    /// a precondition violation, never stored.
    pub fn set(&mut self, index: usize, value: ReflectValueBox)
        requires
            old(self).wf(),
            index < old(self).vec@.len(),
            value.wf(),
            value.value_type() == old(self).elem,
        ensures
            final(self).elem == old(self).elem,
            final(self).vec@ == old(self).vec@.update(index as int, value),
            final(self).wf(),
    {
        let slot = &mut self.vec[index];
        *slot = value;
    }

    /// Appends one element. A value of the wrong type is a
    /// precondition violation, never stored.
    pub fn push(&mut self, value: ReflectValueBox)
        requires
            old(self).wf(),
            value.wf(),
            value.value_type() == old(self).elem,
        ensures
            final(self).elem == old(self).elem,
            final(self).vec@ == old(self).vec@.push(value),
            final(self).wf(),
    {
        self.vec.push(value);
    }

    /// Removes every element.
    pub fn clear(&mut self)
        ensures
            final(self).elem == old(self).elem,
            final(self).vec@ == Seq::<ReflectValueBox>::empty(),
            old(self).wf() ==> final(self).wf(),
    {
        self.vec.clear();
    }

    /// The declared element type.
    pub fn element_type(&self) -> (r: RuntimeType)
        ensures
            r == self.elem,
    {
        self.elem.clone_type()
    }

    /// Decodes one element of the declared type from the stream and
    /// appends it, preserving the order of arrival.
    pub fn merge_from(&mut self, is: &mut InputStream) -> (r: Result<(), WireError>)
        requires
            old(self).wf(),
            old(is).wf(),
        ensures
            final(is).wf(),
            final(is).same_buf(*old(is)),
            old(is).pos <= final(is).pos,
            final(self).elem == old(self).elem,
            final(self).wf(),
            r is Ok ==> final(is).pos > old(is).pos
                && final(self).vec@.len() == old(self).vec@.len() + 1
                && final(self).vec@.subrange(0, old(self).vec@.len() as int) == old(self).vec@
                && parses_as(
                old(self).elem,
                old(is).remaining(),
                final(self).vec@.last(),
                final(is).pos - old(is).pos,
            ),
            r is Err ==> !crate::value_box::value_ok(old(self).elem, old(is).remaining())
                && final(self).vec@ == old(self).vec@,
        decreases old(is).limit - old(is).pos, 1int,
    {
        let mut value = default_value_box(&self.elem);
        match value.merge_from(is) {
            Ok(u) => {
                self.vec.push(value);
                proof {
                    assert(self.vec@.subrange(0, old(self).vec@.len() as int)
                        =~= old(self).vec@);
                }
                Ok(u)
            },
            Err(e) => Err(e),
        }
    }

    /// Decodes a packed run: a length prefix and then elements of
    /// the declared type until that length is exhausted, appended in
    /// order. The nesting limit is restored on every exit path.
    pub fn merge_packed_from(&mut self, is: &mut InputStream) -> (r: Result<(), WireError>)
        requires
            old(self).wf(),
            old(is).wf(),
            wire_for(old(self).elem) != WireType::LengthDelimited,
        ensures
            final(is).wf(),
            final(is).same_buf(*old(is)),
            old(is).pos <= final(is).pos,
            final(self).elem == old(self).elem,
            final(self).wf(),
            r is Ok ==> final(is).pos > old(is).pos && (parse_varint(old(is).remaining())
                matches Some((len, n)) && {
                &&& n + len <= old(is).remaining().len()
                &&& final(is).pos == old(is).pos + n + len
                &&& final(self).vec@.len() >= old(self).vec@.len()
                &&& final(self).vec@.subrange(0, old(self).vec@.len() as int) == old(
                    self,
                ).vec@
                &&& packed_values(
                    old(self).elem,
                    old(is).remaining().subrange(n, n + len),
                    final(self).vec@.skip(old(self).vec@.len() as int),
                )
            }),
            r is Err ==> final(self).vec@.subrange(0, old(self).vec@.len() as int) == old(
                self,
            ).vec@ && (parse_varint(old(is).remaining()) is None || (parse_varint(
                old(is).remaining(),
            ) matches Some((len, n)) && (n + len > old(is).remaining().len()
                || !packed_body_ok(
                old(self).elem,
                old(is).remaining().subrange(n, n + len),
            )))),
        decreases old(is).limit - old(is).pos, 1int,
    {
        proof {
            crate::wire::lemma_parse_varint_rec_bounds(is.remaining(), 10);
        }
        let len = match is.read_raw_varint64() {
            Ok(l) => l,
            Err(e) => {
                return Err(e);
            },
        };
        let ghost nvar = is.pos - old(is).pos;
        proof {
            assert(is.remaining() =~= old(is).remaining().skip(nvar as int));
        }
        let outer = match is.push_limit(len) {
            Ok(o) => o,
            Err(e) => {
                return Err(e);
            },
        };
        let ghost body = is.remaining();
        proof {
            assert(body =~= old(is).remaining().subrange(nvar as int, nvar + len as int));
        }
        let ghost orig_len = self.vec@.len() as int;
        loop
            invariant
                self.wf(),
                self.elem == old(self).elem,
                wire_for(self.elem) != WireType::LengthDelimited,
                0 <= orig_len <= self.vec@.len(),
                orig_len == old(self).vec@.len(),
                self.vec@.subrange(0, orig_len) == old(self).vec@,
                is.wf(),
                is.buf == old(is).buf,
                is.limit <= outer <= is.buf@.len(),
                outer == old(is).limit,
                is.limit == old(is).pos + nvar + len,
                old(is).pos < is.pos,
                parse_varint(old(is).remaining()) == Some((len, nvar as int)),
                nvar + len <= old(is).remaining().len(),
                body == old(is).remaining().subrange(nvar as int, nvar + len as int),
                forall|vs: Seq<ReflectValueBox>|
                    #[trigger] packed_values(self.elem, is.remaining(), vs) ==> packed_values(
                        self.elem,
                        body,
                        self.vec@.skip(orig_len) + vs,
                    ),
                packed_body_ok(self.elem, body) ==> packed_body_ok(
                    self.elem,
                    is.remaining(),
                ),
            ensures
                self.wf(),
                self.elem == old(self).elem,
                orig_len <= self.vec@.len(),
                self.vec@.subrange(0, orig_len) == old(self).vec@,
                is.wf(),
                is.buf == old(is).buf,
                is.limit <= outer <= is.buf@.len(),
                outer == old(is).limit,
                is.limit == old(is).pos + nvar + len,
                old(is).pos < is.pos,
                is.remaining().len() == 0,
                forall|vs: Seq<ReflectValueBox>|
                    #[trigger] packed_values(self.elem, is.remaining(), vs) ==> packed_values(
                        self.elem,
                        body,
                        self.vec@.skip(orig_len) + vs,
                    ),
            decreases is.limit - is.pos,
        {
            if is.eof() {
                break ;
            }
            let ghost rem0 = is.remaining();
            let ghost pre_vec = self.vec@;
            let ghost appended0 = self.vec@.skip(orig_len);
            match self.merge_from(is) {
                Ok(_) => {
                    proof {
                        let v = self.vec@.last();
                        assert(self.vec@.subrange(0, pre_vec.len() as int) == pre_vec);
                        assert forall|i: int| 0 <= i < pre_vec.len() implies self.vec@[i]
                            == pre_vec[i] by {
                            assert(self.vec@.subrange(0, pre_vec.len() as int)[i]
                                == pre_vec[i]);
                        }
                        assert(self.vec@.subrange(0, orig_len) =~= pre_vec.subrange(
                            0,
                            orig_len,
                        ));
                        let cn = rem0.len() - is.remaining().len();
                        assert(parses_as(self.elem, rem0, v, cn));
                        assert(packed_consumed(self.elem, rem0) == cn);
                        assert(is.remaining() =~= rem0.skip(cn));
                        assert(self.vec@.skip(orig_len) =~= appended0.push(v));
                        assert forall|vs: Seq<ReflectValueBox>|
                            #[trigger] packed_values(self.elem, is.remaining(), vs)
                                implies packed_values(
                            self.elem,
                            body,
                            self.vec@.skip(orig_len) + vs,
                        ) by {
                            assert((seq![v] + vs)[0] == v);
                            assert((seq![v] + vs).skip(1) =~= vs);
                            assert(packed_values(self.elem, rem0, seq![v] + vs));
                            assert(appended0 + (seq![v] + vs) =~= self.vec@.skip(orig_len)
                                + vs);
                        }
                        if packed_body_ok(self.elem, body) {
                            assert(packed_body_ok(self.elem, rem0));
                            assert(packed_body_ok(self.elem, is.remaining()));
                        }
                    }
                },
                Err(e) => {
                    proof {
                        if packed_body_ok(self.elem, body) {
                            assert(packed_body_ok(self.elem, rem0));
                            assert(!parse_fails_for(self.elem, rem0));
                            assert(false);
                        }
                    }
                    is.pop_limit(outer);
                    return Err(e);
                },
            }
        }
        proof {
            assert(packed_values(self.elem, is.remaining(), Seq::<ReflectValueBox>::empty()));
            assert(packed_values(
                self.elem,
                body,
                self.vec@.skip(orig_len) + Seq::<ReflectValueBox>::empty(),
            ));
            assert(self.vec@.skip(orig_len) + Seq::<ReflectValueBox>::empty() =~= self.vec@.skip(
                orig_len,
            ));
            assert(packed_values(self.elem, body, self.vec@.skip(orig_len)));
            assert(is.pos == old(is).pos + nvar + len);
        }
        is.pop_limit(outer);
        Ok(())
    }

    /// Wire size under `field_number`: each element's tag plus
    /// payload, summed in order.
    pub fn compute_size(&self, field_number: u32) -> (r: u32)
        requires
            self.wf(),
            1 <= field_number <= FIELD_NUMBER_MAX,
            self.enc(field_number).len() <= u32::MAX,
        ensures
            r == self.enc(field_number).len(),
        decreases *self,
    {
        let n = self.vec.len();
        let mut sum: u32 = 0;
        let mut i: usize = 0;
        while i < n
            invariant
                n == self.vec@.len(),
                0 <= i <= n,
                self.wf(),
                1 <= field_number <= FIELD_NUMBER_MAX,
                self.enc(field_number).len() <= u32::MAX,
                sum == enc_elems(self.vec@.take(i as int), field_number).len(),
            decreases n - i,
        {
            proof {
                lemma_enc_elems_split(self.vec@, i as int, field_number);
                lemma_tag_len(field_number, self.vec@[i as int].wire_type());
                lemma_enc_elems_push(
                    self.vec@.take(i as int),
                    self.vec@[i as int],
                    field_number,
                );
                assert(self.vec@.take(i + 1) =~= self.vec@.take(i as int).push(
                    self.vec@[i as int],
                ));
            }
            let v = &self.vec[i];
            let sz = tag_size(field_number) + v.compute_size();
            sum = sum + sz;
            i = i + 1;
        }
        proof {
            assert(self.vec@.take(n as int) =~= self.vec@);
        }
        sum
    }

    /// Emits every element under `field_number`, in order.
    pub fn write_to_with_cached_sizes(&self, os: &mut OutputStream, field_number: u32)
        requires
            self.wf(),
            1 <= field_number <= FIELD_NUMBER_MAX,
            self.enc(field_number).len() <= u32::MAX,
        ensures
            final(os).buf@ == old(os).buf@ + self.enc(field_number),
        decreases *self,
    {
        let ghost start = os.buf@;
        let n = self.vec.len();
        let mut i: usize = 0;
        while i < n
            invariant
                n == self.vec@.len(),
                0 <= i <= n,
                self.wf(),
                1 <= field_number <= FIELD_NUMBER_MAX,
                self.enc(field_number).len() <= u32::MAX,
                os.buf@ == start + enc_elems(self.vec@.take(i as int), field_number),
            decreases n - i,
        {
            proof {
                lemma_enc_elems_split(self.vec@, i as int, field_number);
                lemma_enc_elems_push(
                    self.vec@.take(i as int),
                    self.vec@[i as int],
                    field_number,
                );
                assert(self.vec@.take(i + 1) =~= self.vec@.take(i as int).push(
                    self.vec@[i as int],
                ));
            }
            let v = &self.vec[i];
            v.write_to_with_cached_sizes(os, field_number);
            proof {
                assert(os.buf@ =~= start + enc_elems(self.vec@.take(i + 1), field_number));
            }
            i = i + 1;
        }
        proof {
            assert(self.vec@.take(n as int) =~= self.vec@);
        }
    }
}

} // verus!
