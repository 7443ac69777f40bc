//! The dynamic message: a descriptor bound to one slot per field,
//! in descriptor order, plus unknown fields kept verbatim.

use vstd::prelude::*;
use std::sync::Arc;
use crate::descriptor::{share_descriptor, FieldDescriptor, MessageDescriptor, RuntimeFieldType,
    RuntimeType};
use crate::input::{InputStream, WireError};
use crate::map_slot::DynamicMap;
use crate::optional::DynamicOptional;
use crate::output::OutputStream;
use crate::repeated::DynamicRepeated;
use crate::unknown::UnknownFields;
use crate::value_box::{ReflectValueBox, ReflectValueMut, ReflectValueRef};
use crate::wire::{WireType, FIELD_NUMBER_MAX};

verus! {

/// Per-field storage cell: one of the three field shapes.
pub enum DynamicFieldValue {
    Singular(DynamicOptional),
    Repeated(DynamicRepeated),
    MapOf(DynamicMap),
}

impl DynamicFieldValue {
    /// The slot has the shape and element types its field
    /// descriptor declares, and is internally well formed.
    pub open spec fn matches_field(self, fd: FieldDescriptor) -> bool
        decreases self,
    {
        match (self, fd.field_type) {
            (DynamicFieldValue::Singular(o), RuntimeFieldType::Singular(t)) => o.elem == t
                && o.wf(),
            (DynamicFieldValue::Repeated(r), RuntimeFieldType::Repeated(t)) => r.elem == t
                && r.wf(),
            (DynamicFieldValue::MapOf(m), RuntimeFieldType::MapOf(k, v)) => m.key_elem == k
                && m.value_elem == v && m.wf(),
            _ => false,
        }
    }

    /// The slot is at its default: no value, no elements, no
    /// entries.
    pub open spec fn is_empty_slot(self) -> bool {
        match self {
            DynamicFieldValue::Singular(o) => o.value is None,
            DynamicFieldValue::Repeated(r) => r.vec@.len() == 0,
            DynamicFieldValue::MapOf(m) => m.entries@.len() == 0,
        }
    }

    /// Encoding of this slot under `field_number`; a default slot
    /// encodes to nothing.
    pub open spec fn enc(self, field_number: u32) -> Seq<u8>
        decreases self, 0int,
    {
        match self {
            DynamicFieldValue::Singular(o) => o.enc(field_number),
            DynamicFieldValue::Repeated(r) => r.enc(field_number),
            DynamicFieldValue::MapOf(m) => m.enc(field_number),
        }
    }

    /// Fresh slot at the default of its field's declared shape.
    pub fn default_for_field(fd: &FieldDescriptor) -> (r: DynamicFieldValue)
        requires
            fd.wf(),
        ensures
            r.matches_field(*fd),
            r.is_empty_slot(),
    {
        match &fd.field_type {
            RuntimeFieldType::Singular(t) => DynamicFieldValue::Singular(
                DynamicOptional::none(t.clone_type()),
            ),
            RuntimeFieldType::Repeated(t) => DynamicFieldValue::Repeated(
                DynamicRepeated::new(t.clone_type()),
            ),
            RuntimeFieldType::MapOf(k, v) => DynamicFieldValue::MapOf(
                DynamicMap::new(k.clone_type(), v.clone_type()),
            ),
        }
    }

    /// Returns the slot to its default.
    pub fn clear(&mut self)
        ensures
            final(self).is_empty_slot(),
            forall|fd: FieldDescriptor|
                old(self).matches_field(fd) ==> final(self).matches_field(fd),
    {
        match self {
            DynamicFieldValue::Singular(o) => o.clear(),
            DynamicFieldValue::Repeated(r) => r.clear(),
            DynamicFieldValue::MapOf(m) => m.clear(),
        }
    }

    /// Wire size of this slot under `field_number`.
    pub fn compute_size(&self, field_number: u32, Ghost(fd): Ghost<FieldDescriptor>) -> (r:
        u32)
        requires
            self.matches_field(fd),
            1 <= field_number <= FIELD_NUMBER_MAX,
            self.enc(field_number).len() <= u32::MAX,
        ensures
            r == self.enc(field_number).len(),
        decreases *self,
    {
        match self {
            DynamicFieldValue::Singular(o) => o.compute_size(field_number),
            DynamicFieldValue::Repeated(r) => r.compute_size(field_number),
            DynamicFieldValue::MapOf(m) => m.compute_size(field_number),
        }
    }

    /// Decodes what one tag announced into this slot: one value for
    /// a singular field, one element for a repeated field — or a
    /// whole packed run when a primitive repeated field arrives
    /// length-delimited — and one entry for a map field.
    pub fn merge_from(
        &mut self,
        is: &mut InputStream,
        wire_type: WireType,
        Ghost(fd): Ghost<FieldDescriptor>,
    ) -> (r: Result<(), WireError>)
        requires
            old(self).matches_field(fd),
            old(is).wf(),
        ensures
            final(is).wf(),
            final(is).same_buf(*old(is)),
            old(is).pos <= final(is).pos,
            final(self).matches_field(fd),
            r is Ok ==> final(is).pos > old(is).pos,
            *old(self) matches DynamicFieldValue::Singular(o0) ==> {
                &&& (r is Ok ==> (*final(self) matches DynamicFieldValue::Singular(o1)
                    && o1.value matches Some(v) && crate::value_box::parses_as(
                    o0.elem,
                    old(is).remaining(),
                    v,
                    final(is).pos - old(is).pos,
                )))
                &&& (r is Err ==> !crate::value_box::value_ok(o0.elem, old(is).remaining()))
            },
            *old(self) matches DynamicFieldValue::Repeated(r0) ==> {
                let packed = wire_type == WireType::LengthDelimited
                    && crate::descriptor::wire_for(r0.elem) != WireType::LengthDelimited;
                &&& (!packed && r is Ok ==> (*final(self) matches DynamicFieldValue::Repeated(
                    r1,
                ) && {
                    &&& r1.vec@.len() == r0.vec@.len() + 1
                    &&& r1.vec@.subrange(0, r0.vec@.len() as int) == r0.vec@
                    &&& crate::value_box::parses_as(
                        r0.elem,
                        old(is).remaining(),
                        r1.vec@.last(),
                        final(is).pos - old(is).pos,
                    )
                }))
                &&& (!packed && r is Err ==> !crate::value_box::value_ok(
                    r0.elem,
                    old(is).remaining(),
                ) && (*final(self) matches DynamicFieldValue::Repeated(r1) && r1.vec@
                    == r0.vec@))
                &&& (packed && r is Ok ==> (*final(self) matches DynamicFieldValue::Repeated(
                    r1,
                ) && (crate::wire::parse_varint(old(is).remaining()) matches Some((len, n))
                    && {
                    &&& n + len <= old(is).remaining().len()
                    &&& final(is).pos == old(is).pos + n + len
                    &&& r1.vec@.len() >= r0.vec@.len()
                    &&& r1.vec@.subrange(0, r0.vec@.len() as int) == r0.vec@
                    &&& crate::repeated::packed_values(
                        r0.elem,
                        old(is).remaining().subrange(n, n + len),
                        r1.vec@.skip(r0.vec@.len() as int),
                    )
                })))
                &&& (packed && r is Err ==> (crate::wire::parse_varint(old(is).remaining())
                    is None || (crate::wire::parse_varint(old(is).remaining()) matches Some(
                    (len, n),
                ) && (n + len > old(is).remaining().len() || !crate::repeated::packed_body_ok(
                    r0.elem,
                    old(is).remaining().subrange(n, n + len),
                )))))
            },
            *old(self) matches DynamicFieldValue::MapOf(m0) ==> {
                &&& (r is Ok ==> (*final(self) matches DynamicFieldValue::MapOf(m1) && (
                crate::wire::parse_varint(old(is).remaining()) matches Some((len, n)) && {
                    &&& n + len <= old(is).remaining().len()
                    &&& final(is).pos == old(is).pos + n + len
                    &&& exists|
                        ko: Option<ReflectValueBox>,
                        vo: Option<ReflectValueBox>,
                        k: ReflectValueBox,
                        v: ReflectValueBox,
                    |
                        #![trigger crate::map_slot::entry_rel(
                            m0.key_elem,
                            m0.value_elem,
                            old(is).remaining().subrange(n, n + len),
                            None,
                            None,
                            ko,
                            vo,
                        ), crate::map_slot::inserted_entry(m0.entries@, m1.entries@, k, v)]
                        {
                            &&& crate::map_slot::entry_rel(
                                m0.key_elem,
                                m0.value_elem,
                                old(is).remaining().subrange(n, n + len),
                                None,
                                None,
                                ko,
                                vo,
                            )
                            &&& (ko matches Some(k0) ==> k == k0)
                            &&& (ko is None ==> k.is_default_value())
                            &&& (vo matches Some(v0) ==> v == v0)
                            &&& (vo is None ==> v.is_default_value())
                            &&& k.wf()
                            &&& k.value_type() == m0.key_elem
                            &&& v.wf()
                            &&& v.value_type() == m0.value_elem
                            &&& crate::map_slot::inserted_entry(m0.entries@, m1.entries@, k, v)
                        }
                })))
                &&& (r is Err ==> (*final(self) matches DynamicFieldValue::MapOf(m1)
                    && m1.entries@ == m0.entries@) && (crate::wire::parse_varint(
                    old(is).remaining(),
                ) is None || (crate::wire::parse_varint(old(is).remaining()) matches Some(
                    (len, n),
                ) && (n + len > old(is).remaining().len() || !crate::map_slot::entry_ok(
                    m0.key_elem,
                    m0.value_elem,
                    old(is).remaining().subrange(n, n + len),
                )))))
            },
        decreases old(is).limit - old(is).pos, 2int,
    {
        match self {
            DynamicFieldValue::Singular(o) => o.merge_from(is),
            DynamicFieldValue::MapOf(m) => m.merge_from(is),
            DynamicFieldValue::Repeated(rep) => {
                let packed = wire_type == WireType::LengthDelimited && !(
                crate::descriptor::runtime_wire_type(&rep.elem)
                    == WireType::LengthDelimited);
                if packed {
                    rep.merge_packed_from(is)
                } else {
                    rep.merge_from(is)
                }
            },
        }
    }

    /// Emits this slot under `field_number`.
    pub fn write_to_with_cached_sizes(
        &self,
        os: &mut OutputStream,
        field_number: u32,
        Ghost(fd): Ghost<FieldDescriptor>,
    )
        requires
            self.matches_field(fd),
            1 <= field_number <= FIELD_NUMBER_MAX,
            self.enc(field_number).len() <= u32::MAX,
        ensures
            final(os).buf@ == old(os).buf@ + self.enc(field_number),
        decreases *self,
    {
        match self {
            DynamicFieldValue::Singular(o) => o.write_to_with_cached_sizes(os, field_number),
            DynamicFieldValue::Repeated(r) => r.write_to_with_cached_sizes(os, field_number),
            DynamicFieldValue::MapOf(m) => m.write_to_with_cached_sizes(os, field_number),
        }
    }
}

/// Each slot carries its descriptor field's number and shape, in
/// descriptor order.
pub open spec fn wf_slots(s: Seq<(u32, DynamicFieldValue)>, ds: Seq<FieldDescriptor>) -> bool
    decreases s,
{
    if s.len() != ds.len() {
        false
    } else if s.len() == 0 {
        true
    } else {
        s[0].0 == ds[0].number && s[0].1.matches_field(ds[0]) && wf_slots(s.skip(1), ds.skip(1))
    }
}

/// What `wf_slots` says of each position.
pub proof fn lemma_wf_slots_index(s: Seq<(u32, DynamicFieldValue)>, ds: Seq<FieldDescriptor>, i: int)
    requires
        wf_slots(s, ds),
        0 <= i < s.len(),
    ensures
        s.len() == ds.len(),
        s[i].0 == ds[i].number,
        s[i].1.matches_field(ds[i]),
    decreases i,
{
    if i > 0 {
        lemma_wf_slots_index(s.skip(1), ds.skip(1), i - 1);
    }
}

/// Extending matched slot and descriptor runs in step keeps them
/// matched.
pub proof fn lemma_wf_slots_push(
    s: Seq<(u32, DynamicFieldValue)>,
    ds: Seq<FieldDescriptor>,
    x: (u32, DynamicFieldValue),
    fd: FieldDescriptor,
)
    requires
        wf_slots(s, ds),
        x.0 == fd.number,
        x.1.matches_field(fd),
    ensures
        wf_slots(s.push(x), ds.push(fd)),
    decreases s.len(),
{
    if s.len() == 0 {
        assert(s.push(x).skip(1) =~= s);
        assert(ds.push(fd).skip(1) =~= ds);
    } else {
        lemma_wf_slots_push(s.skip(1), ds.skip(1), x, fd);
        assert(s.push(x).skip(1) =~= s.skip(1).push(x));
        assert(ds.push(fd).skip(1) =~= ds.skip(1).push(fd));
    }
}

/// Updating one slot to another match of the same field keeps the
/// runs matched.
pub proof fn lemma_wf_slots_update(
    s: Seq<(u32, DynamicFieldValue)>,
    ds: Seq<FieldDescriptor>,
    i: int,
    slot: DynamicFieldValue,
)
    requires
        wf_slots(s, ds),
        0 <= i < s.len(),
        slot.matches_field(ds[i]),
    ensures
        wf_slots(s.update(i, (s[i].0, slot)), ds),
    decreases i,
{
    lemma_wf_slots_index(s, ds, i);
    if i == 0 {
        assert(s.update(0, (s[0].0, slot)).skip(1) =~= s.skip(1));
    } else {
        lemma_wf_slots_update(s.skip(1), ds.skip(1), i - 1, slot);
        assert(s.update(i, (s[i].0, slot)).skip(1) =~= s.skip(1).update(
            i - 1,
            (s.skip(1)[i - 1].0, slot),
        ));
    }
}

/// Encoding of a run of slots, each under its recorded field
/// number, in descriptor order.
pub open spec fn enc_slot_seq(s: Seq<(u32, DynamicFieldValue)>) -> Seq<u8>
    decreases s, 0int,
{
    if s.len() == 0 {
        Seq::empty()
    } else {
        s[0].1.enc(s[0].0) + enc_slot_seq(s.skip(1))
    }
}

/// The encoding of concatenated runs is the concatenation of their
/// encodings.
pub proof fn lemma_enc_slot_seq_concat(
    s: Seq<(u32, DynamicFieldValue)>,
    t: Seq<(u32, DynamicFieldValue)>,
)
    ensures
        enc_slot_seq(s + t) == enc_slot_seq(s) + enc_slot_seq(t),
    decreases s.len(),
{
    if s.len() == 0 {
        assert(s + t =~= t);
        assert(enc_slot_seq(s) + enc_slot_seq(t) =~= enc_slot_seq(t));
    } else {
        assert((s + t).skip(1) =~= s.skip(1) + t);
        lemma_enc_slot_seq_concat(s.skip(1), t);
        assert(enc_slot_seq(s + t) =~= enc_slot_seq(s) + enc_slot_seq(t));
    }
}

/// Appending one slot appends its encoding.
pub proof fn lemma_enc_slot_seq_push(
    s: Seq<(u32, DynamicFieldValue)>,
    number: u32,
    slot: DynamicFieldValue,
)
    ensures
        enc_slot_seq(s.push((number, slot))) == enc_slot_seq(s) + slot.enc(number),
{
    assert(s.push((number, slot)) =~= s + seq![(number, slot)]);
    lemma_enc_slot_seq_concat(s, seq![(number, slot)]);
    assert(enc_slot_seq(seq![(number, slot)].skip(1)) == Seq::<u8>::empty());
    assert(enc_slot_seq(seq![(number, slot)]) =~= slot.enc(number));
}

/// The run around position `i` splits into what precedes it, its
/// own slot, and what follows.
pub proof fn lemma_enc_slot_seq_split(s: Seq<(u32, DynamicFieldValue)>, i: int)
    requires
        0 <= i < s.len(),
    ensures
        enc_slot_seq(s) == enc_slot_seq(s.take(i)) + s[i].1.enc(s[i].0) + enc_slot_seq(
            s.skip(i + 1),
        ),
{
    assert(s =~= s.take(i) + s.skip(i));
    lemma_enc_slot_seq_concat(s.take(i), s.skip(i));
    assert(s.skip(i)[0] == s[i]);
    assert(s.skip(i).skip(1) =~= s.skip(i + 1));
    assert(enc_slot_seq(s.skip(i)) == s[i].1.enc(s[i].0) + enc_slot_seq(s.skip(i + 1)));
}

/// A message whose schema is known only through its descriptor: one
/// slot per descriptor field, unknown fields kept verbatim, and the
/// size last computed.
pub struct DynamicMessage {
    pub descriptor: Arc<MessageDescriptor>,
    pub fields: Vec<(u32, DynamicFieldValue)>,
    pub unknown_fields: UnknownFields,
    pub cached_size: u32,
}

impl DynamicMessage {
    /// The descriptor is well formed; the slot array is either still
    /// unmaterialized or matches the descriptor field for field.
    pub open spec fn wf(self) -> bool
        decreases self,
    {
        &&& self.descriptor.wf()
        &&& self.unknown_fields.wf()
        &&& (self.fields@.len() == 0 || wf_slots(self.fields@, self.descriptor.fields@))
    }

    /// Encoding of the whole message: each slot in descriptor order,
    /// then the unknown fields. An unmaterialized slot array, like
    /// an array of default slots, contributes nothing.
    pub open spec fn enc(self) -> Seq<u8>
        decreases self, 0int,
    {
        enc_slot_seq(self.fields@) + self.unknown_fields.enc()
    }

    /// Fresh message of the given descriptor: no slot materialized,
    /// no unknown fields.
    pub fn new(descriptor: Arc<MessageDescriptor>) -> (r: DynamicMessage)
        ensures
            r.descriptor == descriptor,
            r.fields@ == Seq::<(u32, DynamicFieldValue)>::empty(),
            r.unknown_fields.entries@ == Seq::<(u32, crate::unknown::UnknownValue)>::empty(),
            r.cached_size == 0,
            descriptor.wf() ==> r.wf(),
            r.enc() == Seq::<u8>::empty(),
    {
        let r = DynamicMessage {
            descriptor,
            fields: Vec::new(),
            unknown_fields: UnknownFields::new(),
            cached_size: 0,
        };
        assert(r.enc() =~= Seq::<u8>::empty());
        r
    }

    /// Materializes the slot array in descriptor order; a no-op once
    /// it exists. Every fresh slot is at its default, so the
    /// message's encoding and reflective observations do not change.
    pub fn init_fields(&mut self)
        requires
            old(self).wf(),
        ensures
            final(self).wf(),
            final(self).descriptor == old(self).descriptor,
            final(self).unknown_fields == old(self).unknown_fields,
            final(self).cached_size == old(self).cached_size,
            old(self).fields@.len() != 0 ==> final(self).fields@ == old(self).fields@,
            old(self).fields@.len() == 0 ==> {
                &&& final(self).fields@.len() == old(self).descriptor.fields@.len()
                &&& forall|i: int|
                    0 <= i < final(self).fields@.len() ==> (#[trigger] final(self).fields@[i]).1.is_empty_slot()
            },
            final(self).enc() == old(self).enc(),
            forall|i: int|
                0 <= i < old(self).descriptor.fields@.len()
                    ==> #[trigger] final(self).observe_field(i) == old(self).observe_field(i),
    {
        if self.fields.len() == 0 {
            let ghost ds = self.descriptor.fields@;
            let n = self.descriptor.fields.len();
            let mut fields: Vec<(u32, DynamicFieldValue)> = Vec::new();
            let mut i: usize = 0;
            while i < n
                invariant
                    n == self.descriptor.fields@.len(),
                    ds == self.descriptor.fields@,
                    self.descriptor.wf(),
                    0 <= i <= n,
                    fields@.len() == i,
                    wf_slots(fields@, ds.take(i as int)),
                    forall|j: int|
                        0 <= j < i ==> (#[trigger] fields@[j]).1.is_empty_slot(),
                    enc_slot_seq(fields@) == Seq::<u8>::empty(),
                decreases n - i,
            {
                let fd = &self.descriptor.fields[i];
                assert(self.descriptor.fields@[i as int].wf());
                let slot = DynamicFieldValue::default_for_field(fd);
                proof {
                    lemma_wf_slots_push(
                        fields@,
                        ds.take(i as int),
                        (fd.number, slot),
                        ds[i as int],
                    );
                    assert(ds.take(i + 1) =~= ds.take(i as int).push(ds[i as int]));
                    lemma_enc_slot_seq_push(fields@, fd.number, slot);
                    lemma_empty_slot_enc(slot, fd.number);
                }
                fields.push((fd.number, slot));
                i = i + 1;
            }
            proof {
                assert(ds.take(n as int) =~= ds);
            }
            self.fields = fields;
            assert(self.enc() =~= old(self).enc());
            proof {
                assert forall|k: int|
                    0 <= k < self.descriptor.fields@.len() implies #[trigger] self.observe_field(
                    k,
                ) == old(self).observe_field(k) by {
                    lemma_wf_slots_index(self.fields@, self.descriptor.fields@, k);
                    assert(self.fields@[k].1.is_empty_slot());
                    assert(self.fields@[k].1.matches_field(self.descriptor.fields@[k]));
                    if self.fields@[k].1 is Repeated {
                        assert(self.fields@[k].1->Repeated_0.vec@ =~= Seq::<
                            ReflectValueBox,
                        >::empty());
                    }
                    if self.fields@[k].1 is MapOf {
                        assert(self.fields@[k].1->MapOf_0.entries@ =~= Seq::<
                            (ReflectValueBox, ReflectValueBox),
                        >::empty());
                    }
                }
            }
        }
    }

    /// Wire size of the whole message: every slot's contribution
    /// plus the unknown fields.
    pub fn encoded_size(&self) -> (r: u32)
        requires
            self.wf(),
            self.enc().len() <= u32::MAX,
        ensures
            r == self.enc().len(),
        decreases *self,
    {
        let n = self.fields.len();
        let mut sum: u32 = 0;
        let mut i: usize = 0;
        while i < n
            invariant
                n == self.fields@.len(),
                0 <= i <= n,
                self.wf(),
                self.enc().len() <= u32::MAX,
                n != 0 ==> wf_slots(self.fields@, self.descriptor.fields@),
                sum == enc_slot_seq(self.fields@.take(i as int)).len(),
            decreases n - i,
        {
            proof {
                lemma_wf_slots_index(self.fields@, self.descriptor.fields@, i as int);
                lemma_enc_slot_seq_split(self.fields@, i as int);
                lemma_enc_slot_seq_push(
                    self.fields@.take(i as int),
                    self.fields@[i as int].0,
                    self.fields@[i as int].1,
                );
                assert(self.fields@.take(i + 1) =~= self.fields@.take(i as int).push(
                    self.fields@[i as int],
                ));
            }
            let pair = &self.fields[i];
            let sz = pair.1.compute_size(
                pair.0,
                Ghost(self.descriptor.fields@[i as int]),
            );
            sum = sum + sz;
            i = i + 1;
        }
        proof {
            assert(self.fields@.take(n as int) =~= self.fields@);
        }
        sum + self.unknown_fields.compute_size()
    }

    /// Computes the wire size and stashes it as the cached size; the
    /// message is otherwise untouched. The result equals the length
    /// of the byte vector `write_to_bytes` returns: both are pinned
    /// to the same encoding.
    pub fn compute_size(&mut self) -> (r: u32)
        requires
            old(self).wf(),
            old(self).enc().len() <= u32::MAX,
        ensures
            r == old(self).enc().len(),
            final(self).descriptor == old(self).descriptor,
            final(self).fields == old(self).fields,
            final(self).unknown_fields == old(self).unknown_fields,
            final(self).cached_size == r,
            final(self).wf(),
            final(self).enc() == old(self).enc(),
    {
        let size = self.encoded_size();
        self.cached_size = size;
        size
    }

    /// The size stashed by the last `compute_size`; meaningful only
    /// immediately after it.
    pub fn get_cached_size(&self) -> (r: u32)
        ensures
            r == self.cached_size,
    {
        self.cached_size
    }

    /// Emits every slot in descriptor order, then the unknown
    /// fields.
    pub fn write_to_with_cached_sizes(&self, os: &mut OutputStream)
        requires
            self.wf(),
            self.enc().len() <= u32::MAX,
        ensures
            final(os).buf@ == old(os).buf@ + self.enc(),
        decreases *self,
    {
        let ghost start = os.buf@;
        let n = self.fields.len();
        let mut i: usize = 0;
        while i < n
            invariant
                n == self.fields@.len(),
                0 <= i <= n,
                self.wf(),
                self.enc().len() <= u32::MAX,
                n != 0 ==> wf_slots(self.fields@, self.descriptor.fields@),
                os.buf@ == start + enc_slot_seq(self.fields@.take(i as int)),
            decreases n - i,
        {
            proof {
                lemma_wf_slots_index(self.fields@, self.descriptor.fields@, i as int);
                lemma_enc_slot_seq_split(self.fields@, i as int);
                lemma_enc_slot_seq_push(
                    self.fields@.take(i as int),
                    self.fields@[i as int].0,
                    self.fields@[i as int].1,
                );
                assert(self.fields@.take(i + 1) =~= self.fields@.take(i as int).push(
                    self.fields@[i as int],
                ));
            }
            let pair = &self.fields[i];
            pair.1.write_to_with_cached_sizes(
                os,
                pair.0,
                Ghost(self.descriptor.fields@[i as int]),
            );
            proof {
                assert(os.buf@ =~= start + enc_slot_seq(self.fields@.take(i + 1)));
            }
            i = i + 1;
        }
        proof {
            assert(self.fields@.take(n as int) =~= self.fields@);
        }
        self.unknown_fields.write_to(os);
        assert(os.buf@ =~= old(os).buf@ + self.enc());
    }

    /// Emits the whole message: every slot in descriptor order, then
    /// the unknown fields. Sizes are computed as needed, so no prior
    /// `compute_size` call is required.
    pub fn write_to(&self, os: &mut OutputStream)
        requires
            self.wf(),
            self.enc().len() <= u32::MAX,
        ensures
            final(os).buf@ == old(os).buf@ + self.enc(),
    {
        self.write_to_with_cached_sizes(os);
    }

    /// Encodes the whole message into a fresh byte vector.
    pub fn write_to_bytes(&self) -> (r: Vec<u8>)
        requires
            self.wf(),
            self.enc().len() <= u32::MAX,
        ensures
            r@ == self.enc(),
    {
        let mut os = OutputStream::new();
        self.write_to_with_cached_sizes(&mut os);
        assert(os.buf@ =~= self.enc());
        os.buf
    }

    /// The shared descriptor this message was built from.
    pub fn descriptor_by_instance(&self) -> (r: Arc<MessageDescriptor>)
        ensures
            r == self.descriptor,
    {
        share_descriptor(&self.descriptor)
    }

    /// Required-field validation is an external collaborator's
    /// responsibility; the core accepts every message.
    pub fn is_initialized(&self) -> (r: bool)
        ensures
            r,
    {
        true
    }

    /// The unknown fields read so far.
    pub fn get_unknown_fields(&self) -> (r: &UnknownFields)
        ensures
            *r == self.unknown_fields,
    {
        &self.unknown_fields
    }

    /// Mutable access to the unknown fields.
    pub fn mut_unknown_fields(&mut self) -> (r: &mut UnknownFields)
        ensures
            *r == old(self).unknown_fields,
            final(self).descriptor == old(self).descriptor,
            final(self).fields == old(self).fields,
            final(self).cached_size == old(self).cached_size,
            final(self).unknown_fields == *final(r),
    {
        &mut self.unknown_fields
    }
}

/// What one field shows through reflection: the slot's contents, or
/// the declared default shape while no slot is materialized.
pub enum FieldObservation {
    ObsSingular(Option<ReflectValueBox>),
    ObsRepeated(Seq<ReflectValueBox>),
    ObsMap(Seq<(ReflectValueBox, ReflectValueBox)>),
}

impl FieldObservation {
    /// The observation of a field at its default.
    pub open spec fn is_empty_obs(self) -> bool {
        match self {
            FieldObservation::ObsSingular(v) => v is None,
            FieldObservation::ObsRepeated(s) => s.len() == 0,
            FieldObservation::ObsMap(s) => s.len() == 0,
        }
    }
}

/// Borrowed view of one field: a singular value or its absence, or
/// the repeated or map container. `None` inside the container
/// variants is the unmaterialized field, observed empty.
pub enum ReflectFieldRef<'a> {
    Optional(Option<ReflectValueRef<'a>>),
    Repeated(Option<&'a DynamicRepeated>),
    MapOf(Option<&'a DynamicMap>),
}

/// The borrowed view `r` shows exactly the observation `obs`.
pub open spec fn ref_shows(r: ReflectFieldRef, obs: FieldObservation) -> bool {
    match (r, obs) {
        (ReflectFieldRef::Optional(None), FieldObservation::ObsSingular(v)) => v is None,
        (
            ReflectFieldRef::Optional(Some(rv)),
            FieldObservation::ObsSingular(v),
        ) => v matches Some(b) && b.ref_matches(rv),
        (ReflectFieldRef::Repeated(None), FieldObservation::ObsRepeated(s)) => s.len() == 0,
        (ReflectFieldRef::Repeated(Some(rep)), FieldObservation::ObsRepeated(s)) => rep.vec@
            == s,
        (ReflectFieldRef::MapOf(None), FieldObservation::ObsMap(s)) => s.len() == 0,
        (ReflectFieldRef::MapOf(Some(m)), FieldObservation::ObsMap(s)) => m.entries@ == s,
        _ => false,
    }
}

impl DynamicMessage {
    /// What field `i` shows through reflection. An unmaterialized
    /// slot array shows every field at its declared default, so the
    /// two forms are observationally the same.
    pub open spec fn observe_field(self, i: int) -> FieldObservation {
        if self.fields@.len() == 0 {
            match self.descriptor.fields@[i].field_type {
                RuntimeFieldType::Singular(_) => FieldObservation::ObsSingular(None),
                RuntimeFieldType::Repeated(_) => FieldObservation::ObsRepeated(Seq::empty()),
                RuntimeFieldType::MapOf(_, _) => FieldObservation::ObsMap(Seq::empty()),
            }
        } else {
            match self.fields@[i].1 {
                DynamicFieldValue::Singular(o) => FieldObservation::ObsSingular(o.value),
                DynamicFieldValue::Repeated(r) => FieldObservation::ObsRepeated(r.vec@),
                DynamicFieldValue::MapOf(m) => FieldObservation::ObsMap(m.entries@),
            }
        }
    }

    /// Fields `i` and `j` are distinct members of one oneof group.
    pub open spec fn same_oneof(self, i: int, j: int) -> bool {
        &&& i != j
        &&& self.descriptor.fields@[i].oneof is Some
        &&& self.descriptor.fields@[i].oneof == self.descriptor.fields@[j].oneof
    }

    /// Borrowed view of field `field_index`: the field's declared
    /// default shape while no slot array exists, else a view into
    /// the slot.
    pub fn get_reflect(&self, field_index: usize) -> (r: ReflectFieldRef<'_>)
        requires
            self.wf(),
            field_index < self.descriptor.fields@.len(),
        ensures
            ref_shows(r, self.observe_field(field_index as int)),
    {
        if self.fields.len() == 0 {
            match &self.descriptor.fields[field_index].field_type {
                RuntimeFieldType::Singular(_) => ReflectFieldRef::Optional(None),
                RuntimeFieldType::Repeated(_) => ReflectFieldRef::Repeated(None),
                RuntimeFieldType::MapOf(_, _) => ReflectFieldRef::MapOf(None),
            }
        } else {
            proof {
                lemma_wf_slots_index(
                    self.fields@,
                    self.descriptor.fields@,
                    field_index as int,
                );
            }
            match &self.fields[field_index].1 {
                DynamicFieldValue::Singular(o) => ReflectFieldRef::Optional(o.get()),
                DynamicFieldValue::Repeated(rep) => ReflectFieldRef::Repeated(Some(rep)),
                DynamicFieldValue::MapOf(m) => ReflectFieldRef::MapOf(Some(m)),
            }
        }
    }

    /// Returns field `field_index` to its default; a cheap no-op
    /// while no slot array exists.
    pub fn clear_field(&mut self, field_index: usize)
        requires
            old(self).wf(),
            field_index < old(self).descriptor.fields@.len(),
        ensures
            final(self).wf(),
            final(self).descriptor == old(self).descriptor,
            final(self).unknown_fields == old(self).unknown_fields,
            final(self).fields@.len() == old(self).fields@.len(),
            final(self).observe_field(field_index as int).is_empty_obs(),
            forall|j: int|
                0 <= j < old(self).descriptor.fields@.len() && j != field_index
                    ==> #[trigger] final(self).observe_field(j) == old(self).observe_field(j),
    {
        if self.fields.len() == 0 {
            return ;
        }
        proof {
            lemma_wf_slots_index(self.fields@, self.descriptor.fields@, field_index as int);
        }
        let pair = &mut self.fields[field_index];
        pair.1.clear();
        proof {
            lemma_wf_slots_update(
                old(self).fields@,
                old(self).descriptor.fields@,
                field_index as int,
                self.fields@[field_index as int].1,
            );
            assert(self.fields@ =~= old(self).fields@.update(
                field_index as int,
                (old(self).fields@[field_index as int].0, self.fields@[field_index as int].1),
            ));
        }
    }
}

impl DynamicMessage {
    /// Clears every other member of `field_index`'s oneof group, so
    /// that at most this one member is populated. A field outside
    /// any group leaves the message as it is.
    fn clear_oneof_group_fields_except(&mut self, field_index: usize)
        requires
            old(self).wf(),
            field_index < old(self).descriptor.fields@.len(),
            old(self).fields@.len() == old(self).descriptor.fields@.len(),
        ensures
            final(self).wf(),
            final(self).descriptor == old(self).descriptor,
            final(self).unknown_fields == old(self).unknown_fields,
            final(self).fields@.len() == old(self).fields@.len(),
            final(self).fields@[field_index as int] == old(self).fields@[field_index as int],
            forall|j: int|
                0 <= j < old(self).fields@.len() && old(self).same_oneof(field_index as int, j)
                    ==> (#[trigger] final(self).fields@[j]).1.is_empty_slot(),
            forall|j: int|
                0 <= j < old(self).fields@.len() && !old(self).same_oneof(field_index as int, j)
                    ==> #[trigger] final(self).fields@[j] == old(self).fields@[j],
            forall|j: int|
                0 <= j < old(self).fields@.len() && old(self).same_oneof(field_index as int, j)
                    ==> (#[trigger] final(self).observe_field(j)).is_empty_obs(),
            forall|j: int|
                0 <= j < old(self).fields@.len() && !old(self).same_oneof(field_index as int, j)
                    ==> #[trigger] final(self).observe_field(j) == old(self).observe_field(j),
    {
        let my_oneof = match self.descriptor.fields[field_index].oneof {
            Some(g) => g,
            None => {
                return ;
            },
        };
        let n = self.fields.len();
        let mut j: usize = 0;
        while j < n
            invariant
                old(self).wf(),
                self.wf(),
                n == self.fields@.len(),
                0 <= j <= n,
                field_index < n,
                n == self.descriptor.fields@.len(),
                self.descriptor == old(self).descriptor,
                self.unknown_fields == old(self).unknown_fields,
                self.cached_size == old(self).cached_size,
                old(self).descriptor.fields@[field_index as int].oneof == Some(my_oneof),
                self.fields@[field_index as int] == old(self).fields@[field_index as int],
                forall|l: int|
                    0 <= l < j && old(self).same_oneof(field_index as int, l) ==> (
                    #[trigger] self.fields@[l]).1.is_empty_slot(),
                forall|l: int|
                    0 <= l < n && !(l < j && old(self).same_oneof(field_index as int, l))
                        ==> #[trigger] self.fields@[l] == old(self).fields@[l],
            decreases n - j,
        {
            let in_group = j != field_index && (match self.descriptor.fields[j].oneof {
                Some(g) => g == my_oneof,
                None => false,
            });
            if in_group {
                proof {
                    lemma_wf_slots_index(self.fields@, self.descriptor.fields@, j as int);
                }
                let ghost pre = self.fields@;
                let pair = &mut self.fields[j];
                pair.1.clear();
                proof {
                    assert(self.fields@ =~= pre.update(
                        j as int,
                        (pre[j as int].0, self.fields@[j as int].1),
                    ));
                    lemma_wf_slots_update(
                        pre,
                        self.descriptor.fields@,
                        j as int,
                        self.fields@[j as int].1,
                    );
                }
            }
            j = j + 1;
        }
        proof {
            assert forall|l: int|
                0 <= l < n && old(self).same_oneof(field_index as int, l) implies (
            #[trigger] self.observe_field(l)).is_empty_obs() by {
                assert(self.fields@[l].1.is_empty_slot());
            }
            assert forall|l: int|
                0 <= l < n && !old(self).same_oneof(field_index as int, l) implies
                #[trigger] self.observe_field(l) == old(self).observe_field(l) by {
                assert(self.fields@[l] == old(self).fields@[l]);
            }
        }
    }

    /// Replaces the singular field `field_index` with `value`,
    /// materializing slots first and clearing every sibling in the
    /// field's oneof group. A non-singular field or a value of the
    /// wrong type is a precondition violation.
    pub fn set_field(&mut self, field_index: usize, value: ReflectValueBox)
        requires
            old(self).wf(),
            field_index < old(self).descriptor.fields@.len(),
            old(self).descriptor.fields@[field_index as int].field_type
                matches RuntimeFieldType::Singular(t) && value.value_type() == t,
            value.wf(),
        ensures
            final(self).wf(),
            final(self).descriptor == old(self).descriptor,
            final(self).unknown_fields == old(self).unknown_fields,
            final(self).fields@.len() == old(self).descriptor.fields@.len(),
            final(self).observe_field(field_index as int) == FieldObservation::ObsSingular(
                Some(value),
            ),
            forall|j: int|
                0 <= j < old(self).descriptor.fields@.len() && old(self).same_oneof(
                    field_index as int,
                    j,
                ) ==> (#[trigger] final(self).observe_field(j)).is_empty_obs(),
            forall|j: int|
                0 <= j < old(self).descriptor.fields@.len() && j != field_index && !old(self).same_oneof(field_index as int, j) ==> #[trigger] final(self).observe_field(j)
                    == old(self).observe_field(j),
    {
        self.init_fields();
        self.clear_oneof_group_fields_except(field_index);
        proof {
            lemma_wf_slots_index(self.fields@, self.descriptor.fields@, field_index as int);
        }
        let ghost m1 = *self;
        let pair = &mut self.fields[field_index];
        match &mut pair.1 {
            DynamicFieldValue::Singular(o) => o.set(value),
            _ => vstd::pervasive::unreached(),
        }
        proof {
            lemma_wf_slots_update(
                m1.fields@,
                self.descriptor.fields@,
                field_index as int,
                self.fields@[field_index as int].1,
            );
            assert(self.fields@ =~= m1.fields@.update(
                field_index as int,
                (m1.fields@[field_index as int].0, self.fields@[field_index as int].1),
            ));
            assert forall|j: int|
                0 <= j < self.descriptor.fields@.len() && j != field_index implies
                #[trigger] self.observe_field(j) == m1.observe_field(j) by {
                assert(self.fields@[j] == m1.fields@[j]);
            }
            assert(self.observe_field(field_index as int) == FieldObservation::ObsSingular(
                Some(value),
            ));
        }
    }

    /// Mutable access to the repeated field `field_index`,
    /// materializing slots first. The caller re-establishes the
    /// message's well-formedness by leaving the container well
    /// formed with its declared element type; `wf_slots` then
    /// follows by `lemma_wf_slots_from_index`.
    pub fn mut_repeated(&mut self, field_index: usize) -> (r: &mut DynamicRepeated)
        requires
            old(self).wf(),
            field_index < old(self).descriptor.fields@.len(),
            old(self).descriptor.fields@[field_index as int].field_type
                matches RuntimeFieldType::Repeated(_),
        ensures
            r.elem == old(self).descriptor.fields@[field_index as int].field_type->Repeated_0,
            r.wf(),
            old(self).fields@.len() != 0 ==> DynamicFieldValue::Repeated(*r) == old(self).fields@[field_index as int].1,
            old(self).fields@.len() == 0 ==> r.vec@.len() == 0,
            final(self).descriptor == old(self).descriptor,
            final(self).unknown_fields == old(self).unknown_fields,
            final(self).fields@.len() == old(self).descriptor.fields@.len(),
            final(self).fields@[field_index as int].0 == old(self).descriptor.fields@[
                field_index as int].number,
            final(self).fields@[field_index as int].1 == DynamicFieldValue::Repeated(
                *final(r),
            ),
            forall|j: int|
                0 <= j < old(self).descriptor.fields@.len() && j != field_index
                    ==> (#[trigger] final(self).fields@[j]).1.matches_field(
                    old(self).descriptor.fields@[j],
                ) && final(self).fields@[j].0 == old(self).descriptor.fields@[j].number,
            old(self).fields@.len() != 0 ==> forall|j: int|
                0 <= j < old(self).fields@.len() && j != field_index
                    ==> #[trigger] final(self).fields@[j] == old(self).fields@[j],
            old(self).fields@.len() == 0 ==> forall|j: int|
                0 <= j < old(self).descriptor.fields@.len() && j != field_index
                    ==> (#[trigger] final(self).fields@[j]).1.is_empty_slot(),
    {
        self.init_fields();
        proof {
            lemma_wf_slots_index(self.fields@, self.descriptor.fields@, field_index as int);
            assert forall|j: int|
                0 <= j < self.fields@.len() implies (#[trigger] self.fields@[j]).1.matches_field(
                self.descriptor.fields@[j],
            ) && self.fields@[j].0 == self.descriptor.fields@[j].number by {
                lemma_wf_slots_index(self.fields@, self.descriptor.fields@, j);
            }
        }
        let pair = &mut self.fields[field_index];
        match &mut pair.1 {
            DynamicFieldValue::Repeated(rep) => rep,
            _ => vstd::pervasive::unreached(),
        }
    }

    /// Mutable access to the map field `field_index`, materializing
    /// slots first. The caller re-establishes the message's
    /// well-formedness by leaving the container well formed with its
    /// declared key and value types; `wf_slots` then follows by
    /// `lemma_wf_slots_from_index`.
    pub fn mut_map(&mut self, field_index: usize) -> (r: &mut DynamicMap)
        requires
            old(self).wf(),
            field_index < old(self).descriptor.fields@.len(),
            old(self).descriptor.fields@[field_index as int].field_type
                matches RuntimeFieldType::MapOf(_, _),
        ensures
            r.key_elem == old(self).descriptor.fields@[field_index as int].field_type
                ->MapOf_0,
            r.value_elem == old(self).descriptor.fields@[field_index as int].field_type
                ->MapOf_1,
            r.wf(),
            old(self).fields@.len() != 0 ==> DynamicFieldValue::MapOf(*r) == old(self).fields@[field_index as int].1,
            old(self).fields@.len() == 0 ==> r.entries@.len() == 0,
            final(self).descriptor == old(self).descriptor,
            final(self).unknown_fields == old(self).unknown_fields,
            final(self).fields@.len() == old(self).descriptor.fields@.len(),
            final(self).fields@[field_index as int].0 == old(self).descriptor.fields@[
                field_index as int].number,
            final(self).fields@[field_index as int].1 == DynamicFieldValue::MapOf(*final(r)),
            forall|j: int|
                0 <= j < old(self).descriptor.fields@.len() && j != field_index
                    ==> (#[trigger] final(self).fields@[j]).1.matches_field(
                    old(self).descriptor.fields@[j],
                ) && final(self).fields@[j].0 == old(self).descriptor.fields@[j].number,
            old(self).fields@.len() != 0 ==> forall|j: int|
                0 <= j < old(self).fields@.len() && j != field_index
                    ==> #[trigger] final(self).fields@[j] == old(self).fields@[j],
            old(self).fields@.len() == 0 ==> forall|j: int|
                0 <= j < old(self).descriptor.fields@.len() && j != field_index
                    ==> (#[trigger] final(self).fields@[j]).1.is_empty_slot(),
    {
        self.init_fields();
        proof {
            lemma_wf_slots_index(self.fields@, self.descriptor.fields@, field_index as int);
            assert forall|j: int|
                0 <= j < self.fields@.len() implies (#[trigger] self.fields@[j]).1.matches_field(
                self.descriptor.fields@[j],
            ) && self.fields@[j].0 == self.descriptor.fields@[j].number by {
                lemma_wf_slots_index(self.fields@, self.descriptor.fields@, j);
            }
        }
        let pair = &mut self.fields[field_index];
        match &mut pair.1 {
            DynamicFieldValue::MapOf(m) => m,
            _ => vstd::pervasive::unreached(),
        }
    }

    /// Mutable view of the singular message field `field_index`,
    /// materializing slots, clearing the field's oneof siblings and
    /// installing the field's default message first when empty.
    pub fn mut_singular_field_or_default(&mut self, field_index: usize) -> (r: ReflectValueMut<
        '_,
    >)
        requires
            old(self).wf(),
            field_index < old(self).descriptor.fields@.len(),
            old(self).descriptor.fields@[field_index as int].field_type
                matches RuntimeFieldType::Singular(t) && t matches RuntimeType::Message(_),
        ensures
            final(self).descriptor == old(self).descriptor,
            final(self).unknown_fields == old(self).unknown_fields,
            final(self).fields@.len() == old(self).descriptor.fields@.len(),
            forall|j: int|
                0 <= j < old(self).descriptor.fields@.len() && old(self).same_oneof(
                    field_index as int,
                    j,
                ) ==> (#[trigger] final(self).fields@[j]).1.is_empty_slot(),
            old(self).fields@.len() != 0 ==> forall|j: int|
                0 <= j < old(self).fields@.len() && j != field_index && !old(self).same_oneof(
                    field_index as int,
                    j,
                ) ==> #[trigger] final(self).fields@[j] == old(self).fields@[j],
            old(self).fields@.len() == 0 ==> forall|j: int|
                0 <= j < old(self).descriptor.fields@.len() && j != field_index
                    ==> (#[trigger] final(self).fields@[j]).1.is_empty_slot(),
            forall|j: int|
                0 <= j < old(self).descriptor.fields@.len() && j != field_index
                    ==> (#[trigger] final(self).fields@[j]).1.matches_field(
                    old(self).descriptor.fields@[j],
                ) && final(self).fields@[j].0 == old(self).descriptor.fields@[j].number,
            final(self).fields@[field_index as int].0 == old(self).descriptor.fields@[
                field_index as int].number,
            r matches ReflectValueMut::Message(m) && {
                &&& (old(self).observe_field(field_index as int) matches
                    FieldObservation::ObsSingular(h) && match h {
                    Some(v) => v matches ReflectValueBox::Message(inner) && *m == *inner,
                    None => old(self).descriptor.fields@[field_index as int].field_type
                        ->Singular_0 matches RuntimeType::Message(d) && (*m).descriptor == d
                        && (*m).fields@.len() == 0 && (*m).unknown_fields.entries@.len() == 0
                        && (*m).wf(),
                })
                &&& (*m).descriptor == old(self).descriptor.fields@[field_index as int]
                    .field_type->Singular_0->Message_0
                &&& final(self).observe_field(field_index as int) matches
                    FieldObservation::ObsSingular(h2) && h2 matches Some(v2) && v2 matches
                    ReflectValueBox::Message(mm) && *mm == *final(m)
                &&& final(self).fields@[field_index as int].1 matches
                    DynamicFieldValue::Singular(o2) && {
                    &&& o2.elem == old(self).descriptor.fields@[field_index as int].field_type
                        ->Singular_0
                    &&& o2.value matches Some(vb) && vb matches ReflectValueBox::Message(mb)
                        && *mb == *final(m)
                }
            },
    {
        self.init_fields();
        let ghost s1 = *self;
        self.clear_oneof_group_fields_except(field_index);
        proof {
            lemma_wf_slots_index(self.fields@, self.descriptor.fields@, field_index as int);
            assert forall|j: int|
                0 <= j < self.fields@.len() implies (#[trigger] self.fields@[j]).1.matches_field(
                self.descriptor.fields@[j],
            ) && self.fields@[j].0 == self.descriptor.fields@[j].number by {
                lemma_wf_slots_index(self.fields@, self.descriptor.fields@, j);
            }
            if old(self).fields@.len() == 0 {
                assert(self.fields@[field_index as int].1.is_empty_slot());
            }
            assert(self.fields@[field_index as int].1 matches DynamicFieldValue::Singular(o2)
                && FieldObservation::ObsSingular(o2.value) == old(self).observe_field(
                field_index as int,
            ));
            if s1.fields@.len() != 0 {
                lemma_wf_slots_index(s1.fields@, self.descriptor.fields@, 0);
            }
            assert(s1.fields@.len() == self.descriptor.fields@.len());
            assert forall|j: int|
                0 <= j < self.descriptor.fields@.len() && old(self).same_oneof(
                    field_index as int,
                    j,
                ) implies (#[trigger] self.fields@[j]).1.is_empty_slot() by {
                assert(s1.same_oneof(field_index as int, j));
                assert(0 <= j < s1.fields@.len());
            }
            if old(self).fields@.len() != 0 {
                assert forall|j: int|
                    0 <= j < self.fields@.len() && j != field_index && !old(self).same_oneof(
                        field_index as int,
                        j,
                    ) implies #[trigger] self.fields@[j] == old(self).fields@[j] by {
                    assert(!s1.same_oneof(field_index as int, j));
                    assert(s1.fields@[j] == old(self).fields@[j]);
                }
            } else {
                assert forall|j: int|
                    0 <= j < self.fields@.len() && j != field_index implies (
                #[trigger] self.fields@[j]).1.is_empty_slot() by {
                    assert(0 <= j < s1.fields@.len());
                    assert(s1.fields@[j].1.is_empty_slot());
                    if !s1.same_oneof(field_index as int, j) {
                        assert(self.fields@[j] == s1.fields@[j]);
                    }
                }
            }
        }
        let pair = &mut self.fields[field_index];
        match &mut pair.1 {
            DynamicFieldValue::Singular(o) => o.mut_or_default(),
            _ => vstd::pervasive::unreached(),
        }
    }

    /// Returns every field to its default and drops the unknown
    /// fields, keeping the slot array allocated; the message then
    /// encodes to nothing.
    pub fn clear(&mut self)
        requires
            old(self).wf(),
        ensures
            final(self).wf(),
            final(self).descriptor == old(self).descriptor,
            final(self).fields@.len() == old(self).fields@.len(),
            final(self).unknown_fields.entries@.len() == 0,
            forall|j: int|
                0 <= j < old(self).descriptor.fields@.len()
                    ==> (#[trigger] final(self).observe_field(j)).is_empty_obs(),
            final(self).enc() == Seq::<u8>::empty(),
    {
        let n = self.fields.len();
        let mut j: usize = 0;
        while j < n
            invariant
                old(self).wf(),
                self.wf(),
                n == self.fields@.len(),
                0 <= j <= n,
                self.descriptor == old(self).descriptor,
                self.unknown_fields == old(self).unknown_fields,
                n != 0 ==> n == self.descriptor.fields@.len(),
                forall|l: int|
                    0 <= l < j ==> (#[trigger] self.fields@[l]).1.is_empty_slot(),
                forall|l: int|
                    j <= l < n ==> #[trigger] self.fields@[l] == old(self).fields@[l],
            decreases n - j,
        {
            proof {
                lemma_wf_slots_index(self.fields@, self.descriptor.fields@, j as int);
            }
            let ghost mid = self.fields@;
            let pair = &mut self.fields[j];
            pair.1.clear();
            proof {
                lemma_wf_slots_update(
                    mid,
                    self.descriptor.fields@,
                    j as int,
                    self.fields@[j as int].1,
                );
                assert(self.fields@ =~= mid.update(
                    j as int,
                    (mid[j as int].0, self.fields@[j as int].1),
                ));
            }
            j = j + 1;
        }
        self.unknown_fields = UnknownFields::new();
        proof {
            lemma_enc_slot_seq_all_empty(self.fields@);
            assert(self.enc() =~= Seq::<u8>::empty());
        }
    }
}

/// Every field group in `s` decodes against fields of the shapes
/// `ds` declares: the failure-free mirror of the merge loop, down
/// into nested messages. Decode failure is a function of the bytes
/// and the schema alone.
pub open spec fn msg_fields_ok(ds: Seq<FieldDescriptor>, s: Seq<u8>) -> bool
    decreases s.len(), 2int,
{
    if s.len() == 0 {
        true
    } else {
        crate::input::parse_tag(s) matches Some(((num, w), n)) && 1 <= n <= s.len() && {
            if exists|i: int| 0 <= i < ds.len() && (#[trigger] ds[i]).number == num {
                exists|i: int|
                    #![trigger ds[i].number]
                    {
                        &&& 0 <= i < ds.len()
                        &&& ds[i].number == num
                        &&& match ds[i].field_type {
                            RuntimeFieldType::Singular(t) => {
                                &&& crate::value_box::value_ok(t, s.skip(n))
                                &&& 1 <= crate::value_box::value_consumed(t, s.skip(n))
                                    <= s.len() - n
                                &&& msg_fields_ok(
                                    ds,
                                    s.skip(
                                        n + crate::value_box::value_consumed(t, s.skip(n)),
                                    ),
                                )
                            },
                            RuntimeFieldType::Repeated(t) => {
                                let packed = w == WireType::LengthDelimited
                                    && crate::descriptor::wire_for(t)
                                    != WireType::LengthDelimited;
                                if packed {
                                    crate::wire::parse_varint(s.skip(n)) matches Some(
                                        (len, n2),
                                    ) && {
                                        &&& 1 <= n2
                                        &&& n2 + len <= s.len() - n
                                        &&& crate::repeated::packed_body_ok(
                                            t,
                                            s.skip(n).subrange(n2, n2 + len),
                                        )
                                        &&& msg_fields_ok(ds, s.skip(n + n2 + len))
                                    }
                                } else {
                                    &&& crate::value_box::value_ok(t, s.skip(n))
                                    &&& 1 <= crate::value_box::value_consumed(t, s.skip(n))
                                        <= s.len() - n
                                    &&& msg_fields_ok(
                                        ds,
                                        s.skip(
                                            n + crate::value_box::value_consumed(
                                                t,
                                                s.skip(n),
                                            ),
                                        ),
                                    )
                                }
                            },
                            RuntimeFieldType::MapOf(kt, vt) => {
                                crate::wire::parse_varint(s.skip(n)) matches Some((len, n2))
                                    && {
                                    &&& 1 <= n2
                                    &&& n2 + len <= s.len() - n
                                    &&& crate::map_slot::entry_ok(
                                        kt,
                                        vt,
                                        s.skip(n).subrange(n2, n2 + len),
                                    )
                                    &&& msg_fields_ok(ds, s.skip(n + n2 + len))
                                }
                            },
                        }
                    }
            } else {
                crate::input::unknown_parse_len(w, s.skip(n)) matches Some(c) && 0 < c
                    <= s.len() - n && msg_fields_ok(ds, s.skip(n + c))
            }
        }
    }
}

/// One decoded field group rewrites slot `slot` to `slot2`,
/// consuming `c` bytes of `rem`: one value for a singular field,
/// one element — or a packed run, when a primitive repeated field
/// arrives length-delimited — for a repeated field, and one entry
/// for a map field.
pub open spec fn slot_merge_rel(
    slot: DynamicFieldValue,
    w: WireType,
    rem: Seq<u8>,
    slot2: DynamicFieldValue,
    c: int,
) -> bool {
    match slot {
        DynamicFieldValue::Singular(o0) => slot2 matches DynamicFieldValue::Singular(o1)
            && o1.elem == o0.elem && (o1.value matches Some(v) && crate::value_box::parses_as(
            o0.elem,
            rem,
            v,
            c,
        )),
        DynamicFieldValue::Repeated(r0) => slot2 matches DynamicFieldValue::Repeated(r1)
            && r1.elem == r0.elem && {
            let packed = w == WireType::LengthDelimited && crate::descriptor::wire_for(
                r0.elem,
            ) != WireType::LengthDelimited;
            if packed {
                crate::wire::parse_varint(rem) matches Some((len, n)) && {
                    &&& n + len <= rem.len()
                    &&& c == n + len
                    &&& r1.vec@.len() >= r0.vec@.len()
                    &&& r1.vec@.subrange(0, r0.vec@.len() as int) == r0.vec@
                    &&& crate::repeated::packed_values(
                        r0.elem,
                        rem.subrange(n, n + len),
                        r1.vec@.skip(r0.vec@.len() as int),
                    )
                }
            } else {
                &&& r1.vec@.len() == r0.vec@.len() + 1
                &&& r1.vec@.subrange(0, r0.vec@.len() as int) == r0.vec@
                &&& crate::value_box::parses_as(r0.elem, rem, r1.vec@.last(), c)
            }
        },
        DynamicFieldValue::MapOf(m0) => slot2 matches DynamicFieldValue::MapOf(m1)
            && m1.key_elem == m0.key_elem && m1.value_elem == m0.value_elem && (
        crate::wire::parse_varint(rem) matches Some((len, n)) && {
            &&& n + len <= rem.len()
            &&& c == n + len
            &&& exists|
                ko: Option<ReflectValueBox>,
                vo: Option<ReflectValueBox>,
                k: ReflectValueBox,
                v: ReflectValueBox,
            |
                #![trigger crate::map_slot::entry_rel(
                    m0.key_elem,
                    m0.value_elem,
                    rem.subrange(n, n + len),
                    None,
                    None,
                    ko,
                    vo,
                ), crate::map_slot::inserted_entry(m0.entries@, m1.entries@, k, v)]
                {
                    &&& crate::map_slot::entry_rel(
                        m0.key_elem,
                        m0.value_elem,
                        rem.subrange(n, n + len),
                        None,
                        None,
                        ko,
                        vo,
                    )
                    &&& (ko matches Some(k0) ==> k == k0)
                    &&& (ko is None ==> k.is_default_value())
                    &&& (vo matches Some(v0) ==> v == v0)
                    &&& (vo is None ==> v.is_default_value())
                    &&& k.wf()
                    &&& k.value_type() == m0.key_elem
                    &&& v.wf()
                    &&& v.value_type() == m0.value_elem
                    &&& crate::map_slot::inserted_entry(m0.entries@, m1.entries@, k, v)
                }
        }),
    }
}

/// A raw value of wire type `w` parses at the head of `rem` as `u`,
/// consuming `c` bytes.
pub open spec fn unknown_rel(w: WireType, rem: Seq<u8>, u: crate::unknown::UnknownValue, c: int) -> bool {
    u.wire_type() == w && match u {
        crate::unknown::UnknownValue::Varint(v) => crate::wire::parse_varint(rem) == Some(
            (v, c),
        ),
        crate::unknown::UnknownValue::Fixed32(x) => rem.len() >= 4 && x
            == vstd::bytes::spec_u32_from_le_bytes(rem.subrange(0, 4)) && c == 4,
        crate::unknown::UnknownValue::Fixed64(x) => rem.len() >= 8 && x
            == vstd::bytes::spec_u64_from_le_bytes(rem.subrange(0, 8)) && c == 8,
        crate::unknown::UnknownValue::LengthDelimited(b) => crate::input::parse_len_delimited(
            rem,
        ) matches Some((pb, n)) && pb == b@ && c == n,
    }
}

/// Merging the bytes of `s` into a message whose slots are
/// `fields_in` and unknowns `u_in` yields slots `fields_out` and
/// unknowns `u_out`: each tag in turn is decoded into the slot
/// carrying its field number, or its raw value is appended to the
/// unknowns, until the bytes are exhausted.
pub open spec fn msg_merge_rel(
    fields_in: Seq<(u32, DynamicFieldValue)>,
    u_in: Seq<(u32, crate::unknown::UnknownValue)>,
    s: Seq<u8>,
    fields_out: Seq<(u32, DynamicFieldValue)>,
    u_out: Seq<(u32, crate::unknown::UnknownValue)>,
) -> bool
    decreases s.len(),
{
    if s.len() == 0 {
        fields_out == fields_in && u_out == u_in
    } else {
        crate::input::parse_tag(s) matches Some(((num, w), n)) && 1 <= n <= s.len() && {
            if exists|i: int| 0 <= i < fields_in.len() && (#[trigger] fields_in[i]).0 == num {
                exists|i: int, slot2: DynamicFieldValue, c: int|
                    #![trigger slot_merge_rel(fields_in[i].1, w, s.skip(n), slot2, c)]
                    {
                        &&& 0 <= i < fields_in.len()
                        &&& fields_in[i].0 == num
                        &&& 0 < c <= s.len() - n
                        &&& slot_merge_rel(fields_in[i].1, w, s.skip(n), slot2, c)
                        &&& msg_merge_rel(
                            fields_in.update(i, (num, slot2)),
                            u_in,
                            s.skip(n + c),
                            fields_out,
                            u_out,
                        )
                    }
            } else {
                exists|u2: crate::unknown::UnknownValue, c: int|
                    #![trigger unknown_rel(w, s.skip(n), u2, c)]
                    {
                        &&& 0 < c <= s.len() - n
                        &&& unknown_rel(w, s.skip(n), u2, c)
                        &&& msg_merge_rel(
                            fields_in,
                            u_in.push((num, u2)),
                            s.skip(n + c),
                            fields_out,
                            u_out,
                        )
                    }
            }
        }
    }
}

impl DynamicMessage {
    /// Position of the slot carrying `number`, by linear scan of the
    /// field array.
    pub fn find_field(&self, number: u32) -> (r: Option<usize>)
        ensures
            match r {
                Some(i) => i < self.fields@.len() && self.fields@[i as int].0 == number,
                None => forall|j: int|
                    0 <= j < self.fields@.len() ==> (#[trigger] self.fields@[j]).0 != number,
            },
    {
        let n = self.fields.len();
        let mut i: usize = 0;
        while i < n
            invariant
                n == self.fields@.len(),
                0 <= i <= n,
                forall|j: int| 0 <= j < i ==> (#[trigger] self.fields@[j]).0 != number,
            decreases n - i,
        {
            if self.fields[i].0 == number {
                return Some(i);
            }
            i = i + 1;
        }
        None
    }

    /// Decodes fields from the stream until its current limit is
    /// exhausted, materializing slots first. A tag matching a
    /// descriptor field goes to that field's slot; any other tag's
    /// raw value is kept as an unknown field, in arrival order. On
    /// success the decoded state is pinned by `msg_merge_rel`
    /// against the bytes read. On an error the message stays well
    /// formed but partially populated; callers wanting an atomic
    /// decode should decode into a fresh message.
    #[verifier::rlimit(100)]
    #[verifier::spinoff_prover]
    pub fn merge_from(&mut self, is: &mut InputStream) -> (r: Result<(), WireError>)
        requires
            old(self).wf(),
            old(is).wf(),
        ensures
            final(is).wf(),
            final(is).same_buf(*old(is)),
            old(is).pos <= final(is).pos,
            final(self).wf(),
            final(self).descriptor == old(self).descriptor,
            final(self).fields@.len() == old(self).descriptor.fields@.len(),
            old(self).unknown_fields.entries@.is_prefix_of(final(self).unknown_fields.entries@),
            r is Ok ==> final(is).remaining().len() == 0,
            r is Err ==> !msg_fields_ok(
                old(self).descriptor.fields@,
                old(is).remaining(),
            ),
            r is Ok ==> exists|fields0: Seq<(u32, DynamicFieldValue)>|
                #![trigger msg_merge_rel(
                    fields0,
                    old(self).unknown_fields.entries@,
                    old(is).remaining(),
                    final(self).fields@,
                    final(self).unknown_fields.entries@,
                )]
                {
                    &&& (old(self).fields@.len() != 0 ==> fields0 == old(self).fields@)
                    &&& (old(self).fields@.len() == 0 ==> {
                        &&& fields0.len() == old(self).descriptor.fields@.len()
                        &&& wf_slots(fields0, old(self).descriptor.fields@)
                        &&& forall|i: int|
                            0 <= i < fields0.len() ==> (#[trigger] fields0[i]).1.is_empty_slot()
                    })
                    &&& msg_merge_rel(
                        fields0,
                        old(self).unknown_fields.entries@,
                        old(is).remaining(),
                        final(self).fields@,
                        final(self).unknown_fields.entries@,
                    )
                },
        decreases old(is).limit - old(is).pos, 3int,
    {
        self.init_fields();
        proof {
            if self.fields@.len() != 0 {
                lemma_wf_slots_index(self.fields@, self.descriptor.fields@, 0);
            }
        }
        let ghost fields0 = self.fields@;
        let ghost u0 = self.unknown_fields.entries@;
        let ghost rem_start = is.remaining();
        loop
            invariant
                self.wf(),
                self.descriptor == old(self).descriptor,
                self.fields@.len() == old(self).descriptor.fields@.len(),
                old(self).unknown_fields.entries@.is_prefix_of(self.unknown_fields.entries@),
                is.wf(),
                is.same_buf(*old(is)),
                old(is).pos <= is.pos,
                u0 == old(self).unknown_fields.entries@,
                rem_start == old(is).remaining(),
                old(self).fields@.len() != 0 ==> fields0 == old(self).fields@,
                old(self).fields@.len() == 0 ==> {
                    &&& fields0.len() == old(self).descriptor.fields@.len()
                    &&& wf_slots(fields0, old(self).descriptor.fields@)
                    &&& forall|i: int|
                        0 <= i < fields0.len() ==> (#[trigger] fields0[i]).1.is_empty_slot()
                },
                forall|fo: Seq<(u32, DynamicFieldValue)>, uo: Seq<
                    (u32, crate::unknown::UnknownValue),
                >|
                    #![auto]
                    msg_merge_rel(
                        self.fields@,
                        self.unknown_fields.entries@,
                        is.remaining(),
                        fo,
                        uo,
                    ) ==> msg_merge_rel(fields0, u0, rem_start, fo, uo),
                msg_fields_ok(old(self).descriptor.fields@, rem_start) ==> msg_fields_ok(
                    old(self).descriptor.fields@,
                    is.remaining(),
                ),
            ensures
                self.wf(),
                self.descriptor == old(self).descriptor,
                self.fields@.len() == old(self).descriptor.fields@.len(),
                old(self).unknown_fields.entries@.is_prefix_of(self.unknown_fields.entries@),
                is.wf(),
                is.same_buf(*old(is)),
                old(is).pos <= is.pos,
                is.remaining().len() == 0,
                forall|fo: Seq<(u32, DynamicFieldValue)>, uo: Seq<
                    (u32, crate::unknown::UnknownValue),
                >|
                    #![auto]
                    msg_merge_rel(
                        self.fields@,
                        self.unknown_fields.entries@,
                        is.remaining(),
                        fo,
                        uo,
                    ) ==> msg_merge_rel(fields0, u0, rem_start, fo, uo),
                msg_fields_ok(old(self).descriptor.fields@, rem_start) ==> msg_fields_ok(
                    old(self).descriptor.fields@,
                    is.remaining(),
                ),
            decreases is.limit - is.pos,
        {
            if is.eof() {
                break ;
            }
            let ghost rem0 = is.remaining();
            let ghost u_pre = self.unknown_fields.entries@;
            let (field_number, wire_type) = match is.read_tag_unpack() {
                Ok(t) => t,
                Err(e) => {
                    proof {
                        if msg_fields_ok(old(self).descriptor.fields@, rem_start) {
                            assert(msg_fields_ok(old(self).descriptor.fields@, rem0));
                            assert(crate::input::parse_tag(rem0) is Some);
                            assert(false);
                        }
                    }
                    return Err(e);
                },
            };
            let ghost rem1 = is.remaining();
            let ghost ntag = rem0.len() - rem1.len();
            proof {
                crate::wire::lemma_parse_varint_rec_bounds(rem0, 10);
                assert(rem1 =~= rem0.skip(ntag as int));
            }
            match self.find_field(field_number) {
                Some(i) => {
                    proof {
                        lemma_wf_slots_index(self.fields@, self.descriptor.fields@, i as int);
                        assert forall|j: int|
                            0 <= j < self.descriptor.fields@.len()
                                && (#[trigger] self.descriptor.fields@[j]).number
                                == field_number implies j == i as int by {
                            lemma_wf_slots_index(self.fields@, self.descriptor.fields@, j);
                            if j != i as int {
                                assert(self.descriptor.fields@[j].number
                                    != self.descriptor.fields@[i as int].number);
                            }
                        }
                    }
                    let ghost pre_fields = self.fields@;
                    let pair = &mut self.fields[i];
                    let res = pair.1.merge_from(
                        is,
                        wire_type,
                        Ghost(self.descriptor.fields@[i as int]),
                    );
                    proof {
                        assert(self.fields@ =~= pre_fields.update(
                            i as int,
                            (pre_fields[i as int].0, self.fields@[i as int].1),
                        ));
                        lemma_wf_slots_update(
                            pre_fields,
                            self.descriptor.fields@,
                            i as int,
                            self.fields@[i as int].1,
                        );
                    }
                    match res {
                        Ok(_) => {
                            proof {
                                let slot2 = self.fields@[i as int].1;
                                let c = rem1.len() - is.remaining().len();
                                assert(slot_merge_rel(
                                    pre_fields[i as int].1,
                                    wire_type,
                                    rem1,
                                    slot2,
                                    c,
                                ));
                                assert(slot_merge_rel(
                                    pre_fields[i as int].1,
                                    wire_type,
                                    rem0.skip(ntag as int),
                                    slot2,
                                    c,
                                ));
                                assert(is.remaining() =~= rem1.skip(c));
                                assert(is.remaining() =~= rem0.skip(ntag + c));
                                assert forall|
                                    fo: Seq<(u32, DynamicFieldValue)>,
                                    uo: Seq<(u32, crate::unknown::UnknownValue)>,
                                |
                                    #![auto]
                                    msg_merge_rel(
                                        self.fields@,
                                        self.unknown_fields.entries@,
                                        is.remaining(),
                                        fo,
                                        uo,
                                    ) implies msg_merge_rel(
                                    fields0,
                                    u0,
                                    rem_start,
                                    fo,
                                    uo,
                                ) by {
                                    assert(pre_fields[i as int].0 == field_number);
                                    assert(msg_merge_rel(pre_fields, u_pre, rem0, fo, uo));
                                }
                                let ds = old(self).descriptor.fields@;
                                if msg_fields_ok(ds, rem_start) {
                                    assert(msg_fields_ok(ds, rem0));
                                    assert(ds[i as int].number == field_number);
                                    match ds[i as int].field_type {
                                        RuntimeFieldType::Singular(t) => {
                                            assert(crate::value_box::value_consumed(t, rem1)
                                                == c);
                                        },
                                        RuntimeFieldType::Repeated(t) => {
                                            let packed = wire_type
                                                == WireType::LengthDelimited
                                                && crate::descriptor::wire_for(t)
                                                != WireType::LengthDelimited;
                                            if !packed {
                                                assert(crate::value_box::value_consumed(
                                                    t,
                                                    rem1,
                                                ) == c);
                                            }
                                        },
                                        RuntimeFieldType::MapOf(kt, vt) => {},
                                    }
                                    assert(msg_fields_ok(ds, is.remaining()));
                                }
                            }
                        },
                        Err(e) => {
                            proof {
                                let ds = old(self).descriptor.fields@;
                                if msg_fields_ok(ds, rem_start) {
                                    assert(msg_fields_ok(ds, rem0));
                                    assert(ds[i as int].number == field_number);
                                    match ds[i as int].field_type {
                                        RuntimeFieldType::Singular(t) => {
                                            assert(crate::value_box::value_ok(t, rem1));
                                        },
                                        RuntimeFieldType::Repeated(t) => {
                                            let packed = wire_type
                                                == WireType::LengthDelimited
                                                && crate::descriptor::wire_for(t)
                                                != WireType::LengthDelimited;
                                            if packed {
                                                assert(crate::wire::parse_varint(rem1)
                                                    matches Some((len2, n2)) && n2 + len2
                                                    <= rem1.len()
                                                    && crate::repeated::packed_body_ok(
                                                    t,
                                                    rem1.subrange(n2, n2 + len2),
                                                ));
                                            } else {
                                                assert(crate::value_box::value_ok(t, rem1));
                                            }
                                        },
                                        RuntimeFieldType::MapOf(kt, vt) => {
                                            assert(crate::wire::parse_varint(rem1)
                                                matches Some((len2, n2)) && n2 + len2
                                                <= rem1.len() && crate::map_slot::entry_ok(
                                                kt,
                                                vt,
                                                rem1.subrange(n2, n2 + len2),
                                            ));
                                        },
                                    }
                                    assert(false);
                                }
                            }
                            return Err(e);
                        },
                    }
                },
                None => {
                    match is.read_unknown(wire_type) {
                        Ok(u) => {
                            self.unknown_fields.add_value(field_number, u);
                            proof {
                                assert(old(self).unknown_fields.entries@.is_prefix_of(
                                    self.unknown_fields.entries@,
                                ));
                                let c = rem1.len() - is.remaining().len();
                                crate::wire::lemma_parse_varint_rec_bounds(rem1, 10);
                                assert(unknown_rel(wire_type, rem1, u, c));
                                assert(unknown_rel(wire_type, rem0.skip(ntag as int), u, c));
                                assert(is.remaining() =~= rem1.skip(c));
                                assert(is.remaining() =~= rem0.skip(ntag + c));
                                assert(self.unknown_fields.entries@ == u_pre.push(
                                    (field_number, u),
                                ));
                                assert forall|
                                    fo: Seq<(u32, DynamicFieldValue)>,
                                    uo: Seq<(u32, crate::unknown::UnknownValue)>,
                                |
                                    #![auto]
                                    msg_merge_rel(
                                        self.fields@,
                                        self.unknown_fields.entries@,
                                        is.remaining(),
                                        fo,
                                        uo,
                                    ) implies msg_merge_rel(
                                    fields0,
                                    u0,
                                    rem_start,
                                    fo,
                                    uo,
                                ) by {
                                    assert(msg_merge_rel(self.fields@, u_pre, rem0, fo, uo));
                                }
                                let ds = old(self).descriptor.fields@;
                                assert forall|j: int|
                                    0 <= j < ds.len() implies (#[trigger] ds[j]).number
                                    != field_number by {
                                    lemma_wf_slots_index(self.fields@, ds, j);
                                }
                                if msg_fields_ok(ds, rem_start) {
                                    assert(msg_fields_ok(ds, rem0));
                                    assert(msg_fields_ok(ds, is.remaining()));
                                }
                            }
                        },
                        Err(e) => {
                            proof {
                                let ds = old(self).descriptor.fields@;
                                assert forall|j: int|
                                    0 <= j < ds.len() implies (#[trigger] ds[j]).number
                                    != field_number by {
                                    lemma_wf_slots_index(self.fields@, ds, j);
                                }
                                if msg_fields_ok(ds, rem_start) {
                                    assert(msg_fields_ok(ds, rem0));
                                    assert(crate::input::unknown_parse_len(wire_type, rem1)
                                        is Some);
                                    assert(false);
                                }
                            }
                            return Err(e);
                        },
                    }
                },
            }
        }
        proof {
            assert(msg_merge_rel(
                self.fields@,
                self.unknown_fields.entries@,
                is.remaining(),
                self.fields@,
                self.unknown_fields.entries@,
            ));
            assert(msg_merge_rel(
                fields0,
                u0,
                rem_start,
                self.fields@,
                self.unknown_fields.entries@,
            ));
        }
        Ok(())
    }
}

/// One position of a matched slot run: the slot carries its field's
/// number and shape.
pub open spec fn wf_slot_at(
    s: Seq<(u32, DynamicFieldValue)>,
    ds: Seq<FieldDescriptor>,
    i: int,
) -> bool {
    s[i].0 == ds[i].number && s[i].1.matches_field(ds[i])
}

/// Slot runs matched at every position are matched as wholes.
pub proof fn lemma_wf_slots_from_index(
    s: Seq<(u32, DynamicFieldValue)>,
    ds: Seq<FieldDescriptor>,
)
    requires
        s.len() == ds.len(),
        forall|i: int| 0 <= i < s.len() ==> #[trigger] wf_slot_at(s, ds, i),
    ensures
        wf_slots(s, ds),
    decreases s.len(),
{
    if s.len() > 0 {
        assert(wf_slot_at(s, ds, 0));
        assert forall|i: int|
            0 <= i < s.skip(1).len() implies #[trigger] wf_slot_at(
            s.skip(1),
            ds.skip(1),
            i,
        ) by {
            assert(wf_slot_at(s, ds, i + 1));
        }
        lemma_wf_slots_from_index(s.skip(1), ds.skip(1));
    }
}

/// A run of default slots encodes to nothing.
pub proof fn lemma_enc_slot_seq_all_empty(s: Seq<(u32, DynamicFieldValue)>)
    requires
        forall|i: int| 0 <= i < s.len() ==> (#[trigger] s[i]).1.is_empty_slot(),
    ensures
        enc_slot_seq(s) == Seq::<u8>::empty(),
    decreases s.len(),
{
    if s.len() > 0 {
        lemma_empty_slot_enc(s[0].1, s[0].0);
        lemma_enc_slot_seq_all_empty(s.skip(1));
        assert(enc_slot_seq(s) =~= Seq::<u8>::empty());
    }
}

/// A default slot encodes to nothing.
pub proof fn lemma_empty_slot_enc(slot: DynamicFieldValue, field_number: u32)
    requires
        slot.is_empty_slot(),
    ensures
        slot.enc(field_number) == Seq::<u8>::empty(),
{
    match slot {
        DynamicFieldValue::Singular(o) => {},
        DynamicFieldValue::Repeated(r) => {},
        DynamicFieldValue::MapOf(m) => {},
    }
}

} // verus!
