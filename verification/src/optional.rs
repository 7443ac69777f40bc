//! Singular field slot: at most one value, of a declared element
//! type.

use vstd::prelude::*;
use crate::descriptor::{share_descriptor, RuntimeType};
use crate::dynamic::DynamicMessage;
use crate::input::{InputStream, WireError};
use crate::output::OutputStream;
use crate::value_box::{default_value_box, parse_fails_for, parses_as, ReflectValueBox,
    ReflectValueMut, ReflectValueRef};
use crate::wire::{lemma_tag_len, tag_size, FIELD_NUMBER_MAX};

verus! {

/// Holder of at most one value plus the declared element type.
pub struct DynamicOptional {
    pub elem: RuntimeType,
    pub value: Option<ReflectValueBox>,
}

impl DynamicOptional {
    /// Every held value is well formed and of the declared type.
    pub open spec fn wf(self) -> bool
        decreases self,
    {
        &&& self.elem.wf()
        &&& match self.value {
            Some(v) => v.wf() && v.value_type() == self.elem,
            None => true,
        }
    }

    /// Encoding under `field_number`: the tagged value, or nothing.
    /// A held value equal to the type's default is still emitted:
    /// this slot records presence.
    pub open spec fn enc(self, field_number: u32) -> Seq<u8>
        decreases self, 0int,
    {
        match self.value {
            None => Seq::empty(),
            Some(v) => v.enc_with_tag(field_number),
        }
    }

    /// Empty slot of element type `elem`.
    pub fn none(elem: RuntimeType) -> (r: DynamicOptional)
        ensures
            r.elem == elem,
            r.value is None,
            elem.wf() ==> r.wf(),
    {
        DynamicOptional { elem, value: None }
    }

    /// Empties the slot.
    pub fn clear(&mut self)
        ensures
            final(self).elem == old(self).elem,
            final(self).value is None,
            old(self).wf() ==> final(self).wf(),
    {
        self.value = None;
    }

    /// Borrowed view of the held value, if any.
    pub fn get(&self) -> (r: Option<ReflectValueRef<'_>>)
        ensures
            match r {
                Some(rv) => self.value matches Some(v) && v.ref_matches(rv),
                None => self.value is None,
            },
    {
        match &self.value {
            Some(v) => Some(v.as_value_ref()),
            None => None,
        }
    }

    /// Replaces the held value. A value of the wrong type is a
    /// precondition violation, never stored.
    pub fn set(&mut self, value: ReflectValueBox)
        requires
            old(self).wf(),
            value.wf(),
            value.value_type() == old(self).elem,
        ensures
            final(self).elem == old(self).elem,
            final(self).value == Some(value),
            final(self).wf(),
    {
        self.value = Some(value);
    }

    /// Mutable view of the held value, installing the type's
    /// default first when the slot is empty. Only a message-typed
    /// slot can be viewed mutably; the default for a message field
    /// is a fresh dynamic message of the field's descriptor.
    pub fn mut_or_default(&mut self) -> (r: ReflectValueMut<'_>)
        requires
            old(self).wf(),
            old(self).elem matches RuntimeType::Message(_),
        ensures
            final(self).elem == old(self).elem,
            r matches ReflectValueMut::Message(m) && {
                &&& match old(self).value {
                    Some(v) => v matches ReflectValueBox::Message(inner) && *m == *inner,
                    None => old(self).elem matches RuntimeType::Message(d) && (*m).descriptor
                        == d && (*m).fields@.len() == 0 && (
                    *m).unknown_fields.entries@.len() == 0 && (*m).wf(),
                }
                &&& final(self).value matches Some(v2) && v2 matches ReflectValueBox::Message(
                    mm,
                ) && *mm == *final(m)
            },
    {
        if self.value.is_none() {
            let d = match &self.elem {
                RuntimeType::Message(d) => share_descriptor(d),
                _ => vstd::pervasive::unreached(),
            };
            self.value = Some(ReflectValueBox::Message(Box::new(DynamicMessage::new(d))));
        }
        match &mut self.value {
            Some(v) => ReflectValueMut::Message(v.as_mut_message()),
            None => vstd::pervasive::unreached(),
        }
    }

    /// Decodes one value of the declared type from the stream into
    /// this slot, seeding from the type's default when empty.
    pub fn merge_from(&mut self, is: &mut InputStream) -> (r: Result<(), WireError>)
        requires
            old(self).wf(),
            old(is).wf(),
        ensures
            final(is).wf(),
            final(is).same_buf(*old(is)),
            old(is).pos <= final(is).pos,
            final(self).elem == old(self).elem,
            final(self).wf(),
            r is Ok ==> final(is).pos > old(is).pos && (final(self).value matches Some(v)
                && parses_as(
                old(self).elem,
                old(is).remaining(),
                v,
                final(is).pos - old(is).pos,
            )),
            r is Err ==> !crate::value_box::value_ok(old(self).elem, old(is).remaining()),
        decreases old(is).limit - old(is).pos, 1int,
    {
        if self.value.is_none() {
            self.value = Some(default_value_box(&self.elem));
        }
        match &mut self.value {
            Some(v) => v.merge_from(is),
            None => vstd::pervasive::unreached(),
        }
    }

    /// Wire size of this slot under `field_number`: tag plus value
    /// when present, zero when empty.
    pub fn compute_size(&self, field_number: u32) -> (r: u32)
        requires
            self.wf(),
            1 <= field_number <= FIELD_NUMBER_MAX,
            self.enc(field_number).len() <= u32::MAX,
        ensures
            r == self.enc(field_number).len(),
        decreases *self,
    {
        match &self.value {
            None => 0,
            Some(v) => {
                proof {
                    lemma_tag_len(field_number, v.wire_type());
                }
                tag_size(field_number) + v.compute_size()
            },
        }
    }

    /// Emits the tagged value when present; a no-op when empty.
    pub fn write_to_with_cached_sizes(&self, os: &mut OutputStream, field_number: u32)
        requires
            self.wf(),
            1 <= field_number <= FIELD_NUMBER_MAX,
            self.enc(field_number).len() <= u32::MAX,
        ensures
            final(os).buf@ == old(os).buf@ + self.enc(field_number),
        decreases *self,
    {
        match &self.value {
            None => {
                assert(os.buf@ =~= old(os).buf@ + self.enc(field_number));
            },
            Some(v) => {
                v.write_to_with_cached_sizes(os, field_number);
            },
        }
    }
}

} // verus!
