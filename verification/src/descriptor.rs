//! Runtime schema model: the element types a slot can declare and
//! the per-message descriptors that bind field numbers to them.
//! Descriptors are shared, read-only values; a message holds its
//! descriptor through a shared handle.

use vstd::prelude::*;
use std::sync::Arc;
use crate::wire::FIELD_NUMBER_MAX;

verus! {

/// Handle standing for an externally owned enum schema; two handles
/// name the same schema exactly when they are equal.
#[derive(Clone, Copy, Debug, PartialEq, Eq, Structural)]
pub struct EnumDescriptor {
    pub id: u64,
}

/// Runtime-observable element type of a slot, one of the protobuf
/// kinds. Floating-point values are carried by their bit patterns,
/// matching protobuf's bitwise notion of serialization identity.
pub enum RuntimeType {
    U32,
    I32,
    U64,
    I64,
    F32,
    F64,
    Bool,
    String,
    Bytes,
    Enum(EnumDescriptor),
    Message(Arc<MessageDescriptor>),
}

/// Shape and element type of one field: singular, repeated, or map.
pub enum RuntimeFieldType {
    Singular(RuntimeType),
    Repeated(RuntimeType),
    MapOf(RuntimeType, RuntimeType),
}

/// Schema of one field: its wire number, its shape, and the oneof
/// group it belongs to, if any.
pub struct FieldDescriptor {
    pub number: u32,
    pub field_type: RuntimeFieldType,
    pub oneof: Option<u32>,
}

/// Schema of one message: its fields in declaration order. A field's
/// index is its position here.
pub struct MessageDescriptor {
    pub fields: Vec<FieldDescriptor>,
}

impl RuntimeType {
    /// The six scalar kinds a map key may have.
    pub open spec fn is_map_key_kind(self) -> bool {
        match self {
            RuntimeType::U32 => true,
            RuntimeType::I32 => true,
            RuntimeType::U64 => true,
            RuntimeType::I64 => true,
            RuntimeType::Bool => true,
            RuntimeType::String => true,
            _ => false,
        }
    }

    /// A type is well formed when every descriptor below it is.
    pub open spec fn wf(self) -> bool
        decreases self,
    {
        match self {
            RuntimeType::Message(d) => d.wf(),
            _ => true,
        }
    }

    /// An independent owner of the same type.
    pub fn clone_type(&self) -> (r: RuntimeType)
        ensures
            r == *self,
    {
        match self {
            RuntimeType::U32 => RuntimeType::U32,
            RuntimeType::I32 => RuntimeType::I32,
            RuntimeType::U64 => RuntimeType::U64,
            RuntimeType::I64 => RuntimeType::I64,
            RuntimeType::F32 => RuntimeType::F32,
            RuntimeType::F64 => RuntimeType::F64,
            RuntimeType::Bool => RuntimeType::Bool,
            RuntimeType::String => RuntimeType::String,
            RuntimeType::Bytes => RuntimeType::Bytes,
            RuntimeType::Enum(d) => RuntimeType::Enum(*d),
            RuntimeType::Message(d) => RuntimeType::Message(share_descriptor(d)),
        }
    }
}

impl MessageDescriptor {
    /// Every field is well formed and field numbers are distinct.
    pub open spec fn wf(self) -> bool
        decreases self,
    {
        &&& forall|i: int|
            0 <= i < self.fields@.len() ==> (#[trigger] self.fields@[i]).wf()
        &&& forall|i: int, j: int|
            0 <= i < j < self.fields@.len() ==> (#[trigger] self.fields@[i]).number != (
            #[trigger] self.fields@[j]).number
    }

    /// Number of fields.
    pub fn field_count(&self) -> (n: usize)
        ensures
            n == self.fields@.len(),
    {
        self.fields.len()
    }
}

impl FieldDescriptor {
    /// The number fits the wire format's 29 bits, the element types
    /// are well formed, a map key kind is one of the six permitted,
    /// and only a singular field can sit in a oneof group.
    pub open spec fn wf(self) -> bool
        decreases self,
    {
        &&& 1 <= self.number <= FIELD_NUMBER_MAX
        &&& match self.field_type {
            RuntimeFieldType::Singular(t) => t.wf(),
            RuntimeFieldType::Repeated(t) => t.wf() && self.oneof is None,
            RuntimeFieldType::MapOf(k, v) => k.is_map_key_kind() && k.wf() && v.wf()
                && self.oneof is None,
        }
    }
}

/// Wire type under which a value of type `t` travels.
pub open spec fn wire_for(t: RuntimeType) -> crate::wire::WireType {
    match t {
        RuntimeType::F32 => crate::wire::WireType::Fixed32,
        RuntimeType::F64 => crate::wire::WireType::Fixed64,
        RuntimeType::String => crate::wire::WireType::LengthDelimited,
        RuntimeType::Bytes => crate::wire::WireType::LengthDelimited,
        RuntimeType::Message(_) => crate::wire::WireType::LengthDelimited,
        _ => crate::wire::WireType::Varint,
    }
}

/// Wire type under which a value of type `t` travels.
pub fn runtime_wire_type(t: &RuntimeType) -> (w: crate::wire::WireType)
    ensures
        w == wire_for(*t),
{
    match t {
        RuntimeType::F32 => crate::wire::WireType::Fixed32,
        RuntimeType::F64 => crate::wire::WireType::Fixed64,
        RuntimeType::String => crate::wire::WireType::LengthDelimited,
        RuntimeType::Bytes => crate::wire::WireType::LengthDelimited,
        RuntimeType::Message(_) => crate::wire::WireType::LengthDelimited,
        _ => crate::wire::WireType::Varint,
    }
}

/// Relies on Arc::clone: the returned handle shares the same
/// descriptor allocation, so it carries the same value.
#[verifier::external_body]
pub fn share_descriptor(d: &Arc<MessageDescriptor>) -> (r: Arc<MessageDescriptor>)
    ensures
        r == *d,
{
    Arc::clone(d)
}

} // verus!
