//! Dynamic protobuf message core: runtime-typed values, field slots
//! (singular, repeated, map), and the protobuf binary wire format,
//! driven by message descriptors known only at run time.

pub mod descriptor;
pub mod dynamic;
pub mod input;
pub mod map_slot;
pub mod optional;
pub mod output;
pub mod path;
pub mod repeated;
pub mod unknown;
pub mod value_box;
pub mod wire;
