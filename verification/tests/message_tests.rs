use std::sync::Arc;
use protodyn::descriptor::{EnumDescriptor, FieldDescriptor, MessageDescriptor,
    RuntimeFieldType, RuntimeType};
use protodyn::dynamic::{DynamicMessage, ReflectFieldRef};
use protodyn::input::InputStream;
use protodyn::value_box::{ReflectValueBox, ReflectValueMut, ReflectValueRef};

fn field(number: u32, field_type: RuntimeFieldType) -> FieldDescriptor {
    FieldDescriptor { number, field_type, oneof: None }
}

fn descriptor(fields: Vec<FieldDescriptor>) -> Arc<MessageDescriptor> {
    Arc::new(MessageDescriptor { fields })
}

fn decode(desc: &Arc<MessageDescriptor>, bytes: Vec<u8>) -> DynamicMessage {
    let mut m = DynamicMessage::new(Arc::clone(desc));
    let mut is = InputStream::new(bytes);
    m.merge_from(&mut is).expect("decode must succeed");
    m
}

#[test]
fn scalar_singular_int32_encodes_and_decodes() {
    // message M { optional int32 a = 1; } with a = -7
    let desc = descriptor(vec![field(1, RuntimeFieldType::Singular(RuntimeType::I32))]);
    let mut m = DynamicMessage::new(Arc::clone(&desc));
    m.set_field(0, ReflectValueBox::I32(-7));
    let bytes = m.write_to_bytes();
    assert_eq!(
        bytes,
        vec![0x08, 0xF9, 0xFF, 0xFF, 0xFF, 0xFF, 0xFF, 0xFF, 0xFF, 0xFF, 0x01]
    );
    assert_eq!(m.compute_size(), bytes.len() as u32);
    assert_eq!(m.get_cached_size(), bytes.len() as u32);

    let m2 = decode(&desc, bytes);
    match m2.get_reflect(0) {
        ReflectFieldRef::Optional(Some(ReflectValueRef::I32(v))) => assert_eq!(v, -7),
        _ => panic!("field a must decode to -7"),
    }
}

#[test]
fn repeated_int32_accepts_packed_and_unpacked() {
    // repeated int32 xs = 3;
    let desc = descriptor(vec![field(3, RuntimeFieldType::Repeated(RuntimeType::I32))]);

    let expect_123 = |m: &DynamicMessage| match m.get_reflect(0) {
        ReflectFieldRef::Repeated(Some(rep)) => {
            assert_eq!(rep.len(), 3);
            assert!(matches!(rep.get(0), ReflectValueRef::I32(1)));
            assert!(matches!(rep.get(1), ReflectValueRef::I32(2)));
            assert!(matches!(rep.get(2), ReflectValueRef::I32(3)));
        },
        _ => panic!("xs must hold three elements"),
    };

    let unpacked = decode(&desc, vec![0x18, 0x01, 0x18, 0x02, 0x18, 0x03]);
    expect_123(&unpacked);

    let packed = decode(&desc, vec![0x1A, 0x03, 0x01, 0x02, 0x03]);
    expect_123(&packed);

    // the encoder emits the unpacked form
    let mut packed = packed;
    assert_eq!(packed.write_to_bytes(), vec![0x18, 0x01, 0x18, 0x02, 0x18, 0x03]);
    assert_eq!(packed.compute_size(), 6);
}

#[test]
fn map_entry_frames_key_and_value() {
    // map<string, int32> m = 5; with "ab" -> 7
    let desc = descriptor(vec![field(
        5,
        RuntimeFieldType::MapOf(RuntimeType::String, RuntimeType::I32),
    )]);
    let mut m = DynamicMessage::new(Arc::clone(&desc));
    m.mut_map(0).insert(
        ReflectValueBox::String("ab".to_owned()),
        ReflectValueBox::I32(7),
    );
    let bytes = m.write_to_bytes();
    assert_eq!(bytes, vec![0x2A, 0x06, 0x0A, 0x02, 0x61, 0x62, 0x10, 0x07]);
    assert_eq!(m.compute_size(), bytes.len() as u32);

    let m2 = decode(&desc, bytes);
    match m2.get_reflect(0) {
        ReflectFieldRef::MapOf(Some(mp)) => {
            assert_eq!(mp.len(), 1);
            let key = ReflectValueBox::String("ab".to_owned());
            match mp.get(&key) {
                Some(ReflectValueRef::I32(v)) => assert_eq!(v, 7),
                _ => panic!("entry ab -> 7 must be recovered"),
            }
            match mp.entry_at(0) {
                (ReflectValueRef::String(k), ReflectValueRef::I32(v)) => {
                    assert_eq!(k, "ab");
                    assert_eq!(v, 7);
                },
                _ => panic!("the one entry must be ab -> 7"),
            }
        },
        _ => panic!("map must have materialized"),
    }
}

#[test]
fn map_insert_with_equal_key_wins_in_place() {
    let desc = descriptor(vec![field(
        5,
        RuntimeFieldType::MapOf(RuntimeType::String, RuntimeType::I32),
    )]);
    let mut m = DynamicMessage::new(Arc::clone(&desc));
    let mp = m.mut_map(0);
    mp.insert(ReflectValueBox::String("k".to_owned()), ReflectValueBox::I32(1));
    mp.insert(ReflectValueBox::String("k".to_owned()), ReflectValueBox::I32(2));
    assert_eq!(mp.len(), 1);
    match mp.get(&ReflectValueBox::String("k".to_owned())) {
        Some(ReflectValueRef::I32(v)) => assert_eq!(v, 2),
        _ => panic!("the last write must win"),
    }
}

#[test]
fn oneof_setting_one_member_clears_the_other() {
    // oneof o { int32 x = 1; string y = 2; }
    let desc = descriptor(vec![
        FieldDescriptor {
            number: 1,
            field_type: RuntimeFieldType::Singular(RuntimeType::I32),
            oneof: Some(0),
        },
        FieldDescriptor {
            number: 2,
            field_type: RuntimeFieldType::Singular(RuntimeType::String),
            oneof: Some(0),
        },
    ]);
    let mut m = DynamicMessage::new(Arc::clone(&desc));
    m.set_field(0, ReflectValueBox::I32(5));
    m.set_field(1, ReflectValueBox::String("hi".to_owned()));
    assert!(matches!(m.get_reflect(0), ReflectFieldRef::Optional(None)));
    match m.get_reflect(1) {
        ReflectFieldRef::Optional(Some(ReflectValueRef::String(s))) => assert_eq!(s, "hi"),
        _ => panic!("y must hold hi"),
    }
    // the encoded form contains only the y field
    assert_eq!(m.write_to_bytes(), vec![0x12, 0x02, 0x68, 0x69]);
}

#[test]
fn unknown_field_round_trips_through_reencoding() {
    // field 8 is not in the descriptor: its bytes must reappear
    let desc = descriptor(vec![field(1, RuntimeFieldType::Singular(RuntimeType::I32))]);
    let m = decode(&desc, vec![0x40, 0x2A]);
    assert_eq!(m.get_unknown_fields().len(), 1);
    assert_eq!(m.write_to_bytes(), vec![0x40, 0x2A]);
}

#[test]
fn known_and_unknown_fields_reencode_together() {
    let desc = descriptor(vec![field(1, RuntimeFieldType::Singular(RuntimeType::I32))]);
    let m = decode(&desc, vec![0x08, 0x05, 0x40, 0x2A]);
    assert_eq!(m.write_to_bytes(), vec![0x08, 0x05, 0x40, 0x2A]);
}

#[test]
fn nested_message_builds_and_round_trips() {
    // message Outer { Inner inner = 1; } message Inner { int32 v = 1; }
    let inner_desc = descriptor(vec![field(1, RuntimeFieldType::Singular(RuntimeType::I32))]);
    let outer_desc = descriptor(vec![field(
        1,
        RuntimeFieldType::Singular(RuntimeType::Message(Arc::clone(&inner_desc))),
    )]);
    let mut outer = DynamicMessage::new(Arc::clone(&outer_desc));
    match outer.mut_singular_field_or_default(0) {
        ReflectValueMut::Message(inner) => inner.set_field(0, ReflectValueBox::I32(9)),
    }
    let bytes = outer.write_to_bytes();
    assert_eq!(bytes, vec![0x0A, 0x02, 0x08, 0x09]);
    assert_eq!(outer.compute_size(), 4);

    let m2 = decode(&outer_desc, bytes);
    match m2.get_reflect(0) {
        ReflectFieldRef::Optional(Some(ReflectValueRef::Message(inner))) => {
            match inner.get_reflect(0) {
                ReflectFieldRef::Optional(Some(ReflectValueRef::I32(v))) => assert_eq!(v, 9),
                _ => panic!("inner.v must be 9"),
            }
        },
        _ => panic!("outer.inner must decode"),
    }
}

#[test]
fn fresh_message_and_materialized_message_observe_alike() {
    let desc = descriptor(vec![
        field(1, RuntimeFieldType::Singular(RuntimeType::U32)),
        field(2, RuntimeFieldType::Repeated(RuntimeType::String)),
        field(3, RuntimeFieldType::MapOf(RuntimeType::U32, RuntimeType::Bool)),
    ]);
    let fresh = DynamicMessage::new(Arc::clone(&desc));
    let mut inited = DynamicMessage::new(Arc::clone(&desc));
    inited.init_fields();

    assert!(matches!(fresh.get_reflect(0), ReflectFieldRef::Optional(None)));
    assert!(matches!(inited.get_reflect(0), ReflectFieldRef::Optional(None)));
    match (fresh.get_reflect(1), inited.get_reflect(1)) {
        (ReflectFieldRef::Repeated(None), ReflectFieldRef::Repeated(Some(rep))) => {
            assert_eq!(rep.len(), 0)
        },
        _ => panic!("both must observe an empty repeated field"),
    }
    match (fresh.get_reflect(2), inited.get_reflect(2)) {
        (ReflectFieldRef::MapOf(None), ReflectFieldRef::MapOf(Some(mp))) => {
            assert!(mp.is_empty())
        },
        _ => panic!("both must observe an empty map field"),
    }
    // both encode to nothing
    assert_eq!(fresh.write_to_bytes(), Vec::<u8>::new());
    assert_eq!(inited.write_to_bytes(), Vec::<u8>::new());
}

#[test]
fn clear_returns_every_slot_to_default() {
    let desc = descriptor(vec![
        field(1, RuntimeFieldType::Singular(RuntimeType::U32)),
        field(2, RuntimeFieldType::Repeated(RuntimeType::I64)),
    ]);
    let mut m = DynamicMessage::new(Arc::clone(&desc));
    m.set_field(0, ReflectValueBox::U32(5));
    m.mut_repeated(1).push(ReflectValueBox::I64(6));
    m.clear();
    assert!(matches!(m.get_reflect(0), ReflectFieldRef::Optional(None)));
    assert_eq!(m.write_to_bytes(), Vec::<u8>::new());
    assert_eq!(m.compute_size(), 0);
}

#[test]
fn clear_field_empties_only_that_field() {
    let desc = descriptor(vec![
        field(1, RuntimeFieldType::Singular(RuntimeType::U32)),
        field(2, RuntimeFieldType::Singular(RuntimeType::Bool)),
    ]);
    let mut m = DynamicMessage::new(Arc::clone(&desc));
    m.set_field(0, ReflectValueBox::U32(5));
    m.set_field(1, ReflectValueBox::Bool(true));
    m.clear_field(0);
    assert!(matches!(m.get_reflect(0), ReflectFieldRef::Optional(None)));
    assert!(matches!(
        m.get_reflect(1),
        ReflectFieldRef::Optional(Some(ReflectValueRef::Bool(true)))
    ));
}

#[test]
fn float_bits_travel_fixed_width() {
    let desc = descriptor(vec![
        field(1, RuntimeFieldType::Singular(RuntimeType::F32)),
        field(2, RuntimeFieldType::Singular(RuntimeType::F64)),
    ]);
    let mut m = DynamicMessage::new(Arc::clone(&desc));
    m.set_field(0, ReflectValueBox::F32(1.5f32.to_bits()));
    m.set_field(1, ReflectValueBox::F64(0.5f64.to_bits()));
    let bytes = m.write_to_bytes();
    assert_eq!(
        bytes,
        vec![
            0x0D, 0x00, 0x00, 0xC0, 0x3F, // field 1, fixed32, 1.5f32
            0x11, 0x00, 0x00, 0x00, 0x00, 0x00, 0x00, 0xE0, 0x3F, // field 2, fixed64, 0.5f64
        ]
    );
    let m2 = decode(&desc, bytes);
    match m2.get_reflect(0) {
        ReflectFieldRef::Optional(Some(ReflectValueRef::F32(b))) => {
            assert_eq!(f32::from_bits(b), 1.5f32)
        },
        _ => panic!("f32 bits must round-trip"),
    }
    match m2.get_reflect(1) {
        ReflectFieldRef::Optional(Some(ReflectValueRef::F64(b))) => {
            assert_eq!(f64::from_bits(b), 0.5f64)
        },
        _ => panic!("f64 bits must round-trip"),
    }
}

#[test]
fn enum_values_carry_their_descriptor_and_ordinal() {
    let color = EnumDescriptor { id: 4 };
    let desc = descriptor(vec![field(
        1,
        RuntimeFieldType::Singular(RuntimeType::Enum(color)),
    )]);
    let mut m = DynamicMessage::new(Arc::clone(&desc));
    m.set_field(0, ReflectValueBox::Enum(color, 3));
    let bytes = m.write_to_bytes();
    assert_eq!(bytes, vec![0x08, 0x03]);
    let m2 = decode(&desc, bytes);
    match m2.get_reflect(0) {
        ReflectFieldRef::Optional(Some(ReflectValueRef::Enum(d, v))) => {
            assert_eq!(d, color);
            assert_eq!(v, 3);
        },
        _ => panic!("enum field must decode"),
    }
}

#[test]
fn string_and_bytes_round_trip_through_the_wire() {
    let desc = descriptor(vec![
        field(1, RuntimeFieldType::Singular(RuntimeType::String)),
        field(2, RuntimeFieldType::Singular(RuntimeType::Bytes)),
    ]);
    let mut m = DynamicMessage::new(Arc::clone(&desc));
    m.set_field(0, ReflectValueBox::String("héllo".to_owned()));
    m.set_field(1, ReflectValueBox::Bytes(vec![0x00, 0xFF, 0x7F]));
    let bytes = m.write_to_bytes();
    assert_eq!(m.compute_size() as usize, bytes.len());
    let m2 = decode(&desc, bytes);
    match m2.get_reflect(0) {
        ReflectFieldRef::Optional(Some(ReflectValueRef::String(s))) => assert_eq!(s, "héllo"),
        _ => panic!("string must round-trip"),
    }
    match m2.get_reflect(1) {
        ReflectFieldRef::Optional(Some(ReflectValueRef::Bytes(b))) => {
            assert_eq!(b, &[0x00u8, 0xFF, 0x7F][..])
        },
        _ => panic!("bytes must round-trip"),
    }
}

#[test]
fn a_present_default_value_still_emits_its_field() {
    // this core records presence: an empty string set explicitly is
    // still written
    let desc = descriptor(vec![field(1, RuntimeFieldType::Singular(RuntimeType::String))]);
    let mut m = DynamicMessage::new(Arc::clone(&desc));
    m.set_field(0, ReflectValueBox::String(String::new()));
    assert_eq!(m.write_to_bytes(), vec![0x0A, 0x00]);
}

#[test]
fn the_largest_field_number_still_frames() {
    // 0x1FFFFFFF is the last 29-bit field number
    let desc = descriptor(vec![field(
        0x1FFF_FFFF,
        RuntimeFieldType::Singular(RuntimeType::U32),
    )]);
    let mut m = DynamicMessage::new(Arc::clone(&desc));
    m.set_field(0, ReflectValueBox::U32(1));
    let bytes = m.write_to_bytes();
    // tag = (0x1FFFFFFF << 3) | 0 = 0xFFFFFFF8, five varint bytes
    assert_eq!(bytes, vec![0xF8, 0xFF, 0xFF, 0xFF, 0x0F, 0x01]);
    let m2 = decode(&desc, bytes);
    assert!(matches!(
        m2.get_reflect(0),
        ReflectFieldRef::Optional(Some(ReflectValueRef::U32(1)))
    ));
}

#[test]
fn u64_extremes_round_trip() {
    let desc = descriptor(vec![field(1, RuntimeFieldType::Singular(RuntimeType::U64))]);
    let mut m = DynamicMessage::new(Arc::clone(&desc));
    m.set_field(0, ReflectValueBox::U64(u64::MAX));
    let bytes = m.write_to_bytes();
    assert_eq!(bytes.len(), 11);
    let m2 = decode(&desc, bytes);
    assert!(matches!(
        m2.get_reflect(0),
        ReflectFieldRef::Optional(Some(ReflectValueRef::U64(u64::MAX)))
    ));
}

#[test]
fn unknown_fields_of_every_wire_shape_pass_through() {
    let desc = descriptor(vec![field(1, RuntimeFieldType::Singular(RuntimeType::I32))]);
    // field 2 varint, field 3 fixed64, field 4 length-delimited, field 5 fixed32
    let raw = vec![
        0x10, 0x2A, // 2: varint 42
        0x19, 0x01, 0x00, 0x00, 0x00, 0x00, 0x00, 0x00, 0x00, // 3: fixed64
        0x22, 0x02, 0xAB, 0xCD, // 4: two raw bytes
        0x2D, 0x04, 0x00, 0x00, 0x00, // 5: fixed32
    ];
    let m = decode(&desc, raw.clone());
    assert_eq!(m.get_unknown_fields().len(), 4);
    assert_eq!(m.write_to_bytes(), raw);
}
