use std::sync::Arc;
use protodyn::descriptor::{FieldDescriptor, MessageDescriptor, RuntimeFieldType, RuntimeType};
use protodyn::dynamic::DynamicMessage;
use protodyn::input::{InputStream, WireError};
use protodyn::output::OutputStream;
use protodyn::path::{ProtobufAbsolutePath, ProtobufPath, ProtobufRelativePath};

fn one_field_desc() -> Arc<MessageDescriptor> {
    Arc::new(MessageDescriptor {
        fields: vec![FieldDescriptor {
            number: 1,
            field_type: RuntimeFieldType::Singular(RuntimeType::I32),
            oneof: None,
        }],
    })
}

fn decode_err(bytes: Vec<u8>) -> WireError {
    let mut m = DynamicMessage::new(one_field_desc());
    let mut is = InputStream::new(bytes);
    m.merge_from(&mut is).expect_err("decode must fail")
}

#[test]
fn varint_writer_and_reader_agree() {
    let mut os = OutputStream::new();
    os.write_raw_varint64(300);
    os.write_raw_varint64(0);
    os.write_raw_varint64(u64::MAX);
    let bytes = os.bytes().clone();
    assert_eq!(bytes[0], 0xAC);
    assert_eq!(bytes[1], 0x02);
    let mut is = InputStream::new(bytes);
    assert_eq!(is.read_raw_varint64(), Ok(300));
    assert_eq!(is.read_raw_varint64(), Ok(0));
    assert_eq!(is.read_raw_varint64(), Ok(u64::MAX));
    assert!(is.eof());
}

#[test]
fn truncated_input_is_an_eof_error() {
    // a tag announcing field 1 with no payload behind it
    assert_eq!(decode_err(vec![0x08]), WireError::UnexpectedEof);
    // a varint cut short mid-continuation
    assert_eq!(decode_err(vec![0x08, 0x80]), WireError::UnexpectedEof);
}

#[test]
fn overlong_varint_is_malformed() {
    let mut bytes = vec![0x08];
    bytes.extend(std::iter::repeat(0x80).take(10));
    bytes.push(0x01);
    assert_eq!(decode_err(bytes), WireError::MalformedVarint);
}

#[test]
fn bad_wire_type_and_zero_field_number_are_malformed_tags() {
    // low three bits 7: no such wire type
    assert_eq!(decode_err(vec![0x0F]), WireError::MalformedTag);
    // field number zero
    assert_eq!(decode_err(vec![0x00]), WireError::MalformedTag);
}

#[test]
fn declared_length_past_the_input_is_truncation() {
    let desc = Arc::new(MessageDescriptor {
        fields: vec![FieldDescriptor {
            number: 1,
            field_type: RuntimeFieldType::Singular(RuntimeType::Bytes),
            oneof: None,
        }],
    });
    let mut m = DynamicMessage::new(desc);
    let mut is = InputStream::new(vec![0x0A, 0x05, 0x01]);
    assert_eq!(m.merge_from(&mut is), Err(WireError::Truncated));
}

#[test]
fn invalid_utf8_in_a_string_field_is_reported() {
    let desc = Arc::new(MessageDescriptor {
        fields: vec![FieldDescriptor {
            number: 1,
            field_type: RuntimeFieldType::Singular(RuntimeType::String),
            oneof: None,
        }],
    });
    let mut m = DynamicMessage::new(desc);
    let mut is = InputStream::new(vec![0x0A, 0x01, 0xFF]);
    assert_eq!(m.merge_from(&mut is), Err(WireError::InvalidUtf8));
}

#[test]
fn limits_nest_and_restore() {
    let mut is = InputStream::new(vec![1, 2, 3, 4, 5]);
    let outer = is.push_limit(3).expect("limit fits");
    assert_eq!(is.read_raw_byte(), Ok(1));
    assert_eq!(is.read_raw_byte(), Ok(2));
    assert_eq!(is.read_raw_byte(), Ok(3));
    assert!(is.eof());
    is.pop_limit(outer);
    assert!(!is.eof());
    assert_eq!(is.read_raw_byte(), Ok(4));
}

#[test]
fn fixed_width_readers_are_little_endian() {
    let mut is = InputStream::new(vec![0x01, 0x02, 0x03, 0x04]);
    assert_eq!(is.read_fixed32(), Ok(0x04030201));
    let mut is = InputStream::new(vec![8, 7, 6, 5, 4, 3, 2, 1]);
    assert_eq!(is.read_fixed64(), Ok(0x0102030405060708));
}

#[test]
fn absolute_path_resolves_to_itself() {
    let p = ProtobufPath::new(".a.B".to_owned());
    let package = ProtobufAbsolutePath::new(".pkg".to_owned());
    let r = p.resolve(&package);
    assert_eq!(r.path, ".a.B");
}

#[test]
fn relative_path_resolves_under_the_package() {
    let p = ProtobufPath::new("C.d".to_owned());
    let package = ProtobufAbsolutePath::new(".pkg".to_owned());
    let r = p.resolve(&package);
    assert_eq!(r.path, ".pkg.C.d");
}

#[test]
fn empty_relative_path_leaves_the_package_alone() {
    let p = ProtobufPath::new(String::new());
    let package = ProtobufAbsolutePath::new(".pkg".to_owned());
    assert_eq!(p.resolve(&package).path, ".pkg");
}

#[test]
fn push_relative_appends_with_a_dot() {
    let mut abs = ProtobufAbsolutePath::new(".a".to_owned());
    abs.push_relative(&ProtobufRelativePath::new("b".to_owned()));
    assert_eq!(abs.path, ".a.b");
    abs.push_relative(&ProtobufRelativePath::new(String::new()));
    assert_eq!(abs.path, ".a.b");
}
