use protodyn::value_box::{observation_eq, ReflectValueBox, ReflectValueRef};

#[test]
fn reflect_value_box_downcast_primitive() {
    let r = ReflectValueBox::U32(10).downcast::<u32>();
    assert!(matches!(r, Ok(10)));
    let r = ReflectValueBox::I32(10).downcast::<u32>();
    assert!(matches!(r, Err(ReflectValueBox::I32(10))));
}

#[test]
fn reflect_value_box_downcast_string() {
    let r = ReflectValueBox::String("aa".to_owned()).downcast::<String>();
    match r {
        Ok(s) => assert_eq!(s, "aa"),
        Err(_) => panic!("downcast of a string box to String must succeed"),
    }
    let r = ReflectValueBox::String("aa".to_owned()).downcast::<u32>();
    match r {
        Err(ReflectValueBox::String(s)) => assert_eq!(s, "aa"),
        _ => panic!("downcast to the wrong type must return the box unchanged"),
    }
    let r = ReflectValueBox::Bool(false).downcast::<String>();
    assert!(matches!(r, Err(ReflectValueBox::Bool(false))));
}

#[test]
fn downcast_round_trips_every_supported_primitive() {
    assert!(matches!(ReflectValueBox::U32(7).downcast::<u32>(), Ok(7)));
    assert!(matches!(ReflectValueBox::U64(8).downcast::<u64>(), Ok(8)));
    assert!(matches!(ReflectValueBox::I32(-9).downcast::<i32>(), Ok(-9)));
    assert!(matches!(ReflectValueBox::I64(-10).downcast::<i64>(), Ok(-10)));
    assert!(matches!(ReflectValueBox::Bool(true).downcast::<bool>(), Ok(true)));
    match ReflectValueBox::String("hi".to_owned()).downcast::<String>() {
        Ok(s) => assert_eq!(s, "hi"),
        Err(_) => panic!("string must round-trip"),
    }
    match ReflectValueBox::Bytes(vec![1u8, 2]).downcast::<Vec<u8>>() {
        Ok(b) => assert_eq!(b, vec![1u8, 2]),
        Err(_) => panic!("bytes must round-trip"),
    }
}

#[test]
fn downcast_wrong_type_returns_value_unchanged() {
    assert!(matches!(
        ReflectValueBox::U64(3).downcast::<i64>(),
        Err(ReflectValueBox::U64(3))
    ));
    assert!(matches!(
        ReflectValueBox::Bool(true).downcast::<u32>(),
        Err(ReflectValueBox::Bool(true))
    ));
}

#[test]
fn from_then_downcast_is_identity() {
    assert!(matches!(ReflectValueBox::from(5u32).downcast::<u32>(), Ok(5)));
    assert!(matches!(ReflectValueBox::from(6u64).downcast::<u64>(), Ok(6)));
    assert!(matches!(ReflectValueBox::from(-3i32).downcast::<i32>(), Ok(-3)));
    assert!(matches!(ReflectValueBox::from(-4i64).downcast::<i64>(), Ok(-4)));
    assert!(matches!(ReflectValueBox::from(true).downcast::<bool>(), Ok(true)));
    match ReflectValueBox::from("s".to_owned()).downcast::<String>() {
        Ok(s) => assert_eq!(s, "s"),
        Err(_) => panic!("a boxed string must come back out"),
    }
    match ReflectValueBox::from(vec![9u8]).downcast::<Vec<u8>>() {
        Ok(b) => assert_eq!(b, vec![9u8]),
        Err(_) => panic!("boxed bytes must come back out"),
    }
}

#[test]
fn value_sizes_follow_the_wire_format() {
    assert_eq!(ReflectValueBox::U64(0).compute_size(), 1);
    assert_eq!(ReflectValueBox::U64(127).compute_size(), 1);
    assert_eq!(ReflectValueBox::U64(128).compute_size(), 2);
    assert_eq!(ReflectValueBox::U64(300).compute_size(), 2);
    assert_eq!(ReflectValueBox::I32(-7).compute_size(), 10);
    assert_eq!(ReflectValueBox::F32(0).compute_size(), 4);
    assert_eq!(ReflectValueBox::F64(0).compute_size(), 8);
    // strings and bytes count their length prefix
    assert_eq!(ReflectValueBox::String("ab".to_owned()).compute_size(), 3);
    assert_eq!(ReflectValueBox::Bytes(vec![0u8; 5]).compute_size(), 6);
}

#[test]
fn values_compare_as_their_views_do() {
    assert!(observation_eq(&ReflectValueBox::U32(5), &ReflectValueBox::U32(5)));
    assert!(!observation_eq(&ReflectValueBox::U32(5), &ReflectValueBox::U32(6)));
    // a value of another kind is never equal, even with the same bits
    assert!(!observation_eq(&ReflectValueBox::U32(5), &ReflectValueBox::I32(5)));
    assert!(observation_eq(
        &ReflectValueBox::String("ab".to_owned()),
        &ReflectValueBox::String("ab".to_owned()),
    ));
    assert!(observation_eq(
        &ReflectValueBox::Bytes(vec![1, 2]),
        &ReflectValueBox::Bytes(vec![1, 2]),
    ));
    assert!(!observation_eq(
        &ReflectValueBox::Bytes(vec![1, 2]),
        &ReflectValueBox::Bytes(vec![1]),
    ));
    // floats compare by bits: two NaN payloads differ
    let nan1 = f32::NAN.to_bits();
    let nan2 = nan1 ^ 1;
    assert!(!observation_eq(&ReflectValueBox::F32(nan1), &ReflectValueBox::F32(nan2)));
    assert!(observation_eq(&ReflectValueBox::F32(nan1), &ReflectValueBox::F32(nan1)));
}

#[test]
fn as_value_ref_borrows_without_copying_shape() {
    let b = ReflectValueBox::String("xyz".to_owned());
    match b.as_value_ref() {
        ReflectValueRef::String(s) => assert_eq!(s, "xyz"),
        _ => panic!("string box must view as a string ref"),
    }
    let b = ReflectValueBox::U32(5);
    assert!(matches!(b.as_value_ref(), ReflectValueRef::U32(5)));
}
