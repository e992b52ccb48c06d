use redismodule_cmd::{CmdError, ParseResult, Requested, Token, Value};

#[test]
fn scalar_accessors_return_what_is_held() {
    assert_eq!(Value::String("bar".to_owned()).as_string(), Ok("bar".to_owned()));
    assert_eq!(Value::UnsignedInteger(7).as_u64(), Ok(7_u64));
    assert_eq!(Value::SignedInteger(-7).as_i64(), Ok(-7_i64));
    assert_eq!(Value::Float(2.5_f64.to_bits()).as_f64_bits().map(f64::from_bits), Ok(2.5_f64));
    let items = vec![Value::UnsignedInteger(1), Value::String("x".to_owned())];
    let held = Value::Vector(vec![Value::UnsignedInteger(1), Value::String("x".to_owned())]);
    assert_eq!(held.as_vec(), Ok(items));
}

#[test]
fn scalar_accessors_report_the_requested_type() {
    assert_eq!(Value::UnsignedInteger(7).as_string(), Err(CmdError::TypeMismatch(Requested::String)));
    assert_eq!(Value::SignedInteger(7).as_u64(), Err(CmdError::TypeMismatch(Requested::UnsignedInteger)));
    assert_eq!(Value::UnsignedInteger(7).as_i64(), Err(CmdError::TypeMismatch(Requested::SignedInteger)));
    assert_eq!(Value::UnsignedInteger(7).as_f64_bits(), Err(CmdError::TypeMismatch(Requested::Float)));
    assert_eq!(Value::String("x".to_owned()).as_vec(), Err(CmdError::TypeMismatch(Requested::Vector)));
    assert_eq!(Value::Vector(Vec::new()).as_u64(), Err(CmdError::TypeMismatch(Requested::UnsignedInteger)));
}

#[test]
fn vector_accessors_decode_every_element_in_order() {
    let strings = Value::Vector(vec![Value::String("a".to_owned()), Value::String("b".to_owned())]);
    assert_eq!(strings.as_stringvec(), Ok(vec!["a".to_owned(), "b".to_owned()]));
    let unsigned = Value::Vector(vec![Value::UnsignedInteger(3), Value::UnsignedInteger(1), Value::UnsignedInteger(2)]);
    assert_eq!(unsigned.as_u64vec(), Ok(vec![3_u64, 1, 2]));
    let signed = Value::Vector(vec![Value::SignedInteger(-3), Value::SignedInteger(4)]);
    assert_eq!(signed.as_i64vec(), Ok(vec![-3_i64, 4]));
    let floats = Value::Vector(vec![Value::Float(1.5_f64.to_bits()), Value::Float((-0.25_f64).to_bits())]);
    let read: Vec<f64> = floats.as_f64vec_bits().unwrap().into_iter().map(f64::from_bits).collect();
    assert_eq!(read, vec![1.5_f64, -0.25]);
    assert_eq!(Value::Vector(Vec::new()).as_u64vec(), Ok(Vec::new()));
}

#[test]
fn vector_accessors_are_all_or_nothing() {
    let mixed = Value::Vector(vec![Value::UnsignedInteger(3), Value::String("x".to_owned()), Value::UnsignedInteger(2)]);
    assert_eq!(mixed.as_u64vec(), Err(CmdError::TypeMismatch(Requested::UnsignedInteger)));
    let mixed = Value::Vector(vec![Value::String("x".to_owned()), Value::SignedInteger(2)]);
    assert_eq!(mixed.as_stringvec(), Err(CmdError::TypeMismatch(Requested::String)));
    let mixed = Value::Vector(vec![Value::SignedInteger(2), Value::UnsignedInteger(2)]);
    assert_eq!(mixed.as_i64vec(), Err(CmdError::TypeMismatch(Requested::SignedInteger)));
    let mixed = Value::Vector(vec![Value::Float(0), Value::UnsignedInteger(2)]);
    assert_eq!(mixed.as_f64vec_bits(), Err(CmdError::TypeMismatch(Requested::Float)));
    assert_eq!(Value::UnsignedInteger(1).as_u64vec(), Err(CmdError::TypeMismatch(Requested::Vector)));
    assert_eq!(Value::String("x".to_owned()).as_stringvec(), Err(CmdError::TypeMismatch(Requested::Vector)));
}

#[test]
fn deep_copy_is_equal_and_independent() {
    let source = Value::Vector(vec![
        Value::String("a".to_owned()),
        Value::Vector(vec![Value::SignedInteger(-1), Value::Float(7)]),
        Value::UnsignedInteger(9),
    ]);
    let mut copy = source.deep_copy();
    assert_eq!(copy, source);
    if let Value::Vector(items) = &mut copy {
        items[0] = Value::String("changed".to_owned());
    }
    assert_ne!(copy, source);
    assert_eq!(
        source.as_vec().unwrap()[0],
        Value::String("a".to_owned())
    );
}

#[test]
fn token_holds_text_lower_case_and_reading() {
    let t = Token::new("HeLLo.Foo", Some(3));
    assert_eq!(t.text(), "HeLLo.Foo");
    assert_eq!(t.folded(), "hello.foo");
    assert_eq!(t.float_bits(), Some(3));
    let u = Token::new("abc", None);
    assert_eq!(u.folded(), "abc");
    assert_eq!(u.float_bits(), None);
}

#[test]
fn parse_result_binds_replaces_and_removes() {
    let mut res = ParseResult::new();
    assert_eq!(res.len(), 0);
    assert!(!res.contains_key("a"));
    assert!(res.get("a").is_none());
    assert!(res.remove("a").is_none());

    res.insert("a".to_owned(), Value::UnsignedInteger(1));
    res.insert("b".to_owned(), Value::String("x".to_owned()));
    assert_eq!(res.len(), 2);
    assert!(res.contains_key("a"));
    assert_eq!(res.get("b"), Some(&Value::String("x".to_owned())));

    res.insert("a".to_owned(), Value::UnsignedInteger(2));
    assert_eq!(res.len(), 2);
    assert_eq!(res.get("a"), Some(&Value::UnsignedInteger(2)));

    assert_eq!(res.remove("a"), Some(Value::UnsignedInteger(2)));
    assert_eq!(res.len(), 1);
    assert!(!res.contains_key("a"));
    assert_eq!(res.get("b"), Some(&Value::String("x".to_owned())));
    assert!(res.remove("a").is_none());
}
