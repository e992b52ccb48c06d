use redismodule_cmd::{Arg, ArgType, CmdError, Command, Token, Value};

fn tokens(raw: &[&str]) -> Vec<Token> {
    raw.iter().map(|s| Token::new(s, s.parse::<f64>().ok().map(f64::to_bits))).collect()
}

fn owned(raw: Vec<String>) -> Vec<Token> {
    raw.iter().map(|s| Token::new(s, s.parse::<f64>().ok().map(f64::to_bits))).collect()
}

fn abc_schema() -> Command {
    let mut cmd = Command::new("cmd");
    cmd.add_arg(Arg::new("A", ArgType::String, 1, None, false)).unwrap();
    cmd.add_arg(Arg::new("B", ArgType::String, 1, Some(Value::String("b-default".to_owned())), false)).unwrap();
    cmd.add_arg(Arg::new("C", ArgType::String, 1, Some(Value::String("c-default".to_owned())), true)).unwrap();
    cmd
}

#[test]
fn parse_args_test() {
    let mut cmd = Command::new("test");
    cmd.add_arg(Arg::new("required", ArgType::String, 1, None, false)).unwrap();
    cmd.add_arg(Arg::new("optional", ArgType::String, 1, Some(Value::String("foo".to_owned())), false)).unwrap();
    cmd.add_arg(Arg::new("uintarg", ArgType::UnsignedInteger, 1, Some(Value::UnsignedInteger(1_u64)), true)).unwrap();
    cmd.add_arg(Arg::new("intarg", ArgType::SignedInteger, 1, None, true)).unwrap();
    cmd.add_arg(Arg::new("floatarg", ArgType::Float, 1, None, true)).unwrap();

    let raw_args = vec!["test".to_owned()];
    let parsed = cmd.parse_args(owned(raw_args));
    assert_eq!(parsed.is_err(), true);

    let raw_args = vec![
        "test".to_owned(),
        "bar".to_owned(),
        "intarg".to_owned(),
        "2".to_owned(),
        "floatarg".to_owned(),
        "3.14".to_owned(),
    ];
    let parsed = cmd.parse_args(owned(raw_args));
    assert_eq!(parsed.is_ok(), true);
    assert_eq!(parsed.is_err(), false);

    let mut parsed = parsed.unwrap();
    assert_eq!(
        parsed.remove("required").unwrap().as_string().unwrap(),
        "bar".to_owned()
    );
    assert_eq!(
        parsed.remove("optional").unwrap().as_string().unwrap(),
        "foo".to_owned()
    );
    assert_eq!(
        parsed.remove("uintarg").unwrap().as_u64().unwrap(),
        1_u64
    );
    assert_eq!(
        parsed.remove("intarg").unwrap().as_i64().unwrap(),
        2_i64
    );
    assert_eq!(
        f64::from_bits(parsed.remove("floatarg").unwrap().as_f64_bits().unwrap()),
        3.14
    );
}

#[test]
fn parse_vec_args_test() {
    let mut cmd = Command::new("test");
    cmd.add_arg(Arg::new("foo", ArgType::String, 1, None, false)).unwrap();
    cmd.add_arg(Arg::new("vec1", ArgType::UnsignedInteger, 2, None, false)).unwrap();
    cmd.add_arg(Arg::new("vec2", ArgType::SignedInteger, 3, None, true)).unwrap();
    cmd.add_arg(Arg::new("fizz", ArgType::String, 1, None, true)).unwrap();

    let raw_args = vec![
        "test".to_owned(),
        "bar".to_owned(),
        "1".to_owned(),
    ];
    let parsed = cmd.parse_args(owned(raw_args));
    assert_eq!(parsed.is_err(), true);

    let raw_args = vec![
        "test".to_owned(),
        "bar".to_owned(),
        "1".to_owned(),
        "1".to_owned(),
        "vec2".to_owned(),
        "2".to_owned(),
        "2".to_owned(),
        "2".to_owned(),
        "fizz".to_owned(),
        "buzz".to_owned(),
    ];
    let parsed = cmd.parse_args(owned(raw_args));
    assert_eq!(parsed.is_ok(), true);
    assert_eq!(parsed.is_err(), false);

    let mut parsed = parsed.unwrap();
    assert_eq!(
        parsed.remove("foo").unwrap().as_string().unwrap(),
        "bar".to_owned()
    );
    assert_eq!(
        parsed.remove("vec1").unwrap().as_u64vec().unwrap(),
        vec![1_u64; 2]
    );
    assert_eq!(
        parsed.remove("vec2").unwrap().as_i64vec().unwrap(),
        vec![2_i64; 3]
    );
    assert_eq!(
        parsed.remove("fizz").unwrap().as_string().unwrap(),
        "buzz".to_owned()
    );
}

#[test]
fn result_holds_one_entry_per_declared_argument() {
    let cmd = abc_schema();
    let res = cmd.parse_args(tokens(&["cmd", "v1"])).unwrap();
    assert_eq!(res.len(), 3);
    assert!(res.contains_key("A"));
    assert!(res.contains_key("B"));
    assert!(res.contains_key("C"));
    assert!(!res.contains_key("cmd"));

    let res = cmd.parse_args(tokens(&["cmd", "v1", "v2", "c", "v3"])).unwrap();
    assert_eq!(res.len(), 3);
    assert_eq!(res.get("A"), Some(&Value::String("v1".to_owned())));
    assert_eq!(res.get("B"), Some(&Value::String("v2".to_owned())));
    assert_eq!(res.get("C"), Some(&Value::String("v3".to_owned())));
}

#[test]
fn parsing_twice_gives_equal_results() {
    let cmd = abc_schema();
    let first = cmd.parse_args(tokens(&["cmd", "v1", "C", "x"])).unwrap();
    let second = cmd.parse_args(tokens(&["cmd", "v1", "C", "x"])).unwrap();
    assert_eq!(first.len(), second.len());
    for name in ["A", "B", "C"] {
        assert_eq!(first.get(name), second.get(name));
    }
    let bad_first = cmd.parse_args(tokens(&["cmd", "v1", "C"]));
    let bad_second = cmd.parse_args(tokens(&["cmd", "v1", "C"]));
    assert_eq!(bad_first.unwrap_err(), bad_second.unwrap_err());
}

#[test]
fn omitted_arguments_take_independent_copies_of_their_defaults() {
    let cmd = abc_schema();
    let mut first = cmd.parse_args(tokens(&["cmd", "v1"])).unwrap();
    assert_eq!(first.get("B"), Some(&Value::String("b-default".to_owned())));
    assert_eq!(first.get("C"), Some(&Value::String("c-default".to_owned())));

    first.insert("B".to_owned(), Value::String("overwritten".to_owned()));
    let taken = first.remove("C").unwrap();
    assert_eq!(taken, Value::String("c-default".to_owned()));

    let second = cmd.parse_args(tokens(&["cmd", "v1"])).unwrap();
    assert_eq!(second.get("B"), Some(&Value::String("b-default".to_owned())));
    assert_eq!(second.get("C"), Some(&Value::String("c-default".to_owned())));
    assert_eq!(cmd.optional_args()[0].default(), &Some(Value::String("b-default".to_owned())));
    assert_eq!(cmd.named_args()[0].default(), &Some(Value::String("c-default".to_owned())));
}

#[test]
fn required_and_optional_positionals_come_before_names() {
    let cmd = abc_schema();
    let res = cmd.parse_args(tokens(&["cmd", "v1", "v2"])).unwrap();
    assert_eq!(res.get("A"), Some(&Value::String("v1".to_owned())));
    assert_eq!(res.get("B"), Some(&Value::String("v2".to_owned())));
    assert_eq!(res.get("C"), Some(&Value::String("c-default".to_owned())));

    let res = cmd.parse_args(tokens(&["cmd", "C"])).unwrap();
    assert_eq!(res.get("A"), Some(&Value::String("C".to_owned())));
    assert_eq!(res.get("C"), Some(&Value::String("c-default".to_owned())));
}

#[test]
fn a_named_argument_ends_optional_matching_for_good() {
    let cmd = abc_schema();
    let err = cmd.parse_args(tokens(&["cmd", "v1", "C", "v2", "v3"])).unwrap_err();
    assert_eq!(err, CmdError::UnexpectedArgument("v3".to_owned()));

    let res = cmd.parse_args(tokens(&["cmd", "v1", "C", "v2"])).unwrap();
    assert_eq!(res.get("A"), Some(&Value::String("v1".to_owned())));
    assert_eq!(res.get("B"), Some(&Value::String("b-default".to_owned())));
    assert_eq!(res.get("C"), Some(&Value::String("v2".to_owned())));
}

#[test]
fn truncated_vector_is_wrong_arity() {
    let mut cmd = Command::new("cmd");
    cmd.add_arg(Arg::new("V", ArgType::UnsignedInteger, 3, None, false)).unwrap();
    assert_eq!(cmd.parse_args(tokens(&["cmd", "1", "2"])).unwrap_err(), CmdError::WrongArity);
    assert_eq!(cmd.parse_args(tokens(&["cmd", "1"])).unwrap_err(), CmdError::WrongArity);
    let res = cmd.parse_args(tokens(&["cmd", "1", "2", "3"])).unwrap();
    assert_eq!(
        res.get("V"),
        Some(&Value::Vector(vec![Value::UnsignedInteger(1), Value::UnsignedInteger(2), Value::UnsignedInteger(3)]))
    );
    assert_eq!(
        cmd.parse_args(tokens(&["cmd", "1", "x"])).unwrap_err(),
        CmdError::InvalidNumber("x".to_owned(), ArgType::UnsignedInteger)
    );
}

#[test]
fn command_name_is_compared_without_case() {
    let cmd = Command::new("hello.foo");
    assert!(cmd.parse_args(tokens(&["HELLO.FOO"])).is_ok());
    assert!(cmd.parse_args(tokens(&["hello.foo"])).is_ok());
    assert_eq!(
        cmd.parse_args(tokens(&["other"])).unwrap_err(),
        CmdError::NameMismatch("hello.foo".to_owned(), "other".to_owned())
    );
    let upper = Command::new("Hello.Foo");
    assert!(upper.parse_args(tokens(&["hello.FOO"])).is_ok());
    assert_eq!(
        upper.parse_args(tokens(&["Hello"])).unwrap_err(),
        CmdError::NameMismatch("Hello.Foo".to_owned(), "Hello".to_owned())
    );
}

#[test]
fn trailing_token_is_unexpected() {
    let mut cmd = Command::new("cmd");
    cmd.add_arg(Arg::new("A", ArgType::String, 1, None, false)).unwrap();
    cmd.add_arg(Arg::new("B", ArgType::String, 1, Some(Value::String("d".to_owned())), false)).unwrap();
    assert_eq!(
        cmd.parse_args(tokens(&["cmd", "v1", "v2", "extra"])).unwrap_err(),
        CmdError::UnexpectedArgument("extra".to_owned())
    );
    let bare = Command::new("cmd");
    assert_eq!(
        bare.parse_args(tokens(&["cmd", "extra"])).unwrap_err(),
        CmdError::UnexpectedArgument("extra".to_owned())
    );
}

#[test]
fn empty_input_is_wrong_arity() {
    let cmd = abc_schema();
    assert_eq!(cmd.parse_args(Vec::new()).unwrap_err(), CmdError::WrongArity);
}

#[test]
fn missing_arguments_are_reported_by_name() {
    let mut cmd = Command::new("cmd");
    cmd.add_arg(Arg::new("first", ArgType::String, 1, None, false)).unwrap();
    cmd.add_arg(Arg::new("second", ArgType::String, 1, None, false)).unwrap();
    cmd.add_arg(Arg::new("must", ArgType::String, 1, None, true)).unwrap();
    assert_eq!(cmd.parse_args(tokens(&["cmd"])).unwrap_err(), CmdError::MissingRequired("first".to_owned()));
    assert_eq!(cmd.parse_args(tokens(&["cmd", "a"])).unwrap_err(), CmdError::MissingRequired("second".to_owned()));
    assert_eq!(cmd.parse_args(tokens(&["cmd", "a", "b"])).unwrap_err(), CmdError::MissingRequired("must".to_owned()));
    assert!(cmd.parse_args(tokens(&["cmd", "a", "b", "MUST", "c"])).is_ok());
}

#[test]
fn named_argument_without_value_is_wrong_arity() {
    let cmd = abc_schema();
    assert_eq!(cmd.parse_args(tokens(&["cmd", "v1", "C"])).unwrap_err(), CmdError::WrongArity);
}

#[test]
fn named_arguments_come_in_any_order_and_the_last_value_stays() {
    let mut cmd = Command::new("cmd");
    cmd.add_arg(Arg::new("x", ArgType::SignedInteger, 1, Some(Value::SignedInteger(0)), true)).unwrap();
    cmd.add_arg(Arg::new("y", ArgType::SignedInteger, 2, Some(Value::SignedInteger(0)), true)).unwrap();
    let res = cmd.parse_args(tokens(&["cmd", "Y", "1", "-2", "x", "+3"])).unwrap();
    assert_eq!(res.get("x"), Some(&Value::SignedInteger(3)));
    assert_eq!(res.get("y"), Some(&Value::Vector(vec![Value::SignedInteger(1), Value::SignedInteger(-2)])));
    let res = cmd.parse_args(tokens(&["cmd", "x", "1", "x", "2"])).unwrap();
    assert_eq!(res.get("x"), Some(&Value::SignedInteger(2)));
    assert_eq!(res.len(), 2);
}

#[test]
fn numbers_are_read_strictly_in_base_ten() {
    let mut cmd = Command::new("cmd");
    cmd.add_arg(Arg::new("u", ArgType::UnsignedInteger, 1, None, false)).unwrap();
    cmd.add_arg(Arg::new("i", ArgType::SignedInteger, 1, None, false)).unwrap();
    cmd.add_arg(Arg::new("f", ArgType::Float, 1, None, false)).unwrap();

    let res = cmd.parse_args(tokens(&["cmd", "18446744073709551615", "-9223372036854775808", "-1.5e3"])).unwrap();
    assert_eq!(res.get("u"), Some(&Value::UnsignedInteger(u64::MAX)));
    assert_eq!(res.get("i"), Some(&Value::SignedInteger(i64::MIN)));
    assert_eq!(res.get("f"), Some(&Value::Float((-1500.0_f64).to_bits())));

    let res = cmd.parse_args(tokens(&["cmd", "+007", "9223372036854775807", "2"])).unwrap();
    assert_eq!(res.get("u"), Some(&Value::UnsignedInteger(7)));
    assert_eq!(res.get("i"), Some(&Value::SignedInteger(i64::MAX)));
    assert_eq!(res.get("f"), Some(&Value::Float(2.0_f64.to_bits())));

    let bad_unsigned = ["", "+", "-1", "-0", "1 ", " 1", "1_0", "0x10", "1.0", "18446744073709551616", "abc"];
    for token in bad_unsigned {
        assert_eq!(
            cmd.parse_args(tokens(&["cmd", token, "1", "1"])).unwrap_err(),
            CmdError::InvalidNumber(token.to_owned(), ArgType::UnsignedInteger)
        );
    }
    let bad_signed = ["", "-", "+", "+-1", "--1", "9223372036854775808", "-9223372036854775809", "1e3", "one"];
    for token in bad_signed {
        assert_eq!(
            cmd.parse_args(tokens(&["cmd", "1", token, "1"])).unwrap_err(),
            CmdError::InvalidNumber(token.to_owned(), ArgType::SignedInteger)
        );
    }
    assert_eq!(
        cmd.parse_args(tokens(&["cmd", "1", "1", "1,5"])).unwrap_err(),
        CmdError::InvalidNumber("1,5".to_owned(), ArgType::Float)
    );
}

#[test]
fn a_float_is_taken_from_the_token_s_reading() {
    let mut cmd = Command::new("cmd");
    cmd.add_arg(Arg::new("f", ArgType::Float, 1, None, false)).unwrap();
    let given = vec![Token::new("cmd", None), Token::new("0.5", Some(0.5_f64.to_bits()))];
    let res = cmd.parse_args(given).unwrap();
    assert_eq!(res.get("f"), Some(&Value::Float(0.5_f64.to_bits())));
    let unread = vec![Token::new("cmd", None), Token::new("0.5", None)];
    assert_eq!(
        cmd.parse_args(unread).unwrap_err(),
        CmdError::InvalidNumber("0.5".to_owned(), ArgType::Float)
    );
}

#[test]
fn string_tokens_pass_through_unchanged() {
    let mut cmd = Command::new("cmd");
    cmd.add_arg(Arg::new("s", ArgType::String, 2, None, false)).unwrap();
    let res = cmd.parse_args(tokens(&["cmd", " MiXed ", ""])).unwrap();
    assert_eq!(
        res.get("s"),
        Some(&Value::Vector(vec![Value::String(" MiXed ".to_owned()), Value::String("".to_owned())]))
    );
}

#[test]
fn zero_length_counts_as_one_token() {
    let mut cmd = Command::new("cmd");
    cmd.add_arg(Arg::new("z", ArgType::UnsignedInteger, 0, None, false)).unwrap();
    let res = cmd.parse_args(tokens(&["cmd", "5"])).unwrap();
    assert_eq!(res.get("z"), Some(&Value::UnsignedInteger(5)));
}

#[test]
fn hello_foo_scenarios() {
    let mut cmd = Command::new("hello.foo");
    cmd.add_arg(Arg::new("input", ArgType::String, 1, None, false)).unwrap();
    cmd.add_arg(Arg::new("optional", ArgType::String, 1, Some(Value::String("baz".to_owned())), false)).unwrap();
    cmd.add_arg(Arg::new("n", ArgType::UnsignedInteger, 1, Some(Value::UnsignedInteger(1)), true)).unwrap();
    cmd.add_arg(Arg::new("vec1", ArgType::SignedInteger, 3, None, true)).unwrap();

    let mut res = cmd.parse_args(tokens(&["hello.foo", "bar", "n", "2", "vec1", "3", "1", "1"])).unwrap();
    assert_eq!(res.remove("input").unwrap().as_string().unwrap(), "bar".to_owned());
    assert_eq!(res.remove("optional").unwrap().as_string().unwrap(), "baz".to_owned());
    assert_eq!(res.remove("n").unwrap().as_u64().unwrap(), 2);
    assert_eq!(res.remove("vec1").unwrap().as_i64vec().unwrap(), vec![3_i64, 1, 1]);

    assert_eq!(
        cmd.parse_args(tokens(&["hello.foo", "n", "2", "3"])).unwrap_err(),
        CmdError::UnexpectedArgument("3".to_owned())
    );
    assert_eq!(
        cmd.parse_args(tokens(&["hello", "n", "2"])).unwrap_err(),
        CmdError::NameMismatch("hello.foo".to_owned(), "hello".to_owned())
    );
    assert_eq!(
        cmd.parse_args(tokens(&["hello.foo", "bar", "n", "2", "bad"])).unwrap_err(),
        CmdError::UnexpectedArgument("bad".to_owned())
    );
}
