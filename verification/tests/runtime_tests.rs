use adamantium::runtime::{
    evaluate, list_error_message, optional_error_message, package_argument, package_call_problem,
    package_error_message, package_result, parse_arguments, program_message, trim, ArgumentSpec,
    ArgumentValue, ErrorState, PackageCall, PackageOutput, Request,
};
use adamantium::types::{
    convert, display, literal, literal_from_parse, operation, value_from_conversion, Printed, Type,
    Value,
};

fn word(value: i64) -> Value {
    Value { lo: value as u64, hi: 0 }
}

fn double(value: f64) -> Value {
    Value { lo: value.to_bits(), hi: 0 }
}

#[test]
fn integer_operations_are_checked() {
    assert_eq!(operation(0, Type::I8, word(100), word(27), word(0)), Ok(word(127)));
    assert_eq!(
        operation(0, Type::I8, word(100), word(28), word(0)),
        Err("value 128 is outside the range of i8".to_string())
    );
    assert_eq!(operation(1, Type::U8, word(3), word(5), word(0)).unwrap_err(), "value -2 is outside the range of u8");
    assert_eq!(operation(2, Type::I64, word(-3), word(7), word(0)), Ok(word(-21)));
    assert_eq!(operation(3, Type::I32, word(-7), word(2), word(0)), Ok(word(-3)));
    assert_eq!(operation(3, Type::I32, word(7), word(-2), word(0)), Ok(word(-3)));
    assert_eq!(
        operation(3, Type::I32, word(7), word(0), word(0)).unwrap_err(),
        "arithmetic overflow, division by zero or invalid clamp range"
    );
    assert_eq!(operation(4, Type::I16, word(5), word(0), word(0)), Ok(word(-5)));
    assert_eq!(operation(6, Type::I32, word(15), word(0), word(10)), Ok(word(10)));
    assert_eq!(operation(6, Type::I32, word(-4), word(0), word(10)), Ok(word(0)));
    assert_eq!(operation(6, Type::I32, word(4), word(0), word(10)), Ok(word(4)));
    assert!(operation(6, Type::I32, word(4), word(10), word(0)).is_err());
    assert!(operation(5, Type::I32, word(4), word(1), word(0)).is_err());
}

#[test]
fn unsigned_multiplication_beyond_i128_overflows() {
    let max = Value { lo: u64::MAX, hi: 0 };
    assert_eq!(
        operation(2, Type::U64, max, max, word(0)).unwrap_err(),
        "arithmetic overflow, division by zero or invalid clamp range"
    );
    assert_eq!(
        operation(2, Type::U64, max, word(2), word(0)).unwrap_err(),
        "value 36893488147419103230 is outside the range of u64"
    );
}

#[test]
fn comparisons_give_flags() {
    let yes = word(1);
    let no = word(0);
    assert_eq!(operation(7, Type::I32, word(3), word(3), no), Ok(yes));
    assert_eq!(operation(8, Type::I32, word(3), word(3), no), Ok(no));
    assert_eq!(operation(9, Type::I32, word(-3), word(3), no), Ok(yes));
    assert_eq!(operation(10, Type::I32, word(3), word(3), no), Ok(yes));
    assert_eq!(operation(11, Type::U8, word(3), word(4), no), Ok(no));
    assert_eq!(operation(12, Type::U8, word(4), word(4), no), Ok(yes));
    assert_eq!(operation(7, Type::Bool, word(1), word(1), no), Ok(yes));
    assert_eq!(operation(8, Type::Enum(2), word(1), word(0), no), Ok(yes));
    assert_eq!(
        operation(0, Type::Bool, word(1), word(1), no).unwrap_err(),
        "arithmetic is not supported for bool"
    );
    assert_eq!(
        operation(7, Type::String, word(1), word(1), no).unwrap_err(),
        "arithmetic is not supported for string"
    );
}

#[test]
fn float_operations_follow_ieee() {
    let zero = double(0.0);
    assert_eq!(operation(0, Type::F64, double(1.5), double(2.25), zero), Ok(double(3.75)));
    assert_eq!(operation(1, Type::F64, double(1.5), double(2.25), zero), Ok(double(-0.75)));
    assert_eq!(operation(2, Type::F64, double(1.5), double(2.0), zero), Ok(double(3.0)));
    assert_eq!(operation(3, Type::F64, double(1.0), double(4.0), zero), Ok(double(0.25)));
    assert_eq!(operation(4, Type::F64, double(1.0), zero, zero), Ok(double(-1.0)));
    assert_eq!(
        operation(3, Type::F64, double(1.0), zero, zero).unwrap_err(),
        "floating-point overflow or division by zero"
    );
    assert_eq!(operation(9, Type::F64, double(1.0), double(2.0), zero), Ok(word(1)));
    let nan = double(f64::NAN);
    assert_eq!(operation(7, Type::F64, nan, nan, zero), Ok(word(0)));
    assert_eq!(operation(8, Type::F64, nan, nan, zero), Ok(word(1)));
    assert_eq!(operation(6, Type::F64, double(7.5), double(0.0), double(2.0)), Ok(double(2.0)));
    assert_eq!(
        operation(6, Type::F64, double(7.5), double(2.0), double(0.0)).unwrap_err(),
        "invalid clamp range"
    );
    assert_eq!(operation(5, Type::F64, zero, zero, zero).unwrap_err(), "invalid operation");
    let single = |x: f32| Value { lo: u64::from(x.to_bits()), hi: 0 };
    assert_eq!(operation(0, Type::F32, single(0.5), single(0.25), single(0.0)), Ok(single(0.75)));
}

#[test]
fn literals_and_conversions_name_their_errors() {
    assert_eq!(literal("-12", Type::I8), Ok(word(-12)));
    assert_eq!(literal("300", Type::U8).unwrap_err(), "value 300 is outside the range of u8");
    assert_eq!(literal("1x", Type::I32).unwrap_err(), "invalid integer literal '1x' for i32");
    assert_eq!(literal("2.5", Type::F64), Ok(double(2.5)));
    assert_eq!(literal("1", Type::Bool).unwrap_err(), "numeric literal cannot have type bool");
    assert_eq!(convert(word(5), Type::I32, Type::F64), Ok(double(5.0)));
    assert_eq!(convert(word(-1), Type::I32, Type::U8).unwrap_err(), "value -1 is outside the range of u8");
    assert_eq!(convert(word(1), Type::Bool, Type::I32).unwrap_err(), "cannot convert bool to i32");
}

#[test]
fn values_print_as_the_runtime_prints_them() {
    assert_eq!(display(word(-42), Type::I32), Ok(Printed::Text("-42".into())));
    assert_eq!(display(Value { lo: u64::MAX, hi: 0 }, Type::U64), Ok(Printed::Text("18446744073709551615".into())));
    assert_eq!(display(word(1), Type::Bool), Ok(Printed::Text("true".into())));
    assert_eq!(display(word(0), Type::Bool), Ok(Printed::Text("false".into())));
    assert_eq!(display(word(0), Type::NoneType), Ok(Printed::Text("None".into())));
    assert_eq!(display(word(3), Type::Enum(1)), Ok(Printed::Text("3".into())));
    assert_eq!(display(double(2.5), Type::F64), Ok(Printed::Double(2.5f64.to_bits())));
    let quad = literal("1.5", Type::F128).unwrap();
    assert_eq!(display(quad, Type::F128), Ok(Printed::Text("1.5".into())));
    assert_eq!(display(word(0), Type::Class(0)).unwrap_err(), "class objects cannot be printed directly");
    assert_eq!(display(word(0), Type::String).unwrap_err(), "string values must be written as UTF-8 bytes");
}

#[test]
fn errors_inside_try_are_handed_back() {
    let mut state = ErrorState::new();
    assert_eq!(state.report("outside".into()), Some("outside".to_string()));
    assert!(!state.has_error());
    state.try_begin();
    assert!(state.is_trying());
    assert_eq!(state.report("inside".into()), None);
    assert!(state.has_error());
    state.try_leave();
    assert!(!state.is_trying());
    assert_eq!(state.take_error(), Some("inside".to_string()));
    assert!(!state.has_error());
    state.try_leave();
    assert_eq!(state.depth, 0);
}

#[test]
fn a_clean_try_forgets_earlier_errors() {
    let mut state = ErrorState::new();
    state.try_begin();
    state.report("first".into());
    state.try_leave();
    state.try_begin();
    state.try_leave();
    assert_eq!(state.take_error(), None);
}

#[test]
fn runtime_messages() {
    assert_eq!(
        list_error_message(5, 3),
        "Adamantium runtime error: List index 5 is out of bounds for length 3"
    );
    assert_eq!(
        optional_error_message(),
        "Adamantium runtime error: cannot access a field or method through None"
    );
    assert_eq!(program_message("boom", 12, true), "Adamantium program panicked at line 12: boom");
    assert_eq!(program_message("careful", 3, false), "Adamantium program warned at line 3: careful");
}

fn request(operation: u32, ty: Type, a: Value, b: Value) -> Request {
    Request { a, b, c: word(0), output: word(0), operation, ty: ty.id(), from: 0, reserved: 0 }
}

#[test]
fn evaluation_requests_store_results_or_report() {
    let mut add = request(0, Type::I32, word(2), word(3));
    assert_eq!(evaluate(&mut add), (0, None));
    assert_eq!(add.output, word(5));
    let mut divide = request(3, Type::I32, word(2), word(0));
    assert_eq!(
        evaluate(&mut divide),
        (2, Some("Adamantium runtime error: arithmetic overflow, division by zero or invalid clamp range".into()))
    );
    assert_eq!(divide.output, word(0));
    let mut conversion = request(5, Type::F64, word(4), word(0));
    conversion.from = Type::I32.id();
    assert_eq!(evaluate(&mut conversion), (0, None));
    assert_eq!(conversion.output, double(4.0));
    let mut invalid = request(0, Type::I32, word(1), word(1));
    invalid.ty = 20;
    assert_eq!(evaluate(&mut invalid), (2, None));
}

fn spec(name: &str, ty: Type, optional: bool) -> ArgumentSpec {
    ArgumentSpec { name: name.into(), ty: ty.id(), optional: u32::from(optional) }
}

fn args(items: &[&str]) -> (Vec<String>, Vec<bool>) {
    (items.iter().map(|s| s.to_string()).collect(), vec![true; items.len()])
}

#[test]
fn command_line_arguments_fill_parameters() {
    let specs = vec![
        spec("count", Type::I32, false),
        spec("name", Type::String, false),
        spec("loud", Type::Bool, false),
        spec("limit", Type::Optional(Type::U8.id()), true),
    ];
    let (argv, utf8) = args(&["program", "--count", "-3", "--name", "Ada", "--limit", "7", "--loud", "true"]);
    let parsed = parse_arguments(&argv, &utf8, &specs);
    assert_eq!(parsed.status, 0);
    assert!(parsed.messages.is_empty());
    assert_eq!(parsed.values[0], ArgumentValue::Scalar(word(-3)));
    assert_eq!(parsed.values[1], ArgumentValue::Text(4));
    assert_eq!(parsed.values[2], ArgumentValue::Scalar(word(1)));
    assert_eq!(parsed.values[3], ArgumentValue::Scalar(Value { lo: 7, hi: 1 }));
}

#[test]
fn unknown_and_missing_arguments_only_warn() {
    let specs = vec![spec("count", Type::I32, false), spec("flag", Type::Bool, true)];
    let (argv, utf8) = args(&["program", "stray", "--other", "value", "--count"]);
    let parsed = parse_arguments(&argv, &utf8, &specs);
    assert_eq!(parsed.status, 0);
    assert_eq!(
        parsed.messages,
        vec![
            "Adamantium argument warning: unknown argument 'stray'".to_string(),
            "Adamantium argument warning: unknown argument '--other'".to_string(),
            "Adamantium argument warning: missing value for '--count'".to_string(),
            "Adamantium argument warning: missing required argument '--count'".to_string(),
        ]
    );
    assert_eq!(parsed.values, vec![ArgumentValue::Scalar(word(0)); 2]);
}

#[test]
fn malformed_values_stop_the_program() {
    let specs = vec![spec("loud", Type::Bool, false), spec("count", Type::U8, false)];
    let (argv, utf8) = args(&["program", "--loud", "yes"]);
    let parsed = parse_arguments(&argv, &utf8, &specs);
    assert_eq!(parsed.status, 2);
    assert_eq!(parsed.messages, vec!["Adamantium argument error: '--loud' expects bool, found 'yes'".to_string()]);
    let (argv, utf8) = args(&["program", "--count", "300"]);
    let parsed = parse_arguments(&argv, &utf8, &specs);
    assert_eq!(parsed.status, 2);
    assert_eq!(
        parsed.messages,
        vec!["Adamantium argument error: invalid value '300' for '--count' (u8): value 300 is outside the range of u8".to_string()]
    );
    let (argv, _) = args(&["program", "--count", "\u{fffd}"]);
    let parsed = parse_arguments(&argv, &vec![true, true, false], &specs);
    assert_eq!(parsed.status, 2);
    assert!(parsed.messages.is_empty());
}

#[test]
fn trimming_removes_unicode_white_space() {
    assert_eq!(trim("  42\n"), "42");
    assert_eq!(trim("\u{3000}a b\t"), "a b");
    assert_eq!(trim(" \n "), "");
}

#[test]
fn package_results_are_read_by_type() {
    assert_eq!(package_result(b"anything", Type::NoneType), Ok(PackageOutput::Scalar(word(0))));
    assert_eq!(package_result(b" raw \n", Type::String), Ok(PackageOutput::Bytes(b" raw \n".to_vec())));
    assert_eq!(package_result(b" true\n", Type::Bool), Ok(PackageOutput::Scalar(word(1))));
    assert_eq!(
        package_result(b"maybe", Type::Bool).unwrap_err(),
        "package returned invalid bool 'maybe'"
    );
    assert_eq!(package_result(b"  42\n", Type::I32), Ok(PackageOutput::Scalar(word(42))));
    assert_eq!(package_result(b"x", Type::I32).unwrap_err(), "invalid integer literal 'x' for i32");
    let error = package_result(&[0xff, 0x31], Type::I32).unwrap_err();
    assert!(error.starts_with("package returned non-UTF-8 output: "));
}

fn call(count: u32, filesystem: u32) -> PackageCall {
    PackageCall {
        wasm: word(0),
        command: word(0),
        arguments: [word(0); 8],
        types: [0; 8],
        count,
        result_type: Type::NoneType.id(),
        filesystem,
        reserved: 0,
        output: word(0),
    }
}

#[test]
fn package_calls_are_checked_before_they_run() {
    assert_eq!(package_call_problem(&call(9, 0)), Some("package call has too many arguments".into()));
    assert_eq!(
        package_call_problem(&call(2, 3)),
        Some("package call has an invalid filesystem permission".into())
    );
    assert_eq!(package_call_problem(&call(8, 2)), None);
    assert_eq!(package_argument(word(7), Type::I32.id()), Ok(Some(Printed::Text("7".into()))));
    assert_eq!(package_argument(word(0), Type::String.id()), Ok(None));
    assert_eq!(package_argument(word(0), 20).unwrap_err(), "invalid package argument type");
    assert_eq!(package_error_message("  failed\n"), "Adamantium package error: failed");
}

#[test]
fn integer_remainder_truncates_toward_zero() {
    assert_eq!(operation(13, Type::I32, word(17), word(5), word(0)), Ok(word(2)));
    assert_eq!(operation(13, Type::I32, word(-17), word(5), word(0)), Ok(word(-2)));
    assert_eq!(operation(13, Type::I32, word(17), word(-5), word(0)), Ok(word(2)));
    assert!(operation(13, Type::I32, word(17), word(0), word(0)).is_err());
}

#[test]
fn type_identifiers_round_trip() {
    for ty in [Type::I8, Type::I16, Type::NoneType, Type::Enum(3), Type::Class(0), Type::List(Type::Class(0).id()), Type::Optional(Type::I32.id())] {
        assert_eq!(Type::from_id(ty.id()), Some(ty));
    }
}

#[test]
fn a_try_block_hands_back_its_last_error() {
    let mut state = ErrorState::new();
    state.try_begin();
    assert_eq!(state.report("first".to_string()), None);
    assert_eq!(state.report("second".to_string()), None);
    state.try_leave();
    assert!(!state.is_trying());
    assert_eq!(state.take_error(), Some("second".to_string()));
    assert_eq!(state.take_error(), None);
}

#[test]
fn type_identifiers_keep_the_built_in_numbers_and_high_tags() {
    assert_eq!(Type::I16.id(), 1);
    assert_eq!(Type::NoneType.id(), 14);
    assert_eq!(Type::Enum(0).id(), 0x8000_0000);
    assert_eq!(Type::Class(3).id(), 0x4000_0003);
    assert_eq!(Type::from_id(1), Some(Type::I16));
    assert_eq!(Type::from_id(16), None);
    assert_eq!(Type::from_id(20), None);
    assert_eq!(Type::from_id(15), None);
    let nested = Type::List(Type::List(Type::I32.id()).id());
    assert_eq!(Type::from_id(nested.id()), Some(nested));
    let optional_class = Type::Optional(Type::Class(1).id());
    assert_eq!(Type::from_id(optional_class.id()), Some(optional_class));
}

#[test]
fn float_results_are_kept_only_when_finite_and_exact_enough() {
    let one = literal_from_parse(Ok((0x3f80_0000, 0)), Type::F32).unwrap();
    assert_eq!((one.lo, one.hi), (0x3f80_0000, 0));
    assert_eq!(
        literal_from_parse(Ok((0x7f80_0000, 0)), Type::F32).unwrap_err(),
        "floating-point literal is outside the finite range"
    );
    assert_eq!(
        literal_from_parse(Ok((0x3f80_0000, 4)), Type::F32).unwrap_err(),
        "floating-point literal is outside the finite range"
    );
    assert_eq!(
        literal_from_parse(Err("bad digits".to_string()), Type::F64).unwrap_err(),
        "invalid floating-point literal: bad digits"
    );
    let wide = value_from_conversion((0x3ff0_0000_0000_0000, 16)).unwrap();
    assert_eq!((wide.lo, wide.hi), (0x3ff0_0000_0000_0000, 0));
    assert_eq!(value_from_conversion((0, 1)).unwrap_err(), "floating-point conversion overflow");
    let none = Value { lo: 0, hi: 0 };
    let single = |x: f32| Value { lo: u64::from(x.to_bits()), hi: 0 };
    assert_eq!(operation(4, Type::F32, single(2.0), none, none), Ok(single(-2.0)));
    let quad_one = Value { lo: 0, hi: 0x3fff_0000_0000_0000 };
    let quad_minus_one = Value { lo: 0, hi: 0xbfff_0000_0000_0000 };
    assert_eq!(operation(4, Type::F128, quad_one, none, none), Ok(quad_minus_one));
}
