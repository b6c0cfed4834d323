use noir_runner::convert;
use noir_runner::FieldElement;
use noir_runner::HostValue;
use noir_runner::Number;
use noir_runner::Value;
use noir_runner::str_lt_exec;

#[test]
fn test_null() {
    let null = HostValue::Null;

    let input_value = convert(&null);

    assert_eq!(input_value, Value::Scalar(FieldElement::from_u64(0)));
}

#[test]
fn test_bool() {
    let a = true;
    let b = false;

    let input_value_a = convert(&HostValue::Bool(a));
    let input_value_b = convert(&HostValue::Bool(b));

    assert_eq!(input_value_a, Value::Scalar(FieldElement::from_u64(1)));
    assert_eq!(input_value_b, Value::Scalar(FieldElement::from_u64(0)));
}

#[test]
fn test_number() {
    let a: u64 = 1;
    let b: f64 = 1.0;
    let c: i64 = 1;

    let input_value_a = convert(&HostValue::Num(Number::Unsigned(a)));
    let input_value_b = convert(&HostValue::Num(Number::Truncated(b as u64)));
    let input_value_c = convert(&HostValue::Num(Number::Signed(c)));

    assert_eq!(input_value_a, Value::Scalar(FieldElement::from_u64(1)));
    assert_eq!(input_value_b, Value::Scalar(FieldElement::from_u64(1)));
    assert_eq!(input_value_c, Value::Scalar(FieldElement::from_u64(1)));
}

#[test]
fn test_array() {
    let a = vec![
        HostValue::Num(Number::Unsigned(1)),
        HostValue::Num(Number::Unsigned(1)),
        HostValue::Num(Number::Unsigned(1)),
    ];

    let input_value = convert(&HostValue::Array(a));

    assert_eq!(
        input_value,
        Value::Sequence(vec![
            Value::Scalar(FieldElement::from_u64(1)),
            Value::Scalar(FieldElement::from_u64(1)),
            Value::Scalar(FieldElement::from_u64(1)),
        ])
    );
}

#[test]
fn test_string() {
    let a = String::from("hello");

    let input_value = convert(&HostValue::Text(a));

    assert_eq!(input_value, Value::Text(String::from("hello")));
}

#[test]
fn test_object() {
    let a = HostValue::Object(vec![
        (String::from("a"), HostValue::Num(Number::Unsigned(1))),
        (String::from("b"), HostValue::Text(String::from("hello"))),
    ]);

    let input_value = convert(&a);

    let map = vec![
        (String::from("a"), Value::Scalar(FieldElement::from_u64(1))),
        (String::from("b"), Value::Text(String::from("hello"))),
    ];

    assert_eq!(input_value, Value::Record(map));
}

#[test]
fn test_bytes() {
    let a = [1u8, 2u8, 3u8];

    let elems: Vec<HostValue> = a
        .iter()
        .map(|b| HostValue::Num(Number::Unsigned(*b as u64)))
        .collect();
    let input_value = convert(&HostValue::Array(elems));

    assert_eq!(
        input_value,
        Value::Sequence(vec![
            Value::Scalar(FieldElement::from_u64(1)),
            Value::Scalar(FieldElement::from_u64(2)),
            Value::Scalar(FieldElement::from_u64(3)),
        ])
    );
}

#[test]
fn test_object_keys_resorted() {
    let a = HostValue::Object(vec![
        (String::from("b"), HostValue::Num(Number::Unsigned(2))),
        (String::from("a"), HostValue::Num(Number::Unsigned(1))),
        (String::from("c"), HostValue::Num(Number::Unsigned(3))),
    ]);

    let input_value = convert(&a);

    let map = vec![
        (String::from("a"), Value::Scalar(FieldElement::from_u64(1))),
        (String::from("b"), Value::Scalar(FieldElement::from_u64(2))),
        (String::from("c"), Value::Scalar(FieldElement::from_u64(3))),
    ];

    assert_eq!(input_value, Value::Record(map));
}

#[test]
fn test_object_duplicate_key_last_wins() {
    let a = HostValue::Object(vec![
        (String::from("a"), HostValue::Num(Number::Unsigned(1))),
        (String::from("a"), HostValue::Num(Number::Unsigned(2))),
    ]);

    let input_value = convert(&a);

    let map = vec![(String::from("a"), Value::Scalar(FieldElement::from_u64(2)))];

    assert_eq!(input_value, Value::Record(map));
}

#[test]
fn test_nested_object() {
    let a = HostValue::Object(vec![(
        String::from("outer"),
        HostValue::Object(vec![
            (String::from("y"), HostValue::Null),
            (String::from("x"), HostValue::Bool(true)),
        ]),
    )]);

    let input_value = convert(&a);

    let inner = vec![
        (String::from("x"), Value::Scalar(FieldElement::from_u64(1))),
        (String::from("y"), Value::Scalar(FieldElement::from_u64(0))),
    ];
    let map = vec![(String::from("outer"), Value::Record(inner))];

    assert_eq!(input_value, Value::Record(map));
}

#[test]
fn test_empty_array_and_object() {
    assert_eq!(
        convert(&HostValue::Array(Vec::new())),
        Value::Sequence(Vec::new())
    );
    assert_eq!(
        convert(&HostValue::Object(Vec::new())),
        Value::Record(Vec::new())
    );
}

#[test]
fn test_negative_number_embedding() {
    // -1 embeds as the field order minus one
    let input_value = convert(&HostValue::Num(Number::Signed(-1)));

    let expected = FieldElement {
        hi: 0x30644E72E131A029B85045B68181585D,
        lo: 0x2833E84879B9709143E1F593F0000000,
    };

    assert_eq!(input_value, Value::Scalar(expected));
}

#[test]
fn test_field_element_from_i128_min() {
    // the magnitude 2^127 exceeds the low half of the field order, so the
    // subtraction borrows from the high half
    let f = FieldElement::from_i128(i128::MIN);

    assert_eq!(f.hi, 0x30644E72E131A029B85045B68181585C);
    assert_eq!(f.lo, 0xA833E84879B9709143E1F593F0000001);
}

#[test]
fn test_field_element_constructors() {
    let z = FieldElement::from_u64(0);
    assert_eq!(z.hi, 0);
    assert_eq!(z.lo, 0);

    let t = FieldElement::from_bool(true);
    assert_eq!(t.hi, 0);
    assert_eq!(t.lo, 1);

    let u = FieldElement::from_u128(1u128 << 127);
    assert_eq!(u.hi, 0);
    assert_eq!(u.lo, 1u128 << 127);

    let p = FieldElement::from_i128(42);
    assert_eq!(p.hi, 0);
    assert_eq!(p.lo, 42);

    let n = FieldElement::from_i64(-2);
    assert_eq!(n.hi, 0x30644E72E131A029B85045B68181585D);
    assert_eq!(n.lo, 0x2833E84879B9709143E1F593EFFFFFFF);
}

#[test]
fn test_str_lt_exec_order() {
    assert!(str_lt_exec("a", "b"));
    assert!(!str_lt_exec("b", "a"));
    assert!(str_lt_exec("", "a"));
    assert!(!str_lt_exec("a", ""));
    assert!(str_lt_exec("a", "ab"));
    assert!(!str_lt_exec("ab", "a"));
    assert!(!str_lt_exec("same", "same"));
    assert!(str_lt_exec("abc", "abd"));
}
