use galec::data::values::Value;

#[test]
fn numbers_are_shown_in_decimal() {
    assert_eq!(Value::from_num(0).to_text(), "0");
    assert_eq!(Value::from_num(25).to_text(), "25");
    assert_eq!(Value::from_num(-7).to_text(), "-7");
    assert_eq!(Value::from_num(i64::MAX).to_text(), "9223372036854775807");
    assert_eq!(Value::from_num(i64::MIN).to_text(), "-9223372036854775808");
}

#[test]
fn simple_values_are_shown_as_they_are() {
    assert_eq!(Value::from_bool(true).to_text(), "true");
    assert_eq!(Value::from_bool(false).to_text(), "false");
    assert_eq!(Value::from_text("hello").to_text(), "hello");
    assert_eq!(Value::from_text_string("".to_string()).to_text(), "");
    assert_eq!(Value::from_function("std.print".to_string()).to_text(), "std.print");
    assert_eq!(Value::Void.to_text(), "void");
}

#[test]
fn members_are_shown_side_by_side() {
    let t = Value::from_tuple(vec![Value::from_num(1), Value::from_text("a"), Value::from_num(2)]);
    assert_eq!(t.to_text(), "(1a2)");
    let a = Value::from_array(vec![Value::from_num(10), Value::from_num(20)]);
    assert_eq!(a.to_text(), "[1020]");
    let e = Value::from_extern(vec![Value::from_bool(true), Value::Void]);
    assert_eq!(e.to_text(), "truevoid");
    let nested = Value::from_tuple(vec![a, Value::from_tuple(vec![])]);
    assert_eq!(nested.to_text(), "([1020]())");
}

#[test]
fn the_structural_text_names_every_part() {
    assert_eq!(Value::from_num(5).to_debug_text(), "Number(Number { value: 5 })");
    assert_eq!(Value::from_text("a").to_debug_text(), "Text(Text { text: \"a\" })");
    assert_eq!(Value::Void.to_debug_text(), "Void");
    assert_eq!(
        Value::from_tuple(vec![Value::from_bool(true)]).to_debug_text(),
        "Tuple(Tuple { elements: [Boolean(Boolean { value: true })] })"
    );
}

#[test]
fn a_cloned_value_shows_the_same() {
    let v = Value::from_array(vec![
        Value::from_tuple(vec![Value::from_num(1), Value::from_text("x")]),
        Value::from_function("f".to_string()),
    ]);
    let c = v.clone();
    assert_eq!(v.to_text(), c.to_text());
    assert_eq!(v.to_debug_text(), c.to_debug_text());
}
