use bpx_tools::sd::{print_array, print_object, print_value, Object, Value};
use bpx_tools::text::gen_layer_prefix;

fn sample() -> Object {
    let mut inner = Object::new();
    inner.insert(7, Value::Bool(true));
    let mut o = Object::new();
    o.insert(2, Value::Array(vec![Value::Uint8(5), Value::String(String::from("hi"))]));
    o.insert(1, Value::Int32(-12));
    o.insert(3, Value::Object(inner));
    o
}

#[test]
fn layer_prefix() {
    assert_eq!(gen_layer_prefix(0), "");
    assert_eq!(gen_layer_prefix(3), "\t\t\t");
}

#[test]
fn prints_nested_tree() {
    let mut out = String::new();
    print_object(1, &sample(), &mut out);
    assert_eq!(
        out,
        "{\n\t 1(Int32) -12\n\t 2[\n(Uint8) 5\nhi\n\t]\n\t 3{\n\t\t 7true\n\t}\n}\n"
    );
}

#[test]
fn print_is_deterministic_and_order_free() {
    let mut a = String::new();
    print_object(1, &sample(), &mut a);
    let mut b = String::new();
    print_object(1, &sample(), &mut b);
    assert_eq!(a, b);
    let mut inner = Object::new();
    inner.insert(7, Value::Bool(true));
    let mut o = Object::new();
    o.insert(3, Value::Object(inner));
    o.insert(1, Value::Int32(-12));
    o.insert(2, Value::Array(vec![Value::Uint8(5), Value::String(String::from("hi"))]));
    let mut c = String::new();
    print_object(1, &o, &mut c);
    assert_eq!(a, c);
}

#[test]
fn indentation_follows_depth() {
    let mut deepest = Object::new();
    deepest.insert(9, Value::Null);
    let mut middle = Object::new();
    middle.insert(8, Value::Object(deepest));
    let mut top = Object::new();
    top.insert(1, Value::Object(middle));
    let mut out = String::new();
    print_object(1, &top, &mut out);
    assert_eq!(out, "{\n\t 1{\n\t\t 8{\n\t\t\t 9NULL\n\t\t}\n\t}\n}\n");
}

#[test]
fn scalars() {
    let cases = vec![
        (Value::Null, "NULL\n"),
        (Value::Bool(false), "false\n"),
        (Value::Uint16(65535), "(Uint16) 65535\n"),
        (Value::Uint32(0), "(Uint32) 0\n"),
        (Value::Uint64(u64::MAX), "(Uint64) 18446744073709551615\n"),
        (Value::Int8(-128), "(Int8) -128\n"),
        (Value::Int16(300), "(Int16) 300\n"),
        (Value::Int64(i64::MIN), "(Int64) -9223372036854775808\n"),
        (Value::Float(format!("{}", 1.5f32)), "(Float) 1.5\n"),
        (Value::Double(format!("{}", 0.25f64)), "(Double) 0.25\n"),
        (Value::String(String::from("text")), "text\n"),
    ];
    for (v, expected) in cases {
        let mut out = String::new();
        print_value(1, &v, &mut out);
        assert_eq!(out, expected);
    }
}

#[test]
fn array_bracket_one_layer_up() {
    let mut out = String::new();
    print_array(3, &vec![Value::Uint8(1)], &mut out);
    assert_eq!(out, "[\n(Uint8) 1\n\t\t]\n");
}

#[test]
fn debug_symbols_name_keys() {
    let mut o = Object::new();
    o.insert(10, Value::Uint8(1));
    o.insert(20, Value::Uint8(2));
    o.symbols = Some(vec![(20, String::from("Size"))]);
    let mut out = String::new();
    print_object(1, &o, &mut out);
    assert_eq!(out, "{\n\t 10(Uint8) 1\n\t Size(Uint8) 2\n}\n");
}

#[test]
fn insert_replaces_value() {
    let mut o = Object::new();
    o.insert(5, Value::Uint8(1));
    o.insert(5, Value::Uint8(2));
    assert_eq!(o.props.len(), 1);
    assert!(matches!(o.props[0], (5, Value::Uint8(2))));
}

#[test]
fn depth_of_tree() {
    assert_eq!(Object::new().depth(), 0);
    assert_eq!(sample().depth(), 1);
    let mut top = Object::new();
    top.insert(1, Value::Array(vec![Value::Array(vec![])]));
    assert_eq!(top.depth(), 2);
}
