use jsondiff::diff::{diff_any, diff_arrays};
use jsondiff::op::PatchOperation;
use jsondiff::value::Value;

fn s(x: &str) -> Value {
    Value::Str(x.to_string())
}

fn num(x: &str) -> Value {
    Value::Num(x.to_string())
}

fn arr(xs: Vec<Value>) -> Value {
    Value::Arr(xs)
}

fn obj(es: Vec<(&str, Value)>) -> Value {
    Value::Obj(es.into_iter().map(|(k, v)| (k.to_string(), v)).collect())
}

fn add(p: &str, v: Value) -> PatchOperation {
    PatchOperation::Add { path: p.to_string(), value: v }
}

fn remove(p: &str) -> PatchOperation {
    PatchOperation::Remove { path: p.to_string() }
}

fn replace(p: &str, v: Value) -> PatchOperation {
    PatchOperation::Replace { path: p.to_string(), value: v }
}

#[test]
fn a_1_adding_an_object_member() {
    let input = obj(vec![("foo", s("bar"))]);
    let output = obj(vec![("baz", s("qux")), ("foo", s("bar"))]);
    let patch = diff_any(&input, &output, "");
    assert_eq!(patch, vec![add("/baz", s("qux"))]);
}

#[test]
fn a_3_removing_an_object_member() {
    let input = obj(vec![("baz", s("qux")), ("foo", s("bar"))]);
    let output = obj(vec![("foo", s("bar"))]);
    let patch = diff_any(&input, &output, "");
    assert_eq!(patch, vec![remove("/baz")]);
}

#[test]
fn a_5_replacing_a_value() {
    let input = obj(vec![("baz", s("qux")), ("foo", s("bar"))]);
    let output = obj(vec![("baz", s("boo")), ("foo", s("bar"))]);
    let patch = diff_any(&input, &output, "");
    assert_eq!(patch, vec![replace("/baz", s("boo"))]);
}

#[test]
fn a_10_adding_a_nested_member_object() {
    let input = obj(vec![("foo", s("bar"))]);
    let grandchild = obj(vec![("grandchild", obj(vec![]))]);
    let output = obj(vec![("foo", s("bar")), ("child", grandchild)]);
    let patch = diff_any(&input, &output, "");
    let expected = obj(vec![("grandchild", obj(vec![]))]);
    assert_eq!(patch, vec![add("/child", expected)]);
}

#[test]
fn a_4_removing_an_array_element() {
    let before = arr(vec![s("bar"), s("qux"), s("baz")]);
    let after = arr(vec![s("bar"), s("baz")]);
    let input = obj(vec![("foo", before)]);
    let output = obj(vec![("foo", after)]);
    let patch = diff_any(&input, &output, "");
    assert_eq!(patch, vec![remove("/foo/1")]);
}

#[test]
fn arrays_1() {
    let input = arr(vec![s("A"), s("Z"), s("Z")]);
    let output = arr(vec![s("A")]);
    let patch = diff_any(&input, &output, "");
    assert_eq!(patch, vec![remove("/1"), remove("/1")]);
}

#[test]
fn arrays_2() {
    let input = arr(vec![s("A"), s("B")]);
    let output = arr(vec![s("B"), s("A")]);
    let patch = diff_any(&input, &output, "");
    assert_eq!(patch, vec![add("/0", s("B")), remove("/2")]);
}

#[test]
fn arrays_3() {
    let input = arr(vec![]);
    let output = arr(vec![s("B"), s("A")]);
    let patch = diff_any(&input, &output, "");
    assert_eq!(patch, vec![add("/-", s("B")), add("/-", s("A"))]);
}

#[test]
fn arrays_4() {
    let input = arr(vec![s("B"), s("A"), s("M")]);
    let output = arr(vec![s("M"), s("A"), s("A")]);
    let patch = diff_any(&input, &output, "");
    assert_eq!(patch, vec![replace("/0", s("M")), replace("/2", s("A"))]);
}

#[test]
fn arrays_5() {
    let input = arr(vec![s("A"), s("A"), s("R")]);
    let output = arr(vec![]);
    let patch = diff_any(&input, &output, "");
    assert_eq!(patch, vec![remove("/0"), remove("/0"), remove("/0")]);
}

#[test]
fn arrays_6() {
    let input = arr(vec![s("A"), s("B"), s("C")]);
    let output = arr(vec![s("B"), s("C"), s("D")]);
    let patch = diff_any(&input, &output, "");
    assert_eq!(patch, vec![remove("/0"), add("/-", s("D"))]);
}

#[test]
fn arrays_7() {
    let input = arr(vec![s("A"), s("C")]);
    let output = arr(vec![s("A"), s("B"), s("C")]);
    let patch = diff_any(&input, &output, "");
    assert_eq!(patch, vec![add("/1", s("B"))]);
}

#[test]
fn arrays_8() {
    let input = arr(vec![s("A"), s("B"), s("C")]);
    let output = arr(vec![s("A"), s("Z")]);
    let patch = diff_any(&input, &output, "");
    assert_eq!(patch, vec![replace("/1", s("Z")), remove("/2")]);
}

#[test]
fn handles_objects_with_nulls() {
    let input = obj(vec![("name", s("bob")), ("image", Value::Null), ("cat", Value::Null)]);
    let output = obj(vec![("name", s("bob")), ("image", s("foo.jpg")), ("cat", s("nikko"))]);
    let patch = diff_any(&input, &output, "");
    assert_eq!(patch, vec![replace("/image", s("foo.jpg")), replace("/cat", s("nikko"))]);
}

#[test]
fn diffs_objects_nested_in_arrays() {
    let in_first = obj(vec![("A", num("1")), ("B", num("2"))]);
    let out_first = obj(vec![("A", num("1")), ("B", num("20"))]);
    let input = arr(vec![in_first, obj(vec![("C", num("3"))])]);
    let output = arr(vec![out_first, obj(vec![("C", num("3"))])]);
    let patch = diff_any(&input, &output, "");
    assert_eq!(patch, vec![replace("/0/B", num("20"))]);
}

#[test]
fn it_works() {
    let input = vec![s("A"), s("Z"), s("Z")];
    let output = vec![s("A")];
    let patch = diff_arrays(&input, &output, "");
    println!("patch: {:?}", patch);
    assert_eq!(patch, vec![remove("/1"), remove("/1")]);
}
