use jsondiff::diff::diff_any;
use jsondiff::keys::{intersection, subtract};
use jsondiff::op::PatchOperation;
use jsondiff::value::{clone_value, value_eq, Value};

fn s(x: &str) -> Value {
    Value::Str(x.to_string())
}

fn num(x: &str) -> Value {
    Value::Num(x.to_string())
}

fn arr(xs: Vec<Value>) -> Value {
    Value::Arr(xs)
}

fn obj(es: Vec<(&str, Value)>) -> Value {
    Value::Obj(es.into_iter().map(|(k, v)| (k.to_string(), v)).collect())
}

fn add(p: &str, v: Value) -> PatchOperation {
    PatchOperation::Add { path: p.to_string(), value: v }
}

fn remove(p: &str) -> PatchOperation {
    PatchOperation::Remove { path: p.to_string() }
}

fn replace(p: &str, v: Value) -> PatchOperation {
    PatchOperation::Replace { path: p.to_string(), value: v }
}

/// A minimal in-order patch applier, the conforming collaborator the emitted
/// operations are meant for.
fn descend<'a>(v: &'a mut Value, tok: &str) -> &'a mut Value {
    match v {
        Value::Arr(a) => {
            let i: usize = tok.parse().unwrap();
            &mut a[i]
        }
        Value::Obj(m) => {
            let i = m.iter().position(|e| e.0 == tok).unwrap();
            &mut m[i].1
        }
        _ => panic!("cannot descend into a scalar"),
    }
}

fn apply_one(doc: &mut Value, op: &PatchOperation) {
    let path = match op {
        PatchOperation::Add { path, .. } => path.clone(),
        PatchOperation::Remove { path } => path.clone(),
        PatchOperation::Replace { path, .. } => path.clone(),
    };
    if path.is_empty() {
        match op {
            PatchOperation::Replace { value, .. } => {
                *doc = clone_value(value);
            }
            _ => panic!("only replace is supported at the root"),
        }
        return;
    }
    let toks: Vec<String> = path.split('/').map(|t| t.to_string()).collect();
    let mut cur: &mut Value = doc;
    for t in &toks[1..toks.len() - 1] {
        cur = descend(cur, t);
    }
    let last = toks[toks.len() - 1].clone();
    match op {
        PatchOperation::Add { value, .. } => match cur {
            Value::Arr(a) => {
                if last == "-" {
                    a.push(clone_value(value));
                } else {
                    let i: usize = last.parse().unwrap();
                    a.insert(i, clone_value(value));
                }
            }
            Value::Obj(m) => m.push((last, clone_value(value))),
            _ => panic!("cannot add into a scalar"),
        },
        PatchOperation::Remove { .. } => match cur {
            Value::Arr(a) => {
                let i: usize = last.parse().unwrap();
                a.remove(i);
            }
            Value::Obj(m) => {
                let i = m.iter().position(|e| e.0 == last).unwrap();
                m.remove(i);
            }
            _ => panic!("cannot remove from a scalar"),
        },
        PatchOperation::Replace { value, .. } => match cur {
            Value::Arr(a) => {
                let i: usize = last.parse().unwrap();
                a[i] = clone_value(value);
            }
            Value::Obj(m) => {
                let i = m.iter().position(|e| e.0 == last).unwrap();
                m[i].1 = clone_value(value);
            }
            _ => panic!("cannot replace inside a scalar"),
        },
    }
}

fn round_trips(a: &Value, b: &Value) -> bool {
    let patch = diff_any(a, b, "");
    let mut doc = clone_value(a);
    for op in &patch {
        apply_one(&mut doc, op);
    }
    value_eq(&doc, b)
}

#[test]
fn identity_yields_empty_patch() {
    let inner = obj(vec![("c", Value::Null)]);
    let nested = arr(vec![s("x"), inner]);
    let samples = vec![
        Value::Null,
        Value::Bool(true),
        num("42"),
        s("hello"),
        arr(vec![num("1"), s("two"), Value::Null]),
        obj(vec![("a", num("1")), ("b", nested)]),
    ];
    for v in &samples {
        assert_eq!(diff_any(v, v, ""), vec![]);
    }
}

#[test]
fn null_member_matches_absent() {
    let with_null = obj(vec![("a", Value::Null)]);
    let empty = obj(vec![]);
    assert_eq!(diff_any(&with_null, &empty, ""), vec![]);
    assert_eq!(diff_any(&empty, &with_null, ""), vec![]);
}

#[test]
fn shape_change_is_one_replace() {
    let a = arr(vec![num("1"), num("2")]);
    let b = obj(vec![("x", num("1"))]);
    assert_eq!(diff_any(&a, &b, ""), vec![replace("", obj(vec![("x", num("1"))]))]);
    let c = s("word");
    assert_eq!(diff_any(&c, &a, ""), vec![replace("", arr(vec![num("1"), num("2")]))]);
    assert_eq!(diff_any(&a, &Value::Null, ""), vec![replace("", Value::Null)]);
}

#[test]
fn tie_break_remove_preferred() {
    // At the contested cell all three alternatives cost the same; the aligner
    // must take the remove alternative, never the pair of replaces.
    let a = arr(vec![s("A"), s("B")]);
    let b = arr(vec![s("B"), s("A")]);
    assert_eq!(diff_any(&a, &b, ""), vec![add("/0", s("B")), remove("/2")]);
}

#[test]
fn numbers_compare_by_canonical_text() {
    assert_eq!(diff_any(&num("1"), &num("1"), ""), vec![]);
    assert_eq!(diff_any(&num("1"), &num("1.0"), ""), vec![replace("", num("1.0"))]);
}

#[test]
fn mapping_equality_ignores_entry_order() {
    let a = obj(vec![("x", num("1")), ("y", num("2"))]);
    let b = obj(vec![("y", num("2")), ("x", num("1"))]);
    assert!(value_eq(&a, &b));
    assert_eq!(diff_any(&a, &b, ""), vec![]);
}

#[test]
fn two_digit_index_tokens() {
    let a = arr((0..12).map(|i| num(&i.to_string())).collect());
    let b = arr((0..12).filter(|i| *i != 10).map(|i| num(&i.to_string())).collect());
    assert_eq!(diff_any(&a, &b, ""), vec![remove("/10")]);
}

#[test]
fn emission_order_removes_adds_commons() {
    let a = obj(vec![("gone", s("g")), ("kept", num("1"))]);
    let b = obj(vec![("kept", num("2")), ("new", s("n"))]);
    assert_eq!(
        diff_any(&a, &b, ""),
        vec![remove("/gone"), add("/new", s("n")), replace("/kept", num("2"))]
    );
}

#[test]
fn subtract_excludes_null_members() {
    let minuend: Vec<(String, Value)> = vec![
        ("a".to_string(), num("1")),
        ("b".to_string(), Value::Null),
        ("c".to_string(), num("2")),
    ];
    let subtrahend: Vec<(String, Value)> = vec![("c".to_string(), num("9"))];
    assert_eq!(subtract(&minuend, &subtrahend), vec!["a".to_string()]);
}

#[test]
fn intersection_keeps_first_seen_order() {
    let one: Vec<(String, Value)> = vec![
        ("a".to_string(), num("1")),
        ("b".to_string(), num("2")),
        ("c".to_string(), num("3")),
    ];
    let two: Vec<(String, Value)> = vec![
        ("c".to_string(), num("4")),
        ("b".to_string(), num("5")),
        ("d".to_string(), num("6")),
    ];
    assert_eq!(intersection(&vec![one, two]), vec!["b".to_string(), "c".to_string()]);
    assert_eq!(intersection(&vec![]), Vec::<String>::new());
}

#[test]
fn round_trip_object_changes() {
    let a_inner = obj(vec![("x", num("1")), ("y", num("2"))]);
    let b_inner = obj(vec![("x", num("1")), ("y", num("3"))]);
    let a = obj(vec![("a", a_inner)]);
    let b = obj(vec![("a", b_inner), ("b", num("5"))]);
    assert!(round_trips(&a, &b));
    assert_eq!(
        diff_any(&a, &b, ""),
        vec![add("/b", num("5")), replace("/a/y", num("3"))]
    );
}

#[test]
fn mid_array_insert_targets_live_index() {
    // An insertion before existing elements must name the live index, not
    // overshoot it, so that in-order application reproduces the target.
    let a = arr(vec![s("A"), s("C")]);
    let b = arr(vec![s("A"), s("B"), s("C")]);
    assert_eq!(diff_any(&a, &b, ""), vec![add("/1", s("B"))]);
    assert!(round_trips(&a, &b));
    assert!(round_trips(&arr(vec![s("A"), s("B")]), &arr(vec![s("B"), s("A")])));
    assert!(round_trips(&arr(vec![s("X")]), &arr(vec![s("Y"), s("X")])));
}

#[test]
fn round_trip_array_removals_and_appends() {
    assert!(round_trips(&arr(vec![s("A"), s("Z"), s("Z")]), &arr(vec![s("A")])));
    assert!(round_trips(&arr(vec![]), &arr(vec![s("B"), s("A")])));
    assert!(round_trips(&arr(vec![s("A"), s("A"), s("R")]), &arr(vec![])));
    assert!(round_trips(
        &arr(vec![s("B"), s("A"), s("M")]),
        &arr(vec![s("M"), s("A"), s("A")])
    ));
}

#[test]
fn round_trip_shape_changes_and_nesting() {
    assert!(round_trips(&s("word"), &arr(vec![num("1")])));

    let before = arr(vec![s("bar"), s("qux"), s("baz")]);
    let after = arr(vec![s("bar"), s("baz")]);
    let with_before = obj(vec![("foo", before)]);
    let with_after = obj(vec![("foo", after)]);
    assert!(round_trips(&with_before, &with_after));

    let in_first = obj(vec![("A", num("1")), ("B", num("2"))]);
    let out_first = obj(vec![("A", num("1")), ("B", num("20"))]);
    let nested_in = arr(vec![in_first, obj(vec![("C", num("3"))])]);
    let nested_out = arr(vec![out_first, obj(vec![("C", num("3"))])]);
    assert!(round_trips(&nested_in, &nested_out));

    let with_nulls = obj(vec![("name", s("bob")), ("image", Value::Null), ("cat", Value::Null)]);
    let filled = obj(vec![("name", s("bob")), ("image", s("foo.jpg")), ("cat", s("nikko"))]);
    assert!(round_trips(&with_nulls, &filled));
}
