use mediawiki::merge::merge;
use mediawiki::value::JsonValue;

fn text(s: &str) -> JsonValue {
    JsonValue::Text(s.to_string())
}

fn obj(entries: Vec<(&str, JsonValue)>) -> JsonValue {
    JsonValue::Obj(entries.into_iter().map(|(k, v)| (k.to_string(), v)).collect())
}

#[test]
fn arrays_concatenate() {
    let mut target = JsonValue::Arr(vec![text("a"), text("b")]);
    let incoming = JsonValue::Arr(vec![text("c")]);
    merge(&mut target, incoming);
    assert_eq!(target, JsonValue::Arr(vec![text("a"), text("b"), text("c")]));
    match &target {
        JsonValue::Arr(items) => assert_eq!(items.len(), 3),
        _ => panic!("expected an array"),
    }
}

#[test]
fn mismatch_replaces_target() {
    let mut target = JsonValue::Num(7);
    merge(&mut target, text("x"));
    assert_eq!(target, text("x"));

    let mut target = JsonValue::Arr(vec![text("a")]);
    merge(&mut target, obj(vec![("k", text("v"))]));
    assert_eq!(target, obj(vec![("k", text("v"))]));

    let mut target = obj(vec![("k", text("v"))]);
    merge(&mut target, JsonValue::Arr(vec![text("a")]));
    assert_eq!(target, JsonValue::Arr(vec![text("a")]));

    let mut target = JsonValue::Bool(true);
    merge(&mut target, JsonValue::Null);
    assert_eq!(target, JsonValue::Null);
}

#[test]
fn objects_merge_recursively() {
    let mut target = obj(vec![
        ("items", JsonValue::Arr(vec![text("a")])),
        ("count", JsonValue::Num(1)),
    ]);
    let incoming = obj(vec![
        ("items", JsonValue::Arr(vec![text("b")])),
        ("extra", text("e")),
    ]);
    merge(&mut target, incoming);
    assert_eq!(
        target,
        obj(vec![
            ("items", JsonValue::Arr(vec![text("a"), text("b")])),
            ("count", JsonValue::Num(1)),
            ("extra", text("e")),
        ])
    );
}

#[test]
fn absent_key_starts_from_null_placeholder() {
    let mut target = obj(vec![]);
    let incoming = obj(vec![("fresh", JsonValue::Arr(vec![text("x")]))]);
    merge(&mut target, incoming);
    assert_eq!(target, obj(vec![("fresh", JsonValue::Arr(vec![text("x")]))]));
}

#[test]
fn merge_is_associative_on_aligned_pages() {
    let p1 = obj(vec![("items", JsonValue::Arr(vec![text("a")]))]);
    let p2 = obj(vec![("items", JsonValue::Arr(vec![text("b")])), ("more", obj(vec![("x", JsonValue::Arr(vec![text("1")]))]))]);
    let p3 = obj(vec![("items", JsonValue::Arr(vec![text("c")])), ("more", obj(vec![("x", JsonValue::Arr(vec![text("2")]))]))]);

    // One page at a time into an empty accumulator.
    let mut one_at_a_time = obj(vec![]);
    merge(&mut one_at_a_time, deep_copy(&p1));
    merge(&mut one_at_a_time, deep_copy(&p2));
    merge(&mut one_at_a_time, deep_copy(&p3));

    // The first two pages merged as one call, then the third.
    let mut pair = p1;
    merge(&mut pair, p2);
    let mut grouped = obj(vec![]);
    merge(&mut grouped, pair);
    merge(&mut grouped, p3);

    assert_eq!(one_at_a_time, grouped);
}

fn deep_copy(v: &JsonValue) -> JsonValue {
    mediawiki::value::clone_value(v)
}
