use mediawiki::engine::ContinuationEngine;
use mediawiki::error::QueryError;
use mediawiki::value::JsonValue;

fn text(s: &str) -> JsonValue {
    JsonValue::Text(s.to_string())
}

fn obj(entries: Vec<(&str, JsonValue)>) -> JsonValue {
    JsonValue::Obj(entries.into_iter().map(|(k, v)| (k.to_string(), v)).collect())
}

fn base_params() -> Vec<(String, String)> {
    vec![("action".to_string(), "query".to_string())]
}

#[test]
fn two_pages_with_continuation() {
    let mut engine = ContinuationEngine::new(base_params());
    let mut requests: usize = 0;

    let p1 = engine.next_params();
    requests += 1;
    assert!(p1.iter().any(|p| p.0 == "action" && p.1 == "query"));
    assert!(!p1.iter().any(|p| p.0 == "offset"));
    let page1 = obj(vec![
        ("items", JsonValue::Arr(vec![text("a")])),
        ("continue", obj(vec![("offset", text("10"))])),
    ]);
    assert_eq!(engine.absorb_page(page1), Ok(()));
    assert!(!engine.is_done());

    let p2 = engine.next_params();
    requests += 1;
    assert!(p2.iter().any(|p| p.0 == "action" && p.1 == "query"));
    assert!(p2.iter().any(|p| p.0 == "offset" && p.1 == "10"));
    let page2 = obj(vec![("items", JsonValue::Arr(vec![text("b")]))]);
    assert_eq!(engine.absorb_page(page2), Ok(()));
    assert!(engine.is_done());

    assert_eq!(requests, 2);
    let result = engine.take_result();
    assert_eq!(
        result,
        obj(vec![("items", JsonValue::Arr(vec![text("a"), text("b")]))])
    );
}

#[test]
fn first_page_without_continuation_ends_after_one_request() {
    let mut engine = ContinuationEngine::new(base_params());
    let mut requests: usize = 0;

    let _p1 = engine.next_params();
    requests += 1;
    let page1 = obj(vec![("items", JsonValue::Arr(vec![text("only")]))]);
    assert_eq!(engine.absorb_page(page1), Ok(()));
    assert!(engine.is_done());
    assert_eq!(requests, 1);
    assert_eq!(
        engine.take_result(),
        obj(vec![("items", JsonValue::Arr(vec![text("only")]))])
    );
}

#[test]
fn non_string_continuation_value_is_malformed() {
    let mut engine = ContinuationEngine::new(base_params());
    let _p1 = engine.next_params();
    let page1 = obj(vec![
        ("items", JsonValue::Arr(vec![text("a")])),
        ("continue", obj(vec![("offset", obj(vec![("nested", text("10"))]))])),
    ]);
    assert_eq!(
        engine.absorb_page(page1),
        Err(QueryError::MalformedContinuation)
    );
    // The engine is finished: no further request is issued.
    assert!(engine.is_done());
}

#[test]
fn empty_first_response_yields_empty_accumulator() {
    let mut engine = ContinuationEngine::new(base_params());
    let _p1 = engine.next_params();
    assert_eq!(engine.absorb_page(obj(vec![])), Ok(()));
    assert!(engine.is_done());
    assert_eq!(engine.take_result(), obj(vec![]));
}

#[test]
fn empty_continuation_object_terminates() {
    let mut engine = ContinuationEngine::new(base_params());
    let _p1 = engine.next_params();
    let page = obj(vec![
        ("items", JsonValue::Arr(vec![text("a")])),
        ("continue", obj(vec![])),
    ]);
    assert_eq!(engine.absorb_page(page), Ok(()));
    assert!(engine.is_done());
}

#[test]
fn continuation_with_only_reserved_field_terminates() {
    let mut engine = ContinuationEngine::new(base_params());
    let _p1 = engine.next_params();
    let page = obj(vec![("continue", obj(vec![("continue", text("-||"))]))]);
    assert_eq!(engine.absorb_page(page), Ok(()));
    assert!(engine.is_done());
}

#[test]
fn non_object_page_is_rejected() {
    let mut engine = ContinuationEngine::new(base_params());
    let _p1 = engine.next_params();
    let page = JsonValue::Arr(vec![text("bare")]);
    assert_eq!(engine.absorb_page(page), Err(QueryError::TopLevelShape));
    assert!(engine.is_done());
}

#[test]
fn non_object_continuation_stops_cleanly() {
    let mut engine = ContinuationEngine::new(base_params());
    let _p1 = engine.next_params();
    let page = obj(vec![
        ("items", JsonValue::Arr(vec![text("a")])),
        ("continue", text("not-an-object")),
    ]);
    assert_eq!(engine.absorb_page(page), Ok(()));
    assert!(engine.is_done());
    // The lingering continuation field is stripped from the result.
    assert_eq!(
        engine.take_result(),
        obj(vec![("items", JsonValue::Arr(vec![text("a")]))])
    );
}

#[test]
fn continuation_marker_replaces_previous_marker() {
    let mut engine = ContinuationEngine::new(base_params());
    let _p1 = engine.next_params();
    let page1 = obj(vec![
        ("continue", obj(vec![("offset", text("10")), ("continue", text("-||"))])),
    ]);
    assert_eq!(engine.absorb_page(page1), Ok(()));
    assert!(!engine.is_done());
    let p2 = engine.next_params();
    // The marker's own reserved field is not echoed back.
    assert!(p2.iter().any(|p| p.0 == "offset" && p.1 == "10"));
    assert!(!p2.iter().any(|p| p.0 == "continue"));

    let page2 = obj(vec![("continue", obj(vec![("cursor", text("xyz"))]))]);
    assert_eq!(engine.absorb_page(page2), Ok(()));
    let p3 = engine.next_params();
    // The new marker replaces the old one rather than extending it.
    assert!(p3.iter().any(|p| p.0 == "cursor" && p.1 == "xyz"));
    assert!(!p3.iter().any(|p| p.0 == "offset"));
}
