use mediawiki::api::{extract_token, token_key, token_request_params, login_request_params, Api};
use mediawiki::error::QueryError;
use mediawiki::params::insert_format_json;
use mediawiki::session::MWuser;
use mediawiki::value::JsonValue;

fn text(s: &str) -> JsonValue {
    JsonValue::Text(s.to_string())
}

fn obj(entries: Vec<(&str, JsonValue)>) -> JsonValue {
    JsonValue::Obj(entries.into_iter().map(|(k, v)| (k.to_string(), v)).collect())
}

#[test]
fn new_user_is_blank() {
    let u = MWuser::new();
    assert_eq!(u.lgusername, "");
    assert_eq!(u.lguserid, 0);
    assert!(!u.is_logged_in);
}

#[test]
fn login_success_sets_identity() {
    let mut u = MWuser::new();
    let login = obj(vec![
        ("result", text("Success")),
        ("lgusername", text("Alice")),
        ("lguserid", JsonValue::Num(42)),
    ]);
    assert_eq!(u.set_from_login(&login), Ok(()));
    assert!(u.is_logged_in);
    assert_eq!(u.lgusername, "Alice");
    assert_eq!(u.lguserid, 42);
}

#[test]
fn login_success_without_username_is_rejected() {
    let mut u = MWuser::new();
    let login = obj(vec![
        ("result", text("Success")),
        ("lguserid", JsonValue::Num(42)),
    ]);
    assert_eq!(u.set_from_login(&login), Err(QueryError::AuthParse));
    assert!(!u.is_logged_in);
}

#[test]
fn login_success_without_numeric_id_is_rejected() {
    let mut u = MWuser::new();
    let login = obj(vec![
        ("result", text("Success")),
        ("lgusername", text("Alice")),
        ("lguserid", text("42")),
    ]);
    assert_eq!(u.set_from_login(&login), Err(QueryError::AuthParse));
}

#[test]
fn login_failure_marks_logged_out_without_error() {
    let mut u = MWuser::new();
    u.lguserid = 7;
    u.is_logged_in = true;
    let login = obj(vec![("result", text("Failed"))]);
    assert_eq!(u.set_from_login(&login), Ok(()));
    assert!(!u.is_logged_in);
    assert_eq!(u.lguserid, 7);
}

#[test]
fn cookie_header_reflects_union_with_overwrites() {
    let mut api = Api::new("https://example.test/w/api.php");
    assert_eq!(api.cookies_to_string(), "");

    api.set_cookies_from_response(&vec![
        "session=one; Path=/; HttpOnly".to_string(),
        "lang=en".to_string(),
    ]);
    assert_eq!(api.cookies_to_string(), "session=one; lang=en");

    // A later response overwrites a same-named cookie in place and keeps
    // the rest of the union.
    api.set_cookies_from_response(&vec!["session=two".to_string()]);
    assert_eq!(api.cookies_to_string(), "session=two; lang=en");
}

#[test]
fn same_name_twice_in_one_response_last_write_wins() {
    let mut api = Api::new("https://example.test/w/api.php");
    api.set_cookies_from_response(&vec!["a=1".to_string(), "a=2".to_string()]);
    assert_eq!(api.cookies_to_string(), "a=2");
}

#[test]
fn site_info_string_lookup() {
    let mut api = Api::new("https://example.test/w/api.php");
    api.set_site_info(obj(vec![(
        "query",
        obj(vec![("general", obj(vec![("sitename", text("Wikidata"))]))]),
    )]));
    assert_eq!(
        api.get_site_info_string("general", "sitename"),
        Ok("Wikidata".to_string())
    );
    assert_eq!(
        api.get_site_info_string("general", "missing"),
        Err("No 'query.general.missing' value in site info".to_string())
    );
    assert_eq!(
        api.get_site_info_value("general", "sitename"),
        text("Wikidata")
    );
    assert_eq!(api.get_site_info_value("general", "missing"), JsonValue::Null);
}

#[test]
fn token_helpers() {
    assert_eq!(token_key(""), "csrftoken");
    assert_eq!(token_key("login"), "logintoken");

    let ps = token_request_params("");
    assert_eq!(ps.len(), 2);
    assert!(ps.iter().any(|p| p.0 == "action" && p.1 == "query"));
    assert!(ps.iter().any(|p| p.0 == "meta" && p.1 == "tokens"));
    let ps = token_request_params("login");
    assert!(ps.iter().any(|p| p.0 == "type" && p.1 == "login"));

    let response = obj(vec![(
        "query",
        obj(vec![("tokens", obj(vec![("csrftoken", text("abc+\\"))]))]),
    )]);
    assert_eq!(extract_token(&response, ""), Ok("abc+\\".to_string()));
    assert_eq!(
        extract_token(&response, "login"),
        Err("Could not get token".to_string())
    );
}

#[test]
fn login_params_and_format_forcing() {
    let mut ps = login_request_params("Alice", "secret", "tok");
    assert_eq!(ps.len(), 4);
    assert!(ps.iter().any(|p| p.0 == "action" && p.1 == "login"));
    assert!(ps.iter().any(|p| p.0 == "lgtoken" && p.1 == "tok"));

    // format=json is forced, overriding any caller-supplied value.
    ps.push(("format".to_string(), "xml".to_string()));
    insert_format_json(&mut ps);
    assert_eq!(
        ps.iter().filter(|p| p.0 == "format").count(),
        1
    );
    assert!(ps.iter().any(|p| p.0 == "format" && p.1 == "json"));
}
