use nativum::request::{field_text, param, parse_request, route, Route};

#[test]
fn request_line_and_empty_body() {
    let r = parse_request("GET /frame.png HTTP/1.1\r\nHost: localhost\r\n\r\n");
    assert_eq!(r.method, "GET");
    assert_eq!(r.path, "/frame.png");
    assert_eq!(r.query, "");
    assert_eq!(r.body, "");
}

#[test]
fn query_and_body_are_split_off() {
    let r = parse_request("POST /click?x=10&y=20 HTTP/1.1\r\nContent-Length: 9\r\n\r\nbody text");
    assert_eq!(r.method, "POST");
    assert_eq!(r.path, "/click");
    assert_eq!(r.query, "x=10&y=20");
    assert_eq!(r.body, "body text");
}

#[test]
fn body_stops_at_the_next_blank_line() {
    let r = parse_request("POST /key\r\n\r\nkey=a\r\n\r\nrest");
    assert_eq!(r.body, "key=a");
}

#[test]
fn missing_words_take_defaults() {
    let r = parse_request("");
    assert_eq!(r.method, "GET");
    assert_eq!(r.path, "/");
    assert_eq!(r.query, "");
    let r = parse_request("POST");
    assert_eq!(r.method, "POST");
    assert_eq!(r.path, "/");
}

#[test]
fn only_the_first_question_mark_splits() {
    let r = parse_request("  GET \t /a?b?c  HTTP/1.1");
    assert_eq!(r.method, "GET");
    assert_eq!(r.path, "/a");
    assert_eq!(r.query, "b?c");
}

#[test]
fn routes_by_method_and_path() {
    assert_eq!(route("GET", "/"), Route::Page);
    assert_eq!(route("GET", "/index.html"), Route::Page);
    assert_eq!(route("GET", "/frame.png"), Route::Frame);
    assert_eq!(route("GET", "/snapshot"), Route::Snapshot);
    assert_eq!(route("GET", "/model"), Route::Model);
    assert_eq!(route("POST", "/click"), Route::Click);
    assert_eq!(route("POST", "/press"), Route::Press);
    assert_eq!(route("POST", "/key"), Route::Key);
    assert_eq!(route("POST", "/appearance"), Route::Appearance);
    assert_eq!(route("GET", "/click"), Route::NotFound);
    assert_eq!(route("POST", "/frame.png"), Route::NotFound);
    assert_eq!(route("PUT", "/"), Route::NotFound);
}

#[test]
fn params_come_from_pairs_then_json() {
    assert_eq!(param("x=10&y=20", "", "y"), Some("20".to_string()));
    assert_eq!(param("", r#"{"x": 3, "kind": "increment"}"#, "x"), Some("3".to_string()));
    assert_eq!(param("", r#"{"x": 3, "kind": "increment"}"#, "kind"), Some("increment".to_string()));
    assert_eq!(param("", r#"{"x": [1, 2]}"#, "x"), Some("[1,2]".to_string()));
    assert_eq!(param("", r#"{"x": 3}"#, "y"), None);
    assert_eq!(param("", "not json", "x"), None);
}

#[test]
fn query_wins_over_body() {
    assert_eq!(param("key=a", "key=b", "key"), Some("a".to_string()));
    assert_eq!(param("other=1", "key=\"b\"", "key"), Some("b".to_string()));
    assert_eq!(param(r#"{"key": "q"}"#, "key=b", "key"), Some("q".to_string()));
}

#[test]
fn json_string_fields_are_decoded() {
    assert_eq!(param("", r#"{"k": "a\"b"}"#, "k"), Some("a\"b".to_string()));
    assert_eq!(param("", r#"{"k": true}"#, "k"), Some("true".to_string()));
    assert_eq!(param("", r#"{"k": null}"#, "k"), Some("null".to_string()));
    assert_eq!(param("", r#"{"k": {"z": 1}}"#, "k"), Some("{\"z\":1}".to_string()));
}

#[test]
fn field_text_prefers_string_contents() {
    assert_eq!(field_text("\"hi\"".to_string(), Some("hi".to_string())), "hi");
    assert_eq!(field_text("12".to_string(), None), "12");
}
