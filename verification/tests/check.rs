use nativum::checker::{check_document, is_element, split_message_spec};
use nativum::doc_parse::parse_document;
use nativum::error::Error;

fn names(v: &[&str]) -> Vec<String> {
    v.iter().map(|s| s.to_string()).collect()
}

fn messages(errors: &[Error]) -> Vec<String> {
    errors
        .iter()
        .map(|e| match e {
            Error::Located { message, .. } => message.clone(),
            other => panic!("{other:?}"),
        })
        .collect()
}

#[test]
fn unknown_binding_is_an_error() {
    let doc = parse_document("<text>{nope}</text>").unwrap();
    let report = check_document(&doc, &Vec::new(), &Vec::new());
    assert!(!report.ok());
}

#[test]
fn known_binding_passes() {
    let doc = parse_document("<text>{count}</text>").unwrap();
    let mut keys = Vec::new();
    keys.push("count".to_string());
    let report = check_document(&doc, &keys, &Vec::new());
    assert!(report.ok(), "{:?}", report.errors);
}

#[test]
fn unknown_element_is_reported() {
    let doc = parse_document("<row><blink/></row>").unwrap();
    let report = check_document(&doc, &Vec::new(), &Vec::new());
    assert_eq!(
        messages(&report.errors),
        vec!["unknown element <blink> \u{2014} see docs/DESIGN.md for the closed catalog".to_string()]
    );
}

#[test]
fn unknown_message_tag_is_reported() {
    let doc = parse_document(r#"<button on-press="inc">+</button>"#).unwrap();
    let report = check_document(&doc, &Vec::new(), &names(&["increment"]));
    assert_eq!(
        messages(&report.errors),
        vec!["<button on-press=\"inc\"> names message 'inc', which is not in the core".to_string()]
    );
    // With no declared tags, any message name is accepted.
    let report = check_document(&doc, &Vec::new(), &Vec::new());
    assert!(report.ok());
}

#[test]
fn message_payload_bindings_are_checked() {
    let doc = parse_document(r#"<button on-press="done:{h.id}">x</button>"#).unwrap();
    let report = check_document(&doc, &Vec::new(), &names(&["done"]));
    assert_eq!(messages(&report.errors), vec!["unknown binding 'h'".to_string()]);
}

#[test]
fn for_binds_its_item_name() {
    let src = r#"<column><for each="habits" as="h"><text>{h.name}</text></for></column>"#;
    let doc = parse_document(src).unwrap();
    let report = check_document(&doc, &names(&["habits"]), &Vec::new());
    assert!(report.ok(), "{:?}", report.errors);
    let report = check_document(&doc, &Vec::new(), &Vec::new());
    assert_eq!(
        messages(&report.errors),
        vec!["for each=\"habits\" is not a model field or derived list".to_string()]
    );
}

#[test]
fn default_for_item_name() {
    let src = r#"<column><for each="xs"><text>{item}</text></for></column>"#;
    let doc = parse_document(src).unwrap();
    let report = check_document(&doc, &names(&["xs"]), &Vec::new());
    assert!(report.ok(), "{:?}", report.errors);
}

#[test]
fn token_attributes_are_checked() {
    let doc = parse_document(
        r##"<panel background="accent" foreground="#fff" accent="mauve" radius="huge"/>"##,
    )
    .unwrap();
    let report = check_document(&doc, &Vec::new(), &Vec::new());
    assert_eq!(
        messages(&report.errors),
        vec![
            "unknown color token 'mauve'".to_string(),
            "unknown radius token 'huge' \u{2014} use sm|md|lg|xl|none".to_string(),
        ]
    );
}

#[test]
fn unknown_template_is_reported() {
    let src = r#"<template name="card"><text>{title}</text></template><column><use template="crad"/></column>"#;
    let doc = parse_document(src).unwrap();
    let report = check_document(&doc, &Vec::new(), &Vec::new());
    assert_eq!(
        messages(&report.errors),
        vec!["unknown binding 'title'".to_string(), "unknown template 'crad'".to_string()]
    );
}

#[test]
fn template_args_are_bound_in_the_body() {
    let src = r#"<template name="card" args="title"><text>{title}</text></template><column><use template="card"/></column>"#;
    let doc = parse_document(src).unwrap();
    let report = check_document(&doc, &Vec::new(), &Vec::new());
    assert!(report.ok(), "{:?}", report.errors);
    assert!(report.warnings.is_empty());
}

#[test]
fn payload_name_is_always_bound() {
    let doc = parse_document("<text>{payload.x}</text>").unwrap();
    let report = check_document(&doc, &Vec::new(), &Vec::new());
    assert!(report.ok());
}

#[test]
fn split_message_specs() {
    assert_eq!(split_message_spec("done:{h.id}"), ("done", Some("h.id")));
    assert_eq!(split_message_spec("increment"), ("increment", None));
    assert_eq!(split_message_spec("set:x"), ("set", Some("x")));
    assert_eq!(split_message_spec("a:{"), ("a", Some("{")));
    assert_eq!(split_message_spec("a:{}"), ("a", Some("")));
}

#[test]
fn element_catalog() {
    assert!(is_element("row"));
    assert!(is_element("toggle-button"));
    assert!(is_element("import"));
    assert!(!is_element("div"));
}

#[test]
fn if_test_bindings_are_checked() {
    let doc = parse_document(r#"<column><if test="{ready}"><text>x</text></if></column>"#).unwrap();
    let report = check_document(&doc, &Vec::new(), &Vec::new());
    assert_eq!(messages(&report.errors), vec!["unknown binding 'ready'".to_string()]);
    let report = check_document(&doc, &names(&["ready"]), &Vec::new());
    assert!(report.ok(), "{:?}", report.errors);
}

#[test]
fn item_name_is_out_of_scope_after_its_for() {
    let src = r#"<column><for each="xs" as="h"><text>{h}</text></for><text>{h}</text></column>"#;
    let doc = parse_document(src).unwrap();
    let report = check_document(&doc, &names(&["xs"]), &Vec::new());
    assert_eq!(messages(&report.errors), vec!["unknown binding 'h'".to_string()]);
}

#[test]
fn template_body_tags_and_bindings_are_checked() {
    let src = r#"<template name="card" args="title"><button on-press="go:{other}">{title}</button><blink/></template><column><use template="card"/></column>"#;
    let doc = parse_document(src).unwrap();
    let report = check_document(&doc, &Vec::new(), &names(&["inc"]));
    assert_eq!(
        messages(&report.errors),
        vec![
            "<button on-press=\"go:{other}\"> names message 'go', which is not in the core"
                .to_string(),
            "unknown binding 'other'".to_string(),
            "unknown element <blink> \u{2014} see docs/DESIGN.md for the closed catalog".to_string(),
        ]
    );
}

#[test]
fn key_and_tag_lists_act_as_sets() {
    let src = r#"<column><text>{a} {b} {c}</text><button on-press="go">x</button></column>"#;
    let doc = parse_document(src).unwrap();
    let r1 = check_document(&doc, &names(&["a", "b"]), &names(&["go", "stop"]));
    let r2 = check_document(&doc, &names(&["b", "a", "b", "a"]), &names(&["stop", "go", "go"]));
    assert_eq!(messages(&r1.errors), messages(&r2.errors));
    assert_eq!(messages(&r1.errors), vec!["unknown binding 'c'".to_string()]);
}
