use nativum::ast::{AttrValue, Node, TextPart};
use nativum::doc_parse::{parse_document, split_interpolations};
use nativum::error::Error;
use nativum::expr::Expr;
use nativum::span::Span;

#[test]
fn parses_counter_fragment() {
    let src = r#"
        <row gap="8" main="center">
          <button variant="secondary" on-press="decrement">-</button>
          <text>{count}</text>
          <button variant="primary" on-press="increment">+</button>
        </row>
    "#;
    let doc = parse_document(src).unwrap();
    assert_eq!(doc.root.tag(), Some("row"));
}

#[test]
fn parses_for_and_if() {
    let src = r#"
        <column>
          <if test="{habit_count}">
            <for each="visible" as="h" key="id">
              <text>{h.name}</text>
            </for>
          </if>
          <else>
            <text>empty</text>
          </else>
        </column>
    "#;
    let doc = parse_document(src).unwrap();
    assert_eq!(doc.root.tag(), Some("column"));
}

#[test]
fn reports_mismatched_tag() {
    let err = parse_document("<row></column>").unwrap_err();
    let msg = err.describe();
    assert!(msg.contains("mismatched"), "{msg}");
}

fn located(e: &Error) -> (usize, usize, String) {
    match e {
        Error::Located { line, column, message, .. } => (*line, *column, message.clone()),
        other => panic!("{other:?}"),
    }
}

#[test]
fn mismatched_tag_message_and_position() {
    let err = parse_document("<row>\n</column>").unwrap_err();
    assert_eq!(
        located(&err),
        (2, 10, "mismatched closing tag </column> \u{2014} open tag was <row>".to_string())
    );
}

#[test]
fn empty_document_is_an_error() {
    let err = parse_document("  <!-- only a comment -->  ").unwrap_err();
    let (_, _, msg) = located(&err);
    assert!(msg.starts_with("document is empty"), "{msg}");
}

#[test]
fn text_root_is_an_error() {
    let err = parse_document("<!-- c --></x>").unwrap_err();
    let (_, _, msg) = located(&err);
    assert_eq!(msg, "view root must be an element, not text");
}

#[test]
fn second_root_is_an_error() {
    let err = parse_document("<row/><column/>").unwrap_err();
    let (line, column, msg) = located(&err);
    assert_eq!((line, column), (1, 7));
    assert!(msg.starts_with("unexpected content after the view root"), "{msg}");
}

#[test]
fn unclosed_element_is_an_error() {
    let err = parse_document("<row><text>hi</text>").unwrap_err();
    let (_, _, msg) = located(&err);
    assert_eq!(msg, "unclosed <row>");
}

#[test]
fn attribute_errors() {
    let err = parse_document("<row gap=8/>").unwrap_err();
    assert_eq!(located(&err).2, "attribute value must be quoted");
    let err = parse_document("<row gap=\"8/>").unwrap_err();
    assert_eq!(located(&err).2, "unterminated attribute value");
    let err = parse_document("<row 9=\"x\"/>").unwrap_err();
    assert_eq!(
        located(&err).2,
        "unexpected '9' in tag \u{2014} attribute names start with a letter"
    );
    let err = parse_document("<row gap=\"1\"").unwrap_err();
    assert_eq!(located(&err).2, "expected '>' or '/>' after tag");
}

#[test]
fn attributes_literal_boolean_and_expression() {
    let doc = parse_document(r#"<button disabled variant='primary' label="{a.b}"/>"#).unwrap();
    match &doc.root {
        Node::Element { name, attrs, children, .. } => {
            assert_eq!(name, "button");
            assert!(children.is_empty());
            assert_eq!(attrs.len(), 3);
            assert_eq!(attrs[0].name, "disabled");
            assert_eq!(attrs[0].raw, "true");
            assert!(matches!(&attrs[1].value, AttrValue::Literal(s) if s == "primary"));
            assert!(matches!(&attrs[2].value, AttrValue::Expr(Expr::Field { .. })));
        }
        other => panic!("{other:?}"),
    }
}

#[test]
fn entities_are_decoded_in_text() {
    let doc = parse_document("<text>a &lt; b &amp;&amp; c &quot;q&quot;</text>").unwrap();
    match &doc.root {
        Node::Element { children, .. } => match &children[0] {
            Node::Text { parts, .. } => {
                assert_eq!(parts.len(), 1);
                assert!(matches!(&parts[0], TextPart::Literal(s) if s == "a < b && c \"q\""));
            }
            other => panic!("{other:?}"),
        },
        other => panic!("{other:?}"),
    }
}

#[test]
fn imports_and_templates_precede_the_root() {
    let src = r#"
        <import src="parts.native"/>
        <template name="card" args="title count=0">
          <text>{title}</text>
        </template>
        <column><use template="card"/></column>
    "#;
    let doc = parse_document(src).unwrap();
    assert_eq!(doc.imports.len(), 1);
    assert_eq!(doc.imports[0].0, "parts.native");
    assert_eq!(doc.templates.len(), 1);
    let t = &doc.templates[0];
    assert_eq!(t.name, "card");
    assert_eq!(
        t.args,
        vec![("title".to_string(), None), ("count".to_string(), Some("0".to_string()))]
    );
    assert_eq!(t.body.len(), 1);
    assert_eq!(doc.root.tag(), Some("column"));
}

#[test]
fn template_without_name_is_an_error() {
    let err = parse_document("<template args=\"a\"></template><row/>").unwrap_err();
    assert_eq!(located(&err).2, "template needs name=\"...\"");
    let err = parse_document("<import/><row/>").unwrap_err();
    assert_eq!(located(&err).2, "import needs src=\"path.native\"");
}

#[test]
fn interpolations_split_into_parts() {
    let parts = split_interpolations("Hi {name}, {count} left", Span::dummy()).unwrap();
    assert_eq!(parts.len(), 5);
    assert!(matches!(&parts[0], TextPart::Literal(s) if s == "Hi "));
    assert!(matches!(&parts[1], TextPart::Expr(Expr::Ident(n, _)) if n == "name"));
    assert!(matches!(&parts[2], TextPart::Literal(s) if s == ", "));
    assert!(matches!(&parts[3], TextPart::Expr(_)));
    assert!(matches!(&parts[4], TextPart::Literal(s) if s == " left"));
    let parts = split_interpolations("", Span::dummy()).unwrap();
    assert!(matches!(&parts[..], [TextPart::Literal(s)] if s.is_empty()));
    let parts = split_interpolations("{ {a: '}'}.a }", Span::dummy()).unwrap();
    assert_eq!(parts.len(), 1);
    assert!(matches!(&parts[0], TextPart::Expr(Expr::Field { .. })));
}

#[test]
fn unterminated_interpolation_is_an_error() {
    let err = split_interpolations("oops {count", Span::dummy()).unwrap_err();
    assert_eq!(located(&err), (1, 1, "unterminated '{expression}' in text".to_string()));
}

#[test]
fn spans_carry_line_and_column() {
    let doc = parse_document("\n  <row>\n    <text>x</text>\n  </row>").unwrap();
    match &doc.root {
        Node::Element { span, children, .. } => {
            assert_eq!((span.line, span.column, span.start), (2, 3, 3));
            match &children[0] {
                Node::Element { span, .. } => assert_eq!((span.line, span.column), (3, 5)),
                other => panic!("{other:?}"),
            }
        }
        other => panic!("{other:?}"),
    }
}

#[test]
fn text_without_entities_is_kept() {
    let doc = parse_document("<text>plain; text &lt</text>").unwrap();
    match &doc.root {
        Node::Element { children, .. } => match &children[0] {
            Node::Text { parts, .. } => {
                assert!(matches!(&parts[0], TextPart::Literal(s) if s == "plain; text &lt"));
            }
            other => panic!("{other:?}"),
        },
        other => panic!("{other:?}"),
    }
}
