use lexkit::html::{ElementKind, SyntaxTree, Tokenizer};
use lexkit::tokenizer::Spanned;

fn tag_text<'r>(src: &'r [u8], element: &lexkit::html::Element) -> &'r [u8] {
    &src[element.tag_span.offset..element.tag_span.offset + element.tag_span.len]
}

#[test]
fn comment_round_trip() {
    let src = b"<!-- hi -->";
    let mut parser = Tokenizer::new(src);
    let node = parser.next().unwrap().unwrap();
    match &node {
        SyntaxTree::Comment(c) => assert_eq!(c.evaluate(src), src),
        other => panic!("expected a comment, got {:?}", other),
    }
    assert!(parser.next().is_none());
}

#[test]
fn comment_with_inner_dashes() {
    let src = b"<!-- a - b ---->";
    let mut parser = Tokenizer::new(src);
    let node = parser.next().unwrap().unwrap();
    match &node {
        SyntaxTree::Comment(c) => assert_eq!(c.evaluate(src), src),
        other => panic!("expected a comment, got {:?}", other),
    }
}

#[test]
fn comment_truncation_fails_with_eof() {
    let src = b"<!-- unterminated";
    let mut parser = Tokenizer::new(src);
    let err = parser.next().unwrap().unwrap_err();
    assert_eq!(err.msg, "unexpected eof");
}

#[test]
fn doctype_spans_the_whole_literal() {
    let src = b"<!DOCTYPE html>";
    let mut parser = Tokenizer::new(src);
    let node = parser.next().unwrap().unwrap();
    match &node {
        SyntaxTree::DOCTYPE(d) => assert_eq!(d.evaluate(src), src),
        other => panic!("expected a doctype, got {:?}", other),
    }
    assert!(parser.next().is_none());
}

#[test]
fn doctype_truncation_fails_with_eof() {
    let src = b"<!DOCTYPE html";
    let mut parser = Tokenizer::new(src);
    let err = parser.next().unwrap().unwrap_err();
    assert_eq!(err.msg, "unexpected eof");
}

#[test]
fn element_open_with_attribute() {
    let src = b"<div class=\"a\">";
    let mut parser = Tokenizer::new(src);
    let node = parser.next().unwrap().unwrap();
    match &node {
        SyntaxTree::Element(el) => {
            assert!(matches!(el.kind, ElementKind::Open));
            assert_eq!(tag_text(src, el), b"div");
            assert_eq!(el.evaluate(src), src);
        }
        other => panic!("expected an element, got {:?}", other),
    }
    assert!(parser.next().is_none());
}

#[test]
fn element_close() {
    let src = b"</div>";
    let mut parser = Tokenizer::new(src);
    let node = parser.next().unwrap().unwrap();
    match &node {
        SyntaxTree::Element(el) => {
            assert!(matches!(el.kind, ElementKind::Close));
            assert_eq!(tag_text(src, el), b"div");
            assert_eq!(el.evaluate(src), src);
        }
        other => panic!("expected an element, got {:?}", other),
    }
}

#[test]
fn element_close_with_whitespace() {
    let src = b"</div  >";
    let mut parser = Tokenizer::new(src);
    let node = parser.next().unwrap().unwrap();
    match &node {
        SyntaxTree::Element(el) => {
            assert!(matches!(el.kind, ElementKind::Close));
            assert_eq!(el.evaluate(src), src);
        }
        other => panic!("expected an element, got {:?}", other),
    }
}

#[test]
fn element_with_valueless_attribute() {
    let src = b"<input disabled>";
    let mut parser = Tokenizer::new(src);
    let node = parser.next().unwrap().unwrap();
    match &node {
        SyntaxTree::Element(el) => {
            assert!(matches!(el.kind, ElementKind::Open));
            assert_eq!(tag_text(src, el), b"input");
            assert_eq!(el.evaluate(src), src);
        }
        other => panic!("expected an element, got {:?}", other),
    }
}

#[test]
fn element_with_mixed_attributes() {
    let src = b"<a href=\"x y\" hidden rel=\"z\">";
    let mut parser = Tokenizer::new(src);
    let node = parser.next().unwrap().unwrap();
    match &node {
        SyntaxTree::Element(el) => {
            assert!(matches!(el.kind, ElementKind::Open));
            assert_eq!(el.evaluate(src), src);
        }
        other => panic!("expected an element, got {:?}", other),
    }
    assert!(parser.next().is_none());
}

#[test]
fn text_stops_at_open_angle() {
    let src = b"hello<div>";
    let mut parser = Tokenizer::new(src);
    let node = parser.next().unwrap().unwrap();
    match &node {
        SyntaxTree::Text(t) => assert_eq!(t.evaluate(src), b"hello"),
        other => panic!("expected text, got {:?}", other),
    }
    let node = parser.next().unwrap().unwrap();
    match &node {
        SyntaxTree::Element(el) => {
            assert!(matches!(el.kind, ElementKind::Open));
            assert_eq!(tag_text(src, el), b"div");
        }
        other => panic!("expected an element, got {:?}", other),
    }
    assert!(parser.next().is_none());
}

#[test]
fn text_with_inner_whitespace() {
    let src = b"a b<c>";
    let mut parser = Tokenizer::new(src);
    let node = parser.next().unwrap().unwrap();
    match &node {
        SyntaxTree::Text(t) => assert_eq!(t.evaluate(src), b"a b"),
        other => panic!("expected text, got {:?}", other),
    }
}

#[test]
fn text_runs_to_end_of_input() {
    let src = b"just words";
    let mut parser = Tokenizer::new(src);
    let node = parser.next().unwrap().unwrap();
    match &node {
        SyntaxTree::Text(t) => assert_eq!(t.evaluate(src), src),
        other => panic!("expected text, got {:?}", other),
    }
    assert!(parser.next().is_none());
}

#[test]
fn empty_input_yields_no_nodes() {
    let mut parser = Tokenizer::new(b"");
    assert!(parser.next().is_none());
}

#[test]
fn element_rejects_bare_angle() {
    let src = b"<>";
    let mut parser = Tokenizer::new(src);
    let err = parser.next().unwrap().unwrap_err();
    assert_eq!(err.msg, "expected `/` or an identifier");
}

#[test]
fn element_close_rejects_missing_name() {
    let src = b"</>";
    let mut parser = Tokenizer::new(src);
    let err = parser.next().unwrap().unwrap_err();
    assert_eq!(err.msg, "expected an identifier");
}

#[test]
fn element_close_rejects_stray_token() {
    let src = b"</div x>";
    let mut parser = Tokenizer::new(src);
    let err = parser.next().unwrap().unwrap_err();
    assert_eq!(err.msg, "expected `>`");
}

#[test]
fn element_truncation_fails_with_eof() {
    let src = b"<div";
    let mut parser = Tokenizer::new(src);
    let err = parser.next().unwrap().unwrap_err();
    assert_eq!(err.msg, "unexpected eof");
}

#[test]
fn attribute_rejects_leading_punctuation() {
    let src = b"<a =>";
    let mut parser = Tokenizer::new(src);
    let err = parser.next().unwrap().unwrap_err();
    assert_eq!(err.msg, "expected an identifier");
}

#[test]
fn attribute_rejects_stray_punctuation_after_key() {
    let src = b"<a b;>";
    let mut parser = Tokenizer::new(src);
    let err = parser.next().unwrap().unwrap_err();
    assert_eq!(err.msg, "expected `=` or `>`");
}

#[test]
fn attribute_value_requires_a_quote() {
    let src = b"<a b=c>";
    let mut parser = Tokenizer::new(src);
    let err = parser.next().unwrap().unwrap_err();
    assert_eq!(err.msg, "expected `\"`");
}

#[test]
fn attribute_value_truncation_fails_with_eof() {
    let src = b"<a b=\"unterminated";
    let mut parser = Tokenizer::new(src);
    let err = parser.next().unwrap().unwrap_err();
    assert_eq!(err.msg, "unexpected eof");
}

#[test]
fn nodes_in_sequence() {
    let src = b"<!DOCTYPE html><p>text</p>";
    let mut parser = Tokenizer::new(src);
    let mut kinds = Vec::new();
    while let Some(node) = parser.next() {
        let node = node.unwrap();
        kinds.push(match node {
            SyntaxTree::Comment(_) => "comment",
            SyntaxTree::DOCTYPE(_) => "doctype",
            SyntaxTree::Element(_) => "element",
            SyntaxTree::Text(_) => "text",
        });
    }
    assert_eq!(kinds, ["doctype", "element", "text", "element"]);
}

#[test]
fn error_spans_carry_a_position() {
    let src = b"</div x>";
    let mut parser = Tokenizer::new(src);
    let err = parser.next().unwrap().unwrap_err();
    let (line, col) = err.span.line_col();
    assert_eq!(line, 1);
    assert!(col >= 1);
}

#[test]
fn error_message_includes_position() {
    let e = lexkit::html::Error::new(lexkit::tokenizer::Span::new(5, 1, 2, 13), "expected `>`");
    assert_eq!(e.message(), "[2:13] expected `>`");
}

#[test]
fn grammar_error_message_points_at_the_stray_token() {
    let src = b"</div x>";
    let mut parser = Tokenizer::new(src);
    let err = parser.next().unwrap().unwrap_err();
    assert_eq!(err.message(), "[1:7] expected `>`");
}
