use lexkit::parser::{Error, ErrorKind, Ident, LitStr, Parser, Phrase, Quoted, Span};

#[test]
fn parse_ident_skips_surrounding_whitespace() {
    let buf = b"  foo_bar1  rest";
    let mut input = Parser::new(buf);
    let ident = input.parse::<Ident>().unwrap();
    assert_eq!(ident.span.evaluate(buf), b"foo_bar1");
    let ident = input.parse::<Ident>().unwrap();
    assert_eq!(ident.span.evaluate(buf), b"rest");
    assert!(input.is_empty());
}

#[test]
fn parse_ident_rejects_leading_digit() {
    let buf = b"1abc";
    let mut input = Parser::new(buf);
    let err = input.parse::<Ident>().unwrap_err();
    assert!(matches!(err.kind, ErrorKind::ExpectAlphabetic(b'1')));
}

#[test]
fn parse_ident_accepts_leading_underscore() {
    let buf = b"_x9_y z";
    let mut input = Parser::new(buf);
    let ident = input.parse::<Ident>().unwrap();
    assert_eq!(ident.span.evaluate(buf), b"_x9_y");
}

#[test]
fn parse_phrase_runs_to_whitespace() {
    let buf = b"  a+b-c  next";
    let mut input = Parser::new(buf);
    let phrase = input.parse::<Phrase>().unwrap();
    assert_eq!(phrase.span.evaluate(buf), b"a+b-c");
}

#[test]
fn parse_lit_str_includes_quotes() {
    let buf = b"\"hi there\" tail";
    let mut input = Parser::new(buf);
    let lit = input.parse::<LitStr>().unwrap();
    assert_eq!(lit.span.evaluate(buf), b"\"hi there\"");
}

#[test]
fn parse_lit_str_requires_opening_quote() {
    let buf = b"x";
    let mut input = Parser::new(buf);
    let err = input.parse::<LitStr>().unwrap_err();
    assert!(matches!(err.kind, ErrorKind::ExpectFound(b'"', b'x')));
}

#[test]
fn parse_lit_str_unterminated_is_eof() {
    let buf = b"\"abc";
    let mut input = Parser::new(buf);
    let err = input.parse::<LitStr>().unwrap_err();
    assert!(err.is_eof());
}

#[test]
fn quoted_tracks_the_closing_quote() {
    let buf = b"\"ab\"";
    let mut input = Parser::new(buf);
    let quoted = Quoted::new(&mut input).unwrap();
    assert_eq!(quoted.span.evaluate(buf), b"\"");
    assert!(quoted.next(&mut input).unwrap());
    input.next().unwrap();
    assert!(quoted.next(&mut input).unwrap());
    input.next().unwrap();
    // the closing quote is consumed by the probe itself
    assert!(!quoted.next(&mut input).unwrap());
    assert!(input.is_empty());
}

#[test]
fn parser_next_as_distinguishes_errors() {
    let buf = b"x";
    let mut input = Parser::new(buf);
    let err = input.next_as::<{ b'y' }>().unwrap_err();
    assert!(matches!(err.kind, ErrorKind::ExpectFound(b'y', b'x')));
    let err = input.next_as::<{ b'y' }>().unwrap_err();
    assert!(matches!(err.kind, ErrorKind::ExpectEof(b'y')));
}

#[test]
fn parser_peek_byte_does_not_move() {
    let buf = b"ab";
    let mut input = Parser::new(buf);
    assert_eq!(input.peek_byte().unwrap(), &b'a');
    assert_eq!(input.peek_byte().unwrap(), &b'a');
    assert_eq!(input.next().unwrap(), b'a');
    assert_eq!(input.peek_byte().unwrap(), &b'b');
    assert_eq!(input.remaining(), 1);
    input.next().unwrap();
    let err = input.peek_byte().unwrap_err();
    assert!(err.is_eof());
}

#[test]
fn parser_skip_whitespaces() {
    let buf = b"  \t z";
    let mut input = Parser::new(buf);
    input.skip_whitespaces();
    assert_eq!(input.next().unwrap(), b'z');
}

#[test]
fn parser_from_span_resumes() {
    let buf = b"one two";
    let mut input = Parser::new(buf);
    let first = input.parse::<Ident>().unwrap();
    assert_eq!(first.span.evaluate(buf), b"one");
    let checkpoint = input.span();
    let mut resumed = Parser::from_span(buf, Span::new(
        checkpoint.offset + 1,
        1,
        checkpoint.line,
        checkpoint.col,
    ));
    let second = resumed.parse::<Ident>().unwrap();
    assert_eq!(second.span.evaluate(buf), b"two");
}

#[test]
fn parser_source_and_len() {
    let buf = b"abc";
    let input = Parser::new(buf);
    assert_eq!(input.source(), buf);
    assert_eq!(input.len(), 3);
    assert!(!input.is_empty());
}

#[test]
fn parser_span_is_the_last_consumed_byte() {
    let buf = b"qr";
    let mut input = Parser::new(buf);
    input.next().unwrap();
    assert_eq!(input.span(), Span::new(0, 1, 1, 1));
    input.next().unwrap();
    assert_eq!(input.span(), Span::new(1, 1, 1, 2));
}

#[test]
fn parser_error_helpers() {
    let span = Span::new(0, 1, 1, 1);
    let e = Error::new(span, ErrorKind::ExpectEof(b'x'));
    assert!(!e.is_eof());
    let e = Error::eof(span);
    assert!(e.is_eof());
    assert!(Span::unknown().is_unknown());
    assert!(!span.is_unknown());
}

#[test]
fn parser_span_extension() {
    let s = Span::new(2, 1, 1, 3);
    let extended = s.into_spanned(&Span::new(9, 1, 1, 10));
    assert_eq!(extended, Span::new(2, 8, 1, 3));
    let mut s = Span::new(2, 1, 1, 3);
    s.spanned(&Span::new(9, 1, 1, 10));
    assert_eq!(s, Span::new(2, 8, 1, 3));
}

#[test]
fn mixed_idents_and_literals() {
    let buf = br#" aoawd awd  " deez app " iaiwdj "#;
    let mut input = Parser::new(buf);
    let mut words: Vec<Vec<u8>> = Vec::new();
    loop {
        if input.is_empty() {
            break;
        }
        if input.peek_byte().unwrap() == &b'"' {
            let lit = input.parse::<LitStr>().unwrap();
            words.push(lit.span.evaluate(buf).to_vec());
        } else {
            let ident = input.parse::<Ident>().unwrap();
            words.push(ident.span.evaluate(buf).to_vec());
        }
    }
    let expected: Vec<Vec<u8>> = vec![
        b"aoawd".to_vec(),
        b"awd".to_vec(),
        b"\" deez app \"".to_vec(),
        b"iaiwdj".to_vec(),
    ];
    assert_eq!(words, expected);
}

#[test]
fn parser_error_messages() {
    assert_eq!(ErrorKind::Eof.message(), "unexpected EOF");
    assert_eq!(ErrorKind::ExpectEof(b'x').message(), "expected xfound EOF");
    assert_eq!(ErrorKind::ExpectFound(b'a', b'b').message(), "expected afound b");
    assert_eq!(ErrorKind::ExpectAlphabetic(b'9').message(), "expected alphabetical, found 9");
    let e = Error::eof(Span::new(0, 0, 0, 0));
    assert_eq!(e.message(), "unexpected EOF");
}
