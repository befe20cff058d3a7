use lexkit::buf_iter::{BufIter, Error, ErrorKind, Span};

#[test]
fn span_extension_literal_offsets() {
    // extending a span at offset 2 of length 1 to a later span starting at
    // offset 9 covers bytes 2..=9
    let s = Span::new(2, 1, 1, 3);
    let later = Span::new(9, 1, 1, 10);
    let extended = s.into_spanned(&later);
    assert_eq!(extended.offset, 2);
    assert_eq!(extended.len, 8);
    assert_eq!(extended.line, 1);
    assert_eq!(extended.col, 3);
}

#[test]
fn span_extension_by_mutation() {
    let mut s = Span::new(2, 1, 1, 3);
    s.spanned(&Span::new(9, 1, 1, 10));
    assert_eq!(s.len, 8);
    assert_eq!(s.offset, 2);
}

#[test]
fn span_extension_overrides_intermediate() {
    // extending to an intermediate span and then to the final span gives
    // the same result as extending to the final span directly
    let s = Span::new(2, 1, 1, 3);
    let mid = Span::new(5, 1, 1, 6);
    let end = Span::new(9, 1, 1, 10);
    assert_eq!(s.into_spanned(&mid).into_spanned(&end), s.into_spanned(&end));
}

#[test]
fn evaluate_start_and_length() {
    let buf = b"abcdefghij";
    let s = Span::new(2, 5, 1, 3);
    let v = s.evaluate(buf);
    assert_eq!(v.len(), 5);
    assert_eq!(v, &buf[2..7]);
    assert_eq!(v, b"cdefg");
}

#[test]
fn unknown_span_sentinel() {
    let u = Span::unknown();
    assert!(u.is_unknown());
    assert_eq!((u.offset, u.len, u.line, u.col), (0, 0, 0, 0));
    // a span with a length is not the sentinel
    assert!(!Span::new(0, 5, 0, 0).is_unknown());
    assert!(!Span::new(1, 0, 0, 0).is_unknown());
}

#[test]
fn cursor_tracks_lines_and_columns() {
    let buf = b"a\nbc";
    let mut iter = BufIter::new(buf);
    iter.next_peeked();
    assert_eq!(iter.span(), Span::new(0, 1, 1, 1));
    iter.next_peeked();
    // the line feed itself still sits on line 1; the byte after it
    // starts line 2
    assert_eq!(iter.span(), Span::new(1, 1, 1, 2));
    iter.next_peeked();
    assert_eq!(iter.span(), Span::new(2, 1, 2, 1));
    iter.next_peeked();
    assert_eq!(iter.span(), Span::new(3, 1, 2, 2));
}

#[test]
fn cursor_peeking_never_moves() {
    let buf = b"xyz";
    let mut iter = BufIter::new(buf);
    assert_eq!(iter.peek(), Some(&b'x'));
    assert_eq!(iter.peek_n(0), Some(&b'x'));
    assert_eq!(iter.peek_n(2), Some(&b'z'));
    assert_eq!(iter.peek_n(3), None);
    assert!(iter.peek_as::<{ b'x' }>());
    assert!(!iter.peek_as::<{ b'y' }>());
    assert_eq!(iter.remaining(), 3);
    assert_eq!(iter.next().unwrap(), b'x');
    assert_eq!(iter.peek(), Some(&b'y'));
    assert_eq!(iter.remaining(), 2);
}

#[test]
fn cursor_peek_required() {
    let buf = b"q";
    let mut iter = BufIter::new(buf);
    assert_eq!(iter.peek_required().unwrap(), &b'q');
    assert!(iter.peek_required_as::<{ b'q' }>().unwrap());
    assert!(!iter.peek_required_as::<{ b'r' }>().unwrap());
    iter.next_peeked();
    let err = iter.peek_required().unwrap_err();
    assert!(err.is_eof());
}

#[test]
fn cursor_next_at_end_is_eof() {
    let buf = b"z";
    let mut iter = BufIter::new(buf);
    assert_eq!(iter.next().unwrap(), b'z');
    assert!(iter.is_empty());
    let err = iter.next().unwrap_err();
    assert!(err.is_eof());
    assert!(matches!(err.kind, ErrorKind::Eof));
}

#[test]
fn cursor_next_as_reports_mismatch_and_eof() {
    let buf = b"x";
    let mut iter = BufIter::new(buf);
    let err = iter.next_as::<{ b'y' }>().unwrap_err();
    assert!(matches!(err.kind, ErrorKind::ExpectFound(b'y', b'x')));
    let err = iter.next_as::<{ b'y' }>().unwrap_err();
    assert!(matches!(err.kind, ErrorKind::ExpectEof(b'y')));
}

#[test]
fn cursor_next_classified() {
    let mut iter = BufIter::new(b"a1_");
    assert_eq!(iter.next_alphabetic().unwrap(), b'a');
    let err = iter.fork().next_alphabetic().unwrap_err();
    assert!(matches!(err.kind, ErrorKind::ExpectAlphabetic(b'1')));
    assert_eq!(iter.next_ident().unwrap(), b'1');
    assert_eq!(iter.next_ident().unwrap(), b'_');
    let mut iter = BufIter::new(b"+");
    let err = iter.next_ident().unwrap_err();
    assert!(matches!(err.kind, ErrorKind::ExpectIdent(b'+')));
}

#[test]
fn collect_ident_rejects_leading_digit() {
    let mut iter = BufIter::new(b"1ab");
    let err = iter.collect_ident().unwrap_err();
    assert!(matches!(err.kind, ErrorKind::ExpectAlphabetic(b'1')));
}

#[test]
fn collect_ident_stops_at_underscore() {
    // the identifier lead may be an underscore, but the collected run
    // itself extends over letters and digits only
    let buf = b"_ab_c";
    let mut iter = BufIter::new(buf);
    let span = iter.collect_ident().unwrap();
    assert_eq!(span.evaluate(buf), b"_ab");
}

#[test]
fn collect_as_rejects_immediate_stop_byte() {
    let mut iter = BufIter::new(b";x");
    let err = iter.collect_as::<{ b';' }>().unwrap_err();
    assert!(matches!(err.kind, ErrorKind::ExpectFound(b';', b';')));
}

#[test]
fn collect_as_stops_at_end_of_input() {
    let buf = b"abc";
    let mut iter = BufIter::new(buf);
    let span = iter.collect_as::<{ b';' }>().unwrap();
    assert_eq!(span.evaluate(buf), b"abc");
    assert!(iter.is_empty());
}

#[test]
fn collect_with_rejects_failing_first_byte() {
    let mut iter = BufIter::new(b" x");
    let err = iter.collect_with(|e| !e.is_ascii_whitespace()).unwrap_err();
    assert!(matches!(err.kind, ErrorKind::Unexpected(b' ')));
}

#[test]
fn skip_whitespaces_skips_a_whole_run() {
    let buf = b" \t\n x";
    let mut iter = BufIter::new(buf);
    iter.skip_whitespaces();
    assert_eq!(iter.peek(), Some(&b'x'));
    // idempotent on a non-whitespace byte
    iter.skip_whitespaces();
    assert_eq!(iter.peek(), Some(&b'x'));
}

#[test]
fn fork_resumes_at_the_same_place() {
    let buf = b"GET /";
    let mut iter = BufIter::new(buf);
    let span = iter.collect_ident().unwrap();
    assert_eq!(span.evaluate(buf), b"GET");
    let mut forked = iter.fork();
    assert_eq!(forked.next().unwrap(), b' ');
    // the fork advanced on its own: the original cursor still sees ' '
    assert_eq!(iter.peek(), Some(&b' '));
}

#[test]
fn from_span_resumes_from_a_checkpoint() {
    let buf = b"ab cd";
    let mut iter = BufIter::new(buf);
    let span = iter.collect_ident().unwrap();
    let checkpoint = iter.span();
    drop(iter);
    let mut resumed = BufIter::from_span(buf, Span::new(
        checkpoint.offset + 1,
        1,
        checkpoint.line,
        checkpoint.col,
    ));
    assert_eq!(resumed.next().unwrap(), b' ');
    assert_eq!(span.evaluate(buf), b"ab");
}

#[test]
fn error_constructors() {
    let span = Span::new(3, 1, 1, 4);
    let e = Error::new(span, ErrorKind::Unexpected(b'!'));
    assert!(!e.is_eof());
    assert_eq!(e.span, span);
    let e = Error::eof(span);
    assert!(e.is_eof());
}

#[test]
fn source_and_len() {
    let buf = b"some bytes";
    let iter = BufIter::new(buf);
    assert_eq!(iter.source(), buf);
    assert_eq!(iter.len(), 10);
    assert!(!iter.is_empty());
}

#[test]
fn error_messages() {
    assert_eq!(ErrorKind::Eof.message(), "unexpected EOF");
    assert_eq!(ErrorKind::Unexpected(b'!').message(), "unexpected `!`");
    assert_eq!(ErrorKind::ExpectEof(b'x').message(), "expect `x` found EOF");
    assert_eq!(ErrorKind::ExpectFound(b'a', b'b').message(), "expect `a` found `b`");
    assert_eq!(ErrorKind::ExpectAlphabetic(b'1').message(), "expect alphabetical found `1`");
    assert_eq!(ErrorKind::ExpectIdent(b'+').message(), "expect identifier found `+`");
    let e = Error::eof(Span::unknown());
    assert_eq!(e.message(), "unexpected EOF");
}
