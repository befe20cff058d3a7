use lexkit::tokenizer::{tokenize, BufIter, Span, Spanned, TokenTree, Tokenizer};

#[test]
fn classification_ident_whitespace_punct() {
    let src = b"ab_3 +";
    let tokens = tokenize(src);
    assert_eq!(tokens.len(), 3);
    match &tokens[0] {
        TokenTree::Ident(i) => assert_eq!(i.evaluate(src), b"ab_3"),
        other => panic!("expected an identifier, got {:?}", other),
    }
    match &tokens[1] {
        TokenTree::Whitespace(w) => assert_eq!(w.evaluate(src), b" "),
        other => panic!("expected whitespace, got {:?}", other),
    }
    match &tokens[2] {
        TokenTree::Punct(p) => assert_eq!(p.evaluate(src), b"+"),
        other => panic!("expected punctuation, got {:?}", other),
    }
}

#[test]
fn classification_digit_leads_identifier() {
    // an identifier run may start with a digit at this layer
    let src = b"1x;";
    let tokens = tokenize(src);
    assert_eq!(tokens.len(), 2);
    assert!(matches!(tokens[0], TokenTree::Ident(_)));
    assert_eq!(tokens[0].evaluate(src), b"1x");
    assert!(matches!(tokens[1], TokenTree::Punct(_)));
}

#[test]
fn punctuation_never_merges() {
    let src = b"++";
    let tokens = tokenize(src);
    assert_eq!(tokens.len(), 2);
    assert_eq!(tokens[0].evaluate(src), b"+");
    assert_eq!(tokens[1].evaluate(src), b"+");
}

#[test]
fn empty_input_has_no_tokens() {
    assert!(tokenize(b"").is_empty());
}

#[test]
fn every_token_span_is_inside_the_buffer() {
    let src = b"ab_3 + <div x=\"1\">\nrest";
    for token in tokenize(src) {
        let span = token.span();
        assert!(span.len >= 1);
        assert!(span.offset + span.len <= src.len());
        assert_eq!(token.evaluate(src).len(), span.len);
        assert_eq!(token.evaluate(src), &src[span.offset..span.offset + span.len]);
    }
}

#[test]
fn token_spans_carry_line_and_column() {
    let src = b"ab\ncd";
    let tokens = tokenize(src);
    assert_eq!(tokens.len(), 3);
    assert_eq!(tokens[0].span().line_col(), (1, 1));
    assert_eq!(tokens[1].span().line_col(), (1, 3));
    assert_eq!(tokens[2].span().line_col(), (2, 1));
}

#[test]
fn tokenizer_matches_tokenize() {
    let src = b"one two<3>";
    let expected = tokenize(src);
    let mut tokenizer = Tokenizer::new(src);
    let mut seen = Vec::new();
    while let Some(token) = tokenizer.next() {
        seen.push(token);
    }
    assert_eq!(seen, expected);
}

#[test]
fn lookahead_preserves_order() {
    // draining through the lookahead buffer, with peeks interleaved in
    // arbitrary ways, yields exactly the sequence the tokenizer yields
    // with no peeking at all
    let src = b"ab_3 + <div x=\"1\">rest";
    let plain = tokenize(src);

    let mut peekable = Tokenizer::new(src).peekable_tokens(4);
    let mut drained = Vec::new();
    let mut round: usize = 0;
    loop {
        // a different peek pattern each round
        match round % 4 {
            0 => {
                peekable.peek_n(3);
            }
            1 => {
                peekable.peek();
                peekable.peek2();
            }
            2 => {
                peekable.peek3();
            }
            _ => {}
        }
        round += 1;
        match peekable.next() {
            Some(token) => drained.push(token),
            None => break,
        }
    }
    assert_eq!(drained, plain);
}

#[test]
fn peek_slots_are_zero_indexed() {
    let src = b"a b";
    let mut peekable = Tokenizer::new(src).peekable_tokens(4);
    let expected = tokenize(src);
    assert_eq!(peekable.peek_n(0).copied(), Some(expected[0]));
    assert_eq!(peekable.peek_n(1).copied(), Some(expected[1]));
    assert_eq!(peekable.peek_n(2).copied(), Some(expected[2]));
    assert_eq!(peekable.peek_n(3).copied(), None);
    assert_eq!(peekable.next(), Some(expected[0]));
    assert_eq!(peekable.peek().copied(), Some(expected[1]));
}

#[test]
fn byte_iterator_tracks_spans() {
    let src = b"a\nb";
    let mut iter = BufIter::new(src);
    assert_eq!(iter.peek(), Some(b'a'));
    let (span, byte) = iter.next().unwrap();
    assert_eq!(byte, b'a');
    assert_eq!(span, Span::new(0, 1, 1, 1));
    let (span, byte) = iter.next().unwrap();
    assert_eq!(byte, b'\n');
    assert_eq!(span, Span::new(1, 1, 1, 2));
    let (span, byte) = iter.next().unwrap();
    assert_eq!(byte, b'b');
    assert_eq!(span, Span::new(2, 1, 2, 1));
    assert_eq!(iter.next(), None);
    assert_eq!(iter.peek(), None);
}

#[test]
fn tokenizer_span_is_the_last_consumed_byte() {
    let src = b"ab c";
    let mut tokenizer = Tokenizer::new(src);
    tokenizer.next().unwrap();
    assert_eq!(tokenizer.span(), Span::new(1, 1, 1, 2));
}

#[test]
fn unknown_span_checks_every_field() {
    assert!(Span::unknown().is_unknown());
    assert!(!Span::new(0, 5, 0, 0).is_unknown());
    assert!(!Span::new(1, 0, 0, 0).is_unknown());
    assert!(!Span::new(0, 0, 1, 0).is_unknown());
    assert!(!Span::new(0, 0, 0, 1).is_unknown());
}

#[test]
fn spanned_into_extends_to_a_later_span() {
    let mut span = Span::new(2, 1, 1, 3);
    span.spanned_into(Span::new(9, 1, 1, 10));
    assert_eq!(span, Span::new(2, 8, 1, 3));
}
