//! A recursive-descent grammar over the token stream that builds an
//! HTML-like syntax tree: comments, doctypes, element open/close tags with
//! attributes, and text runs.
//!
//! Each production first peeks at up to four tokens to decide whether it
//! applies, then consumes tokens unconditionally once committed. The
//! productions are tried in a fixed priority order: comment, doctype,
//! element, then text as the fallback.

use vstd::prelude::*;
use vstd::string::StringExecFns;
use crate::tokenizer::{
    Span, Spanned, TokenTree, Peekable, token_wf, stream_wf, tokens_from, lemma_stream_wf_skip,
};

verus! {

/// The nodes that can appear in the HTML-like syntax tree.
#[derive(Debug)]
pub enum SyntaxTree {
    /// `<!-- comment -->`
    Comment(Comment),
    /// `<!DOCTYPE html>`
    DOCTYPE(DOCTYPE),
    Element(Element),
    Text(Text),
}

/// `<!-- comment -->`
#[derive(Debug)]
pub struct Comment {
    pub span: Span,
}

/// `<!DOCTYPE html>`
#[derive(Debug)]
pub struct DOCTYPE {
    pub span: Span,
}

/// An element open or close tag, spanning `<` through `>`, with the span
/// of its tag name kept separately.
#[derive(Debug)]
pub struct Element {
    pub kind: ElementKind,
    pub span: Span,
    pub tag_span: Span,
}

/// Whether an element token opens or closes an element.
#[derive(Debug, PartialEq, Eq, Structural)]
pub enum ElementKind {
    Open,
    Close,
}

/// The attribute sub-production. Attributes are consumed for the extent
/// of their enclosing element but not retained as structured data.
pub struct Attr;

/// A run of tokens carrying no markup, up to the next `<` or the end of
/// input.
#[derive(Debug)]
pub struct Text {
    pub span: Span,
}

/// A grammar error: a message together with the span at the point of
/// failure.
#[derive(Debug, Clone, Copy)]
pub struct Error {
    pub span: Span,
    pub msg: &'static str,
}

/// The decimal digits of `n`, most significant first.
pub open spec fn dec_digits(n: nat) -> Seq<char>
    decreases n,
{
    if n < 10 {
        seq![((48 + n) as u8) as char]
    } else {
        dec_digits(n / 10) + seq![((48 + n % 10) as u8) as char]
    }
}

/// Append the decimal rendering of `n` to a string.
fn push_decimal(s: &mut String, n: usize)
    ensures
        final(s)@ == old(s)@ + dec_digits(n as nat),
    decreases n,
{
    if n >= 10 {
        push_decimal(s, n / 10);
    }
    s.push((48 + (n % 10) as u8) as char);
    proof {
        assert(final(s)@ =~= old(s)@ + dec_digits(n as nat));
    }
}

impl Error {
    /// Create a new [`Error`].
    pub fn new(span: Span, msg: &'static str) -> (r: Self)
        ensures
            r.span == span,
            r.msg == msg,
    {
        Self { span, msg }
    }

    /// Render this error as human-readable text: the line and column of
    /// its span, then its message.
    pub fn message(&self) -> (r: String)
        ensures
            r@ == "["@ + dec_digits(self.span.line as nat) + ":"@ + dec_digits(
                self.span.col as nat,
            ) + "] "@ + self.msg@,
    {
        let (line, col) = self.span.line_col();
        let mut s = String::new();
        s.append("[");
        push_decimal(&mut s, line);
        s.append(":");
        push_decimal(&mut s, col);
        s.append("] ");
        s.append(self.msg);
        proof {
            assert(s@ =~= "["@ + dec_digits(self.span.line as nat) + ":"@ + dec_digits(
                self.span.col as nat,
            ) + "] "@ + self.msg@);
        }
        s
    }
}

/// Is this token a punctuation token whose byte is `c`?
pub open spec fn punct_is(buf: Seq<u8>, t: TokenTree, c: u8) -> bool {
    t is Punct && buf[t.spec_span().offset as int] == c
}

/// The span of a node that runs from the start of `first` through the
/// start byte of `last` (its single byte, for punctuation).
pub open spec fn node_span(first: TokenTree, last: TokenTree) -> Span {
    Span {
        offset: first.spec_span().offset,
        len: (last.spec_span().offset - first.spec_span().offset + 1) as usize,
        line: first.spec_span().line,
        col: first.spec_span().col,
    }
}

/// The comment production applies: the next four tokens are the
/// punctuation `<`, `!`, `-`, `-`.
pub open spec fn comment_peeked(buf: Seq<u8>, toks: Seq<TokenTree>) -> bool {
    &&& toks.len() >= 4
    &&& punct_is(buf, toks[0], 60)
    &&& punct_is(buf, toks[1], 33)
    &&& punct_is(buf, toks[2], 45)
    &&& punct_is(buf, toks[3], 45)
}

/// The doctype production applies: the next two tokens are the
/// punctuation `<`, `!`.
pub open spec fn doctype_peeked(buf: Seq<u8>, toks: Seq<TokenTree>) -> bool {
    &&& toks.len() >= 2
    &&& punct_is(buf, toks[0], 60)
    &&& punct_is(buf, toks[1], 33)
}

/// The element production applies: the next token is the punctuation `<`.
pub open spec fn element_peeked(buf: Seq<u8>, toks: Seq<TokenTree>) -> bool {
    &&& toks.len() >= 1
    &&& punct_is(buf, toks[0], 60)
}

/// Scanning for the `-`, `-`, `>` terminator of a comment, consumed in
/// that exact pattern: a `-` or `>` seen out of sequence is ordinary
/// content. The state counts how much of the terminator has been matched
/// (0: nothing, 1: one dash, 2: two or more dashes). Yields the
/// terminating `>` token and the tokens after it, or `None` when input
/// runs out first.
pub open spec fn comment_scan(buf: Seq<u8>, toks: Seq<TokenTree>, st: int) -> Option<
    (TokenTree, Seq<TokenTree>),
>
    decreases toks.len(),
{
    if toks.len() == 0 {
        None
    } else {
        let t = toks[0];
        if st == 2 && punct_is(buf, t, 62) {
            Some((t, toks.skip(1)))
        } else {
            let st2 = if punct_is(buf, t, 45) {
                if st == 0 {
                    1int
                } else {
                    2int
                }
            } else {
                0int
            };
            comment_scan(buf, toks.skip(1), st2)
        }
    }
}

/// Scanning for a bare `>` punctuation token, consuming everything before
/// it: the doctype production's tail. Yields the `>` token and the tokens
/// after it, or `None` when input runs out first.
pub open spec fn doctype_scan(buf: Seq<u8>, toks: Seq<TokenTree>) -> Option<
    (TokenTree, Seq<TokenTree>),
>
    decreases toks.len(),
{
    if toks.len() == 0 {
        None
    } else if punct_is(buf, toks[0], 62) {
        Some((toks[0], toks.skip(1)))
    } else {
        doctype_scan(buf, toks.skip(1))
    }
}

/// The outcome of scanning for a terminating `>`: found (with the `>`
/// token and the rest), a grammar error with its message, or input ran
/// out.
pub enum GtScan {
    Found(TokenTree, Seq<TokenTree>),
    Failed(Seq<char>),
    Ended,
}

/// The tail of a close tag: whitespace tokens are skipped, a `>` ends the
/// element, and any other token is a grammar error.
pub open spec fn close_scan(buf: Seq<u8>, toks: Seq<TokenTree>) -> GtScan
    decreases toks.len(),
{
    if toks.len() == 0 {
        GtScan::Ended
    } else if punct_is(buf, toks[0], 62) {
        GtScan::Found(toks[0], toks.skip(1))
    } else if toks[0] is Whitespace {
        close_scan(buf, toks.skip(1))
    } else {
        GtScan::Failed("expected `>`"@)
    }
}

/// The outcome of one attribute phase: proceed with the rest of the
/// tokens, stop early (valueless attribute, nothing more consumed), a
/// grammar error, or input ran out.
pub enum AttrScan {
    More(Seq<TokenTree>),
    Stop(Seq<TokenTree>),
    Failed(Seq<char>),
    Ended,
}

/// The attribute key: leading whitespace is skipped, an identifier is the
/// key, and punctuation before one is a grammar error.
pub open spec fn attr_key_scan(buf: Seq<u8>, toks: Seq<TokenTree>) -> AttrScan
    decreases toks.len(),
{
    if toks.len() == 0 {
        AttrScan::Ended
    } else {
        match toks[0] {
            TokenTree::Ident(_) => AttrScan::More(toks.skip(1)),
            TokenTree::Whitespace(_) => attr_key_scan(buf, toks.skip(1)),
            TokenTree::Punct(_) => AttrScan::Failed("expected an identifier"@),
        }
    }
}

/// After the key: whitespace is skipped; `=` leads on to the value; a `>`
/// or another identifier means the attribute was valueless and the token
/// is left unconsumed; any other punctuation is a grammar error.
pub open spec fn attr_eq_scan(buf: Seq<u8>, toks: Seq<TokenTree>) -> AttrScan
    decreases toks.len(),
{
    if toks.len() == 0 {
        AttrScan::Ended
    } else {
        match toks[0] {
            TokenTree::Punct(_) => {
                if punct_is(buf, toks[0], 61) {
                    AttrScan::More(toks.skip(1))
                } else if punct_is(buf, toks[0], 62) {
                    AttrScan::Stop(toks)
                } else {
                    AttrScan::Failed("expected `=` or `>`"@)
                }
            },
            TokenTree::Whitespace(_) => attr_eq_scan(buf, toks.skip(1)),
            TokenTree::Ident(_) => AttrScan::Stop(toks),
        }
    }
}

/// The opening quote of an attribute value: whitespace is skipped, a `"`
/// proceeds, anything else is a grammar error.
pub open spec fn attr_quote_scan(buf: Seq<u8>, toks: Seq<TokenTree>) -> AttrScan
    decreases toks.len(),
{
    if toks.len() == 0 {
        AttrScan::Ended
    } else {
        match toks[0] {
            TokenTree::Punct(_) => {
                if punct_is(buf, toks[0], 34) {
                    AttrScan::More(toks.skip(1))
                } else {
                    AttrScan::Failed("expected `\"`"@)
                }
            },
            TokenTree::Ident(_) => AttrScan::Failed("expected `\"`"@),
            TokenTree::Whitespace(_) => attr_quote_scan(buf, toks.skip(1)),
        }
    }
}

/// The attribute value: everything up to and including the closing `"` is
/// consumed.
pub open spec fn attr_value_scan(buf: Seq<u8>, toks: Seq<TokenTree>) -> AttrScan
    decreases toks.len(),
{
    if toks.len() == 0 {
        AttrScan::Ended
    } else if punct_is(buf, toks[0], 34) {
        AttrScan::More(toks.skip(1))
    } else {
        attr_value_scan(buf, toks.skip(1))
    }
}

/// One whole attribute: key, optional `=` and quoted value. `Stop` and
/// `More` both mean the attribute was consumed.
pub open spec fn attr_scan(buf: Seq<u8>, toks: Seq<TokenTree>) -> AttrScan {
    match attr_key_scan(buf, toks) {
        AttrScan::More(t1) => match attr_eq_scan(buf, t1) {
            AttrScan::More(t2) => match attr_quote_scan(buf, t2) {
                AttrScan::More(t3) => attr_value_scan(buf, t3),
                other => other,
            },
            AttrScan::Stop(t2) => AttrScan::Stop(t2),
            other => other,
        },
        other => other,
    }
}

/// The attribute list of an open tag: whitespace between attributes is
/// skipped, attributes are consumed one after another, and a bare `>`
/// ends the element.
pub open spec fn attrs_scan(buf: Seq<u8>, toks: Seq<TokenTree>) -> GtScan
    decreases toks.len(),
        via attrs_scan_decreases
{
    if toks.len() == 0 {
        GtScan::Ended
    } else if punct_is(buf, toks[0], 62) {
        GtScan::Found(toks[0], toks.skip(1))
    } else if toks[0] is Whitespace {
        attrs_scan(buf, toks.skip(1))
    } else {
        match attr_scan(buf, toks) {
            AttrScan::More(rest) => attrs_scan(buf, rest),
            AttrScan::Stop(rest) => attrs_scan(buf, rest),
            AttrScan::Failed(m) => GtScan::Failed(m),
            AttrScan::Ended => GtScan::Ended,
        }
    }
}

#[via_fn]
proof fn attrs_scan_decreases(buf: Seq<u8>, toks: Seq<TokenTree>) {
    if toks.len() > 0 && !punct_is(buf, toks[0], 62) && !(toks[0] is Whitespace) {
        lemma_attr_scan_shrinks(buf, toks);
    }
}

/// A text run: the token before `toks[0]` has already been consumed, and
/// consumption continues until the next token is a `<` or input ends.
/// Yields the last consumed token and the tokens left over.
pub open spec fn text_scan(buf: Seq<u8>, toks: Seq<TokenTree>) -> (TokenTree, Seq<TokenTree>)
    recommends
        toks.len() > 0,
    decreases toks.len(),
{
    if toks.len() <= 1 {
        (toks[0], toks.skip(1))
    } else if punct_is(buf, toks[1], 60) {
        (toks[0], toks.skip(1))
    } else {
        text_scan(buf, toks.skip(1))
    }
}

/// The key phase consumes at least one token when it succeeds.
proof fn lemma_attr_key_shrinks(buf: Seq<u8>, toks: Seq<TokenTree>)
    ensures
        attr_key_scan(buf, toks) matches AttrScan::More(r) ==> r.len() < toks.len(),
        attr_key_scan(buf, toks) matches AttrScan::Stop(r) ==> false,
    decreases toks.len(),
{
    if toks.len() > 0 && toks[0] is Whitespace {
        lemma_attr_key_shrinks(buf, toks.skip(1));
    }
}

/// The `=` phase never grows the token sequence, and consumes at least
/// one token when it proceeds to a value.
proof fn lemma_attr_eq_shrinks(buf: Seq<u8>, toks: Seq<TokenTree>)
    ensures
        attr_eq_scan(buf, toks) matches AttrScan::More(r) ==> r.len() < toks.len(),
        attr_eq_scan(buf, toks) matches AttrScan::Stop(r) ==> r.len() <= toks.len(),
    decreases toks.len(),
{
    if toks.len() > 0 && toks[0] is Whitespace {
        lemma_attr_eq_shrinks(buf, toks.skip(1));
    }
}

/// The quote phase consumes at least one token when it succeeds.
proof fn lemma_attr_quote_shrinks(buf: Seq<u8>, toks: Seq<TokenTree>)
    ensures
        attr_quote_scan(buf, toks) matches AttrScan::More(r) ==> r.len() < toks.len(),
        attr_quote_scan(buf, toks) matches AttrScan::Stop(r) ==> false,
    decreases toks.len(),
{
    if toks.len() > 0 && toks[0] is Whitespace {
        lemma_attr_quote_shrinks(buf, toks.skip(1));
    }
}

/// The value phase consumes at least one token when it succeeds.
proof fn lemma_attr_value_shrinks(buf: Seq<u8>, toks: Seq<TokenTree>)
    ensures
        attr_value_scan(buf, toks) matches AttrScan::More(r) ==> r.len() < toks.len(),
        attr_value_scan(buf, toks) matches AttrScan::Stop(r) ==> false,
    decreases toks.len(),
{
    if toks.len() > 0 && !punct_is(buf, toks[0], 34) {
        lemma_attr_value_shrinks(buf, toks.skip(1));
    }
}

/// A whole attribute consumes at least one token.
proof fn lemma_attr_scan_shrinks(buf: Seq<u8>, toks: Seq<TokenTree>)
    ensures
        attr_scan(buf, toks) matches AttrScan::More(r) ==> r.len() < toks.len(),
        attr_scan(buf, toks) matches AttrScan::Stop(r) ==> r.len() < toks.len(),
{
    lemma_attr_key_shrinks(buf, toks);
    match attr_key_scan(buf, toks) {
        AttrScan::More(t1) => {
            lemma_attr_eq_shrinks(buf, t1);
            match attr_eq_scan(buf, t1) {
                AttrScan::More(t2) => {
                    lemma_attr_quote_shrinks(buf, t2);
                    match attr_quote_scan(buf, t2) {
                        AttrScan::More(t3) => {
                            lemma_attr_value_shrinks(buf, t3);
                        },
                        _ => {},
                    }
                },
                _ => {},
            }
        },
        _ => {},
    }
}


/// The terminating `>` of a comment is a well-formed token no earlier
/// than the scan's start.
proof fn lemma_comment_scan(buf: Seq<u8>, toks: Seq<TokenTree>, st: int)
    requires
        stream_wf(buf, toks),
    ensures
        comment_scan(buf, toks, st) matches Some(p) ==> token_wf(buf, p.0) && punct_is(buf, p.0, 62)
            && toks.len() > 0 && toks[0].spec_span().offset <= p.0.spec_span().offset,
    decreases toks.len(),
{
    if toks.len() > 0 {
        let t = toks[0];
        if !(st == 2 && punct_is(buf, t, 62)) {
            let st2 = if punct_is(buf, t, 45) {
                if st == 0 {
                    1int
                } else {
                    2int
                }
            } else {
                0int
            };
            lemma_stream_wf_skip(buf, toks, 1);
            lemma_comment_scan(buf, toks.skip(1), st2);
            if comment_scan(buf, toks.skip(1), st2) is Some {
                assert(toks.skip(1)[0] == toks[1]);
            }
        }
    }
}

/// The terminating `>` of a doctype is a well-formed token no earlier
/// than the scan's start.
proof fn lemma_doctype_scan(buf: Seq<u8>, toks: Seq<TokenTree>)
    requires
        stream_wf(buf, toks),
    ensures
        doctype_scan(buf, toks) matches Some(p) ==> token_wf(buf, p.0) && punct_is(buf, p.0, 62)
            && toks.len() > 0 && toks[0].spec_span().offset <= p.0.spec_span().offset,
    decreases toks.len(),
{
    if toks.len() > 0 && !punct_is(buf, toks[0], 62) {
        lemma_stream_wf_skip(buf, toks, 1);
        lemma_doctype_scan(buf, toks.skip(1));
        if doctype_scan(buf, toks.skip(1)) is Some {
            assert(toks.skip(1)[0] == toks[1]);
        }
    }
}

/// The terminating `>` of a close tag is a well-formed token no earlier
/// than the scan's start.
proof fn lemma_close_scan(buf: Seq<u8>, toks: Seq<TokenTree>)
    requires
        stream_wf(buf, toks),
    ensures
        close_scan(buf, toks) matches GtScan::Found(gt, rest) ==> token_wf(buf, gt) && punct_is(
            buf,
            gt,
            62,
        ) && toks.len() > 0 && toks[0].spec_span().offset <= gt.spec_span().offset,
    decreases toks.len(),
{
    if toks.len() > 0 && !punct_is(buf, toks[0], 62) && toks[0] is Whitespace {
        lemma_stream_wf_skip(buf, toks, 1);
        lemma_close_scan(buf, toks.skip(1));
        if close_scan(buf, toks.skip(1)) is Found {
            assert(toks.skip(1)[0] == toks[1]);
        }
    }
}

/// The key phase leaves a shorter, well-formed, later suffix.
proof fn lemma_attr_key_scan(buf: Seq<u8>, toks: Seq<TokenTree>)
    requires
        stream_wf(buf, toks),
    ensures
        attr_key_scan(buf, toks) matches AttrScan::More(r) ==> r.len() < toks.len() && stream_wf(
            buf,
            r,
        ) && (r.len() > 0 ==> toks[0].spec_span().offset < r[0].spec_span().offset),
        attr_key_scan(buf, toks) matches AttrScan::Stop(r) ==> false,
    decreases toks.len(),
{
    if toks.len() > 0 {
        match toks[0] {
            TokenTree::Ident(_) => {
                lemma_stream_wf_skip(buf, toks, 1);
                if toks.len() > 1 {
                    assert(toks.skip(1)[0] == toks[1]);
                }
            },
            TokenTree::Whitespace(_) => {
                lemma_stream_wf_skip(buf, toks, 1);
                lemma_attr_key_scan(buf, toks.skip(1));
                match attr_key_scan(buf, toks.skip(1)) {
                    AttrScan::More(r) => {
                        if r.len() > 0 {
                            assert(toks.skip(1)[0] == toks[1]);
                        }
                    },
                    _ => {},
                }
            },
            TokenTree::Punct(_) => {},
        }
    }
}

/// The `=` phase leaves a no-longer, well-formed, no-earlier suffix.
proof fn lemma_attr_eq_scan(buf: Seq<u8>, toks: Seq<TokenTree>)
    requires
        stream_wf(buf, toks),
    ensures
        attr_eq_scan(buf, toks) matches AttrScan::More(r) ==> r.len() < toks.len() && stream_wf(
            buf,
            r,
        ) && (r.len() > 0 ==> toks[0].spec_span().offset < r[0].spec_span().offset),
        attr_eq_scan(buf, toks) matches AttrScan::Stop(r) ==> r.len() <= toks.len() && stream_wf(
            buf,
            r,
        ) && (r.len() > 0 ==> toks[0].spec_span().offset <= r[0].spec_span().offset),
    decreases toks.len(),
{
    if toks.len() > 0 {
        match toks[0] {
            TokenTree::Whitespace(_) => {
                lemma_stream_wf_skip(buf, toks, 1);
                lemma_attr_eq_scan(buf, toks.skip(1));
                if toks.len() > 1 {
                    assert(toks.skip(1)[0] == toks[1]);
                }
            },
            _ => {
                lemma_stream_wf_skip(buf, toks, 1);
                if toks.len() > 1 {
                    assert(toks.skip(1)[0] == toks[1]);
                }
            },
        }
    }
}

/// The quote phase leaves a shorter, well-formed, later suffix.
proof fn lemma_attr_quote_scan(buf: Seq<u8>, toks: Seq<TokenTree>)
    requires
        stream_wf(buf, toks),
    ensures
        attr_quote_scan(buf, toks) matches AttrScan::More(r) ==> r.len() < toks.len() && stream_wf(
            buf,
            r,
        ) && (r.len() > 0 ==> toks[0].spec_span().offset < r[0].spec_span().offset),
        attr_quote_scan(buf, toks) matches AttrScan::Stop(r) ==> false,
    decreases toks.len(),
{
    if toks.len() > 0 {
        lemma_stream_wf_skip(buf, toks, 1);
        if toks[0] is Whitespace {
            lemma_attr_quote_scan(buf, toks.skip(1));
        }
        if toks.len() > 1 {
            assert(toks.skip(1)[0] == toks[1]);
        }
    }
}

/// The value phase leaves a shorter, well-formed, later suffix.
proof fn lemma_attr_value_scan(buf: Seq<u8>, toks: Seq<TokenTree>)
    requires
        stream_wf(buf, toks),
    ensures
        attr_value_scan(buf, toks) matches AttrScan::More(r) ==> r.len() < toks.len() && stream_wf(
            buf,
            r,
        ) && (r.len() > 0 ==> toks[0].spec_span().offset < r[0].spec_span().offset),
        attr_value_scan(buf, toks) matches AttrScan::Stop(r) ==> false,
    decreases toks.len(),
{
    if toks.len() > 0 {
        lemma_stream_wf_skip(buf, toks, 1);
        if !punct_is(buf, toks[0], 34) {
            lemma_attr_value_scan(buf, toks.skip(1));
        }
        if toks.len() > 1 {
            assert(toks.skip(1)[0] == toks[1]);
        }
    }
}

/// A whole attribute leaves a shorter, well-formed, later suffix.
proof fn lemma_attr_scan(buf: Seq<u8>, toks: Seq<TokenTree>)
    requires
        stream_wf(buf, toks),
    ensures
        attr_scan(buf, toks) matches AttrScan::More(r) ==> r.len() < toks.len() && stream_wf(
            buf,
            r,
        ) && (r.len() > 0 ==> toks[0].spec_span().offset < r[0].spec_span().offset),
        attr_scan(buf, toks) matches AttrScan::Stop(r) ==> r.len() < toks.len() && stream_wf(
            buf,
            r,
        ) && (r.len() > 0 ==> toks[0].spec_span().offset < r[0].spec_span().offset),
{
    lemma_attr_key_scan(buf, toks);
    match attr_key_scan(buf, toks) {
        AttrScan::More(t1) => {
            lemma_attr_eq_scan(buf, t1);
            match attr_eq_scan(buf, t1) {
                AttrScan::More(t2) => {
                    lemma_attr_quote_scan(buf, t2);
                    match attr_quote_scan(buf, t2) {
                        AttrScan::More(t3) => {
                            lemma_attr_value_scan(buf, t3);
                        },
                        _ => {},
                    }
                },
                _ => {},
            }
        },
        _ => {},
    }
}

/// The terminating `>` of an attribute list is a well-formed token no
/// earlier than the scan's start.
proof fn lemma_attrs_scan(buf: Seq<u8>, toks: Seq<TokenTree>)
    requires
        stream_wf(buf, toks),
    ensures
        attrs_scan(buf, toks) matches GtScan::Found(gt, rest) ==> token_wf(buf, gt) && punct_is(
            buf,
            gt,
            62,
        ) && toks.len() > 0 && toks[0].spec_span().offset <= gt.spec_span().offset,
    decreases toks.len(),
{
    if toks.len() > 0 && !punct_is(buf, toks[0], 62) {
        if toks[0] is Whitespace {
            lemma_stream_wf_skip(buf, toks, 1);
            lemma_attrs_scan(buf, toks.skip(1));
            if attrs_scan(buf, toks.skip(1)) is Found {
                assert(toks.skip(1)[0] == toks[1]);
            }
        } else {
            lemma_attr_scan(buf, toks);
            match attr_scan(buf, toks) {
                AttrScan::More(rest) => {
                    lemma_attrs_scan(buf, rest);
                },
                AttrScan::Stop(rest) => {
                    lemma_attrs_scan(buf, rest);
                },
                _ => {},
            }
        }
    }
}

/// What parsing a comment from the token stream `up` yields: the node and
/// the stream left over on success, or the end-of-input error with the
/// whole stream consumed.
pub open spec fn comment_outcome(
    buf: Seq<u8>,
    up: Seq<TokenTree>,
    r: Result<SyntaxTree, Error>,
    up2: Seq<TokenTree>,
) -> bool {
    match comment_scan(buf, up.skip(4), 0) {
        Some(p) => r == Ok::<SyntaxTree, Error>(
            SyntaxTree::Comment(Comment { span: node_span(up[0], p.0) }),
        ) && up2 == p.1,
        None => (r matches Err(e) && e.msg@ == "unexpected eof"@) && up2.len() == 0,
    }
}

/// What parsing a doctype from the token stream `up` yields.
pub open spec fn doctype_outcome(
    buf: Seq<u8>,
    up: Seq<TokenTree>,
    r: Result<SyntaxTree, Error>,
    up2: Seq<TokenTree>,
) -> bool {
    match doctype_scan(buf, up.skip(2)) {
        Some(p) => r == Ok::<SyntaxTree, Error>(
            SyntaxTree::DOCTYPE(DOCTYPE { span: node_span(up[0], p.0) }),
        ) && up2 == p.1,
        None => (r matches Err(e) && e.msg@ == "unexpected eof"@) && up2.len() == 0,
    }
}

/// What parsing an element from the token stream `up` yields: an open
/// tag when an identifier follows the `<`, a close tag when `/` and an
/// identifier follow it, and a grammar error otherwise.
pub open spec fn element_outcome(
    buf: Seq<u8>,
    up: Seq<TokenTree>,
    r: Result<SyntaxTree, Error>,
    up2: Seq<TokenTree>,
) -> bool {
    if up.len() < 2 {
        (r matches Err(e) && e.msg@ == "unexpected eof"@) && up2.len() == 0
    } else {
        match up[1] {
            TokenTree::Ident(tag) => match attrs_scan(buf, up.skip(2)) {
                GtScan::Found(gt, rest) => r == Ok::<SyntaxTree, Error>(
                    SyntaxTree::Element(
                        Element {
                            kind: ElementKind::Open,
                            span: node_span(up[0], gt),
                            tag_span: tag.span,
                        },
                    ),
                ) && up2 == rest,
                GtScan::Failed(m) => r matches Err(e) && e.msg@ == m,
                GtScan::Ended => (r matches Err(e) && e.msg@ == "unexpected eof"@) && up2.len()
                    == 0,
            },
            TokenTree::Punct(p) => {
                if buf[p.span.offset as int] == 47 {
                    if up.len() < 3 {
                        (r matches Err(e) && e.msg@ == "unexpected eof"@) && up2.len() == 0
                    } else {
                        match up[2] {
                            TokenTree::Ident(tag) => match close_scan(buf, up.skip(3)) {
                                GtScan::Found(gt, rest) => r == Ok::<SyntaxTree, Error>(
                                    SyntaxTree::Element(
                                        Element {
                                            kind: ElementKind::Close,
                                            span: node_span(up[0], gt),
                                            tag_span: tag.span,
                                        },
                                    ),
                                ) && up2 == rest,
                                GtScan::Failed(m) => r matches Err(e) && e.msg@ == m,
                                GtScan::Ended => (r matches Err(e) && e.msg@ == "unexpected eof"@)
                                    && up2.len() == 0,
                            },
                            _ => (r matches Err(e) && e.msg@ == "expected an identifier"@) && up2
                                == up.skip(3),
                        }
                    }
                } else {
                    (r matches Err(e) && e.msg@ == "expected `/` or an identifier"@) && up2
                        == up.skip(2)
                }
            },
            TokenTree::Whitespace(_) => (r matches Err(e) && e.msg@
                == "expected `/` or an identifier"@) && up2 == up.skip(2),
        }
    }
}

/// What parsing a text run from the token stream `up` yields: a node
/// spanning from the first token through the end of the last consumed
/// token.
pub open spec fn text_outcome(
    buf: Seq<u8>,
    up: Seq<TokenTree>,
    r: Result<SyntaxTree, Error>,
    up2: Seq<TokenTree>,
) -> bool {
    let last = text_scan(buf, up).0;
    let rest = text_scan(buf, up).1;
    &&& r == Ok::<SyntaxTree, Error>(
        SyntaxTree::Text(
            Text {
                span: Span {
                    offset: up[0].spec_span().offset,
                    len: (last.spec_span().offset + last.spec_span().len
                        - up[0].spec_span().offset) as usize,
                    line: up[0].spec_span().line,
                    col: up[0].spec_span().col,
                },
            },
        ),
    )
    &&& up2 == rest
}

/// Is this token a punctuation token carrying the byte `c`?
fn punct_is_byte(t: &TokenTree, buf: &[u8], c: u8) -> (r: bool)
    requires
        token_wf(buf@, *t),
    ensures
        r == punct_is(buf@, *t, c),
{
    match t {
        TokenTree::Punct(p) => {
            let bytes = p.evaluate(buf);
            bytes[0] == c
        },
        _ => false,
    }
}


impl Comment {
    /// Do the next four tokens open a comment?
    fn peek(iter: &mut Peekable<'_>, buf: &[u8]) -> (r: bool)
        requires
            old(iter).wf(),
            old(iter).spec_cap() >= 4,
            buf@ == old(iter).spec_buf(),
        ensures
            final(iter).wf(),
            final(iter).spec_cap() == old(iter).spec_cap(),
            final(iter).spec_buf() == old(iter).spec_buf(),
            final(iter).upcoming() == old(iter).upcoming(),
            r == comment_peeked(buf@, old(iter).upcoming()),
    {
        let t0 = match iter.peek_n(0) {
            Some(t) => Some(*t),
            None => None,
        };
        let ok0 = match t0 {
            Some(t) => punct_is_byte(&t, buf, 60),
            None => false,
        };
        if !ok0 {
            false
        } else {
            let t1 = match iter.peek_n(1) {
                Some(t) => Some(*t),
                None => None,
            };
            let ok1 = match t1 {
                Some(t) => punct_is_byte(&t, buf, 33),
                None => false,
            };
            if !ok1 {
                false
            } else {
                let t2 = match iter.peek_n(2) {
                    Some(t) => Some(*t),
                    None => None,
                };
                let ok2 = match t2 {
                    Some(t) => punct_is_byte(&t, buf, 45),
                    None => false,
                };
                if !ok2 {
                    false
                } else {
                    let t3 = match iter.peek_n(3) {
                        Some(t) => Some(*t),
                        None => None,
                    };
                    match t3 {
                        Some(t) => punct_is_byte(&t, buf, 45),
                        None => false,
                    }
                }
            }
        }
    }

    /// Consume a whole comment: the four opener tokens, then everything
    /// up to and including the `-`, `-`, `>` terminator.
    fn parse(iter: &mut Peekable<'_>, buf: &[u8]) -> (r: Result<Self, Error>)
        requires
            old(iter).wf(),
            old(iter).spec_cap() >= 1,
            buf@ == old(iter).spec_buf(),
            comment_peeked(buf@, old(iter).upcoming()),
        ensures
            final(iter).wf(),
            final(iter).spec_cap() == old(iter).spec_cap(),
            final(iter).spec_buf() == old(iter).spec_buf(),
            comment_outcome(
                buf@,
                old(iter).upcoming(),
                match r {
                    Ok(c) => Ok(SyntaxTree::Comment(c)),
                    Err(e) => Err(e),
                },
                final(iter).upcoming(),
            ),
            r matches Ok(c) ==> c.span.offset + c.span.len <= buf@.len() && 1 <= c.span.len,
    {
        let ghost up0 = iter.upcoming();
        let tree = iter.next().unwrap();
        let _t1 = iter.next().unwrap();
        let _t2 = iter.next().unwrap();
        let _t3 = iter.next().unwrap();
        proof {
            assert(iter.upcoming() =~= up0.skip(4)) by {
                assert(up0.skip(1).skip(1) =~= up0.skip(2));
                assert(up0.skip(2).skip(1) =~= up0.skip(3));
                assert(up0.skip(3).skip(1) =~= up0.skip(4));
            }
        }

        let mut span = tree.span();
        let mut st: u8 = 0;
        let mut found = false;
        let mut gt_span = Span::unknown();

        loop
            invariant_except_break
                iter.wf(),
                iter.spec_cap() == old(iter).spec_cap(),
                iter.spec_cap() >= 1,
                iter.spec_buf() == buf@,
                st <= 2,
                !found,
                comment_scan(buf@, up0.skip(4), 0) == comment_scan(
                    buf@,
                    iter.upcoming(),
                    st as int,
                ),
            ensures
                iter.wf(),
                iter.spec_cap() == old(iter).spec_cap(),
                iter.spec_buf() == buf@,
                found ==> (comment_scan(buf@, up0.skip(4), 0) matches Some(p) && p.1
                    == iter.upcoming() && gt_span == p.0.spec_span()),
                !found ==> comment_scan(buf@, up0.skip(4), 0) is None && iter.upcoming().len()
                    == 0,
            decreases iter.upcoming().len(),
        {
            let nxt = iter.next();
            match nxt {
                Some(t) => {
                    if st == 2 && punct_is_byte(&t, buf, 62) {
                        gt_span = t.span();
                        found = true;
                        break;
                    } else {
                        if punct_is_byte(&t, buf, 45) {
                            if st == 0 {
                                st = 1;
                            } else {
                                st = 2;
                            }
                        } else {
                            st = 0;
                        }
                    }
                },
                None => {
                    break;
                },
            }
        }

        if found {
            proof {
                lemma_stream_wf_skip(buf@, up0, 4);
                lemma_comment_scan(buf@, up0.skip(4), 0);
                assert(up0.skip(4)[0] == up0[4]);
            }
            span.spanned_into(gt_span);
            Ok(Self { span })
        } else {
            Err(Error::new(iter.span(), "unexpected eof"))
        }
    }
}

impl DOCTYPE {
    /// Do the next two tokens open a doctype?
    fn peek(iter: &mut Peekable<'_>, buf: &[u8]) -> (r: bool)
        requires
            old(iter).wf(),
            old(iter).spec_cap() >= 2,
            buf@ == old(iter).spec_buf(),
        ensures
            final(iter).wf(),
            final(iter).spec_cap() == old(iter).spec_cap(),
            final(iter).spec_buf() == old(iter).spec_buf(),
            final(iter).upcoming() == old(iter).upcoming(),
            r == doctype_peeked(buf@, old(iter).upcoming()),
    {
        let t0 = match iter.peek_n(0) {
            Some(t) => Some(*t),
            None => None,
        };
        let ok0 = match t0 {
            Some(t) => punct_is_byte(&t, buf, 60),
            None => false,
        };
        if !ok0 {
            false
        } else {
            let t1 = match iter.peek_n(1) {
                Some(t) => Some(*t),
                None => None,
            };
            match t1 {
                Some(t) => punct_is_byte(&t, buf, 33),
                None => false,
            }
        }
    }

    /// Consume a whole doctype: `<`, `!`, then everything up to and
    /// including the terminating `>`.
    fn parse(iter: &mut Peekable<'_>, buf: &[u8]) -> (r: Result<Self, Error>)
        requires
            old(iter).wf(),
            old(iter).spec_cap() >= 1,
            buf@ == old(iter).spec_buf(),
            doctype_peeked(buf@, old(iter).upcoming()),
        ensures
            final(iter).wf(),
            final(iter).spec_cap() == old(iter).spec_cap(),
            final(iter).spec_buf() == old(iter).spec_buf(),
            doctype_outcome(
                buf@,
                old(iter).upcoming(),
                match r {
                    Ok(d) => Ok(SyntaxTree::DOCTYPE(d)),
                    Err(e) => Err(e),
                },
                final(iter).upcoming(),
            ),
            r matches Ok(d) ==> d.span.offset + d.span.len <= buf@.len() && 1 <= d.span.len,
    {
        let ghost up0 = iter.upcoming();
        let tree = iter.next().unwrap();
        let _t1 = iter.next().unwrap();
        proof {
            assert(iter.upcoming() =~= up0.skip(2)) by {
                assert(up0.skip(1).skip(1) =~= up0.skip(2));
            }
        }

        let mut span = tree.span();
        let mut found = false;
        let mut gt_span = Span::unknown();

        loop
            invariant_except_break
                iter.wf(),
                iter.spec_cap() == old(iter).spec_cap(),
                iter.spec_cap() >= 1,
                iter.spec_buf() == buf@,
                !found,
                doctype_scan(buf@, up0.skip(2)) == doctype_scan(buf@, iter.upcoming()),
            ensures
                iter.wf(),
                iter.spec_cap() == old(iter).spec_cap(),
                iter.spec_buf() == buf@,
                found ==> (doctype_scan(buf@, up0.skip(2)) matches Some(p) && p.1
                    == iter.upcoming() && gt_span == p.0.spec_span()),
                !found ==> doctype_scan(buf@, up0.skip(2)) is None && iter.upcoming().len() == 0,
            decreases iter.upcoming().len(),
        {
            let nxt = iter.next();
            match nxt {
                Some(t) => {
                    if punct_is_byte(&t, buf, 62) {
                        gt_span = t.span();
                        found = true;
                        break;
                    }
                },
                None => {
                    break;
                },
            }
        }

        if found {
            proof {
                lemma_stream_wf_skip(buf@, up0, 2);
                lemma_doctype_scan(buf@, up0.skip(2));
                assert(up0.skip(2)[0] == up0[2]);
            }
            span.spanned_into(gt_span);
            Ok(Self { span })
        } else {
            Err(Error::new(iter.span(), "unexpected eof"))
        }
    }
}

impl Element {
    /// Does the next token open an element?
    fn peek(iter: &mut Peekable<'_>, buf: &[u8]) -> (r: bool)
        requires
            old(iter).wf(),
            old(iter).spec_cap() >= 1,
            buf@ == old(iter).spec_buf(),
        ensures
            final(iter).wf(),
            final(iter).spec_cap() == old(iter).spec_cap(),
            final(iter).spec_buf() == old(iter).spec_buf(),
            final(iter).upcoming() == old(iter).upcoming(),
            r == element_peeked(buf@, old(iter).upcoming()),
    {
        let t0 = match iter.peek_n(0) {
            Some(t) => Some(*t),
            None => None,
        };
        match t0 {
            Some(t) => punct_is_byte(&t, buf, 60),
            None => false,
        }
    }

    /// Consume a whole element tag: `<`, then either a tag name (open
    /// element, with attributes) or `/` and a tag name (close element),
    /// through the terminating `>`.
    fn parse(iter: &mut Peekable<'_>, buf: &[u8]) -> (r: Result<Self, Error>)
        requires
            old(iter).wf(),
            old(iter).spec_cap() >= 1,
            buf@ == old(iter).spec_buf(),
            element_peeked(buf@, old(iter).upcoming()),
        ensures
            final(iter).wf(),
            final(iter).spec_cap() == old(iter).spec_cap(),
            final(iter).spec_buf() == old(iter).spec_buf(),
            element_outcome(
                buf@,
                old(iter).upcoming(),
                match r {
                    Ok(el) => Ok(SyntaxTree::Element(el)),
                    Err(e) => Err(e),
                },
                final(iter).upcoming(),
            ),
            r matches Ok(el) ==> el.span.offset + el.span.len <= buf@.len() && 1 <= el.span.len,
    {
        let ghost up0 = iter.upcoming();
        let lt = iter.next().unwrap();
        let n2 = iter.next();
        if n2.is_none() {
            Err(Error::new(iter.span(), "unexpected eof"))
        } else {
            let t2 = n2.unwrap();
            proof {
                assert(iter.upcoming() =~= up0.skip(2)) by {
                    assert(up0.skip(1).skip(1) =~= up0.skip(2));
                }
                assert(token_wf(buf@, t2));
            }
            match t2 {
                TokenTree::Ident(tag) => {
                    proof {
                        lemma_stream_wf_skip(buf@, up0, 2);
                        if up0.len() > 2 {
                            assert(up0.skip(2)[0] == up0[2]);
                        }
                    }
                    Self::finish_open(iter, buf, lt, tag)
                },
                TokenTree::Punct(_) => {
                    if punct_is_byte(&t2, buf, 47) {
                        let n3 = iter.next();
                        if n3.is_none() {
                            Err(Error::new(iter.span(), "unexpected eof"))
                        } else {
                            let t3 = n3.unwrap();
                            proof {
                                assert(iter.upcoming() =~= up0.skip(3)) by {
                                    assert(up0.skip(2).skip(1) =~= up0.skip(3));
                                }
                            }
                            match t3 {
                                TokenTree::Ident(tag) => {
                                    proof {
                                        lemma_stream_wf_skip(buf@, up0, 3);
                                        if up0.len() > 3 {
                                            assert(up0.skip(3)[0] == up0[3]);
                                        }
                                    }
                                    Self::finish_close(iter, buf, lt, tag)
                                },
                                _ => Err(Error::new(iter.span(), "expected an identifier")),
                            }
                        }
                    } else {
                        Err(Error::new(iter.span(), "expected `/` or an identifier"))
                    }
                },
                TokenTree::Whitespace(_) => Err(
                    Error::new(iter.span(), "expected `/` or an identifier"),
                ),
            }
        }
    }

    /// The tail of a close element: skip whitespace and require the
    /// terminating `>`.
    fn finish_close(
        iter: &mut Peekable<'_>,
        buf: &[u8],
        lt: TokenTree,
        tag: crate::tokenizer::Ident,
    ) -> (r: Result<Element, Error>)
        requires
            old(iter).wf(),
            old(iter).spec_cap() >= 1,
            buf@ == old(iter).spec_buf(),
            token_wf(buf@, lt),
            old(iter).upcoming().len() > 0 ==> lt.spec_span().offset < old(iter).upcoming()[0].spec_span().offset,
        ensures
            final(iter).wf(),
            final(iter).spec_cap() == old(iter).spec_cap(),
            final(iter).spec_buf() == old(iter).spec_buf(),
            match close_scan(buf@, old(iter).upcoming()) {
                GtScan::Found(gt, rest) => r == Ok::<Element, Error>(
                    (Element {
                        kind: ElementKind::Close,
                        span: node_span(lt, gt),
                        tag_span: tag.span,
                    }),
                ) && final(iter).upcoming() == rest,
                GtScan::Failed(m) => r matches Err(e) && e.msg@ == m,
                GtScan::Ended => (r matches Err(e) && e.msg@ == "unexpected eof"@) && final(iter).upcoming().len() == 0,
            },
            r matches Ok(el) ==> el.span.offset + el.span.len <= buf@.len() && 1 <= el.span.len,
    {
        let ghost upc = iter.upcoming();
        let mut found = false;
        let mut failed = false;
        let mut gt_span = Span::unknown();
        let ghost mut gt_tok = lt;

        loop
            invariant_except_break
                iter.wf(),
                iter.spec_cap() == old(iter).spec_cap(),
                iter.spec_cap() >= 1,
                iter.spec_buf() == buf@,
                !found,
                !failed,
                close_scan(buf@, upc) == close_scan(buf@, iter.upcoming()),
            ensures
                iter.wf(),
                iter.spec_cap() == old(iter).spec_cap(),
                iter.spec_buf() == buf@,
                found ==> close_scan(buf@, upc) == GtScan::Found(gt_tok, iter.upcoming())
                    && gt_span == gt_tok.spec_span(),
                !found && failed ==> close_scan(buf@, upc) == GtScan::Failed("expected `>`"@),
                !found && !failed ==> close_scan(buf@, upc) is Ended && iter.upcoming().len()
                    == 0,
            decreases iter.upcoming().len(),
        {
            let nxt = iter.next();
            match nxt {
                Some(t) => {
                    if punct_is_byte(&t, buf, 62) {
                        gt_span = t.span();
                        proof {
                            gt_tok = t;
                        }
                        found = true;
                        break;
                    } else {
                        match t {
                            TokenTree::Whitespace(_) => {},
                            _ => {
                                failed = true;
                                break;
                            },
                        }
                    }
                },
                None => {
                    break;
                },
            }
        }

        if found {
            proof {
                lemma_close_scan(buf@, upc);
            }
            let mut span = lt.span();
            span.spanned_into(gt_span);
            Ok(Element { kind: ElementKind::Close, span, tag_span: tag.span() })
        } else if failed {
            Err(Error::new(iter.span(), "expected `>`"))
        } else {
            Err(Error::new(iter.span(), "unexpected eof"))
        }
    }

    /// The tail of an open element: attributes interleaved with
    /// whitespace, through the terminating `>`.
    fn finish_open(
        iter: &mut Peekable<'_>,
        buf: &[u8],
        lt: TokenTree,
        tag: crate::tokenizer::Ident,
    ) -> (r: Result<Element, Error>)
        requires
            old(iter).wf(),
            old(iter).spec_cap() >= 1,
            buf@ == old(iter).spec_buf(),
            token_wf(buf@, lt),
            old(iter).upcoming().len() > 0 ==> lt.spec_span().offset < old(iter).upcoming()[0].spec_span().offset,
        ensures
            final(iter).wf(),
            final(iter).spec_cap() == old(iter).spec_cap(),
            final(iter).spec_buf() == old(iter).spec_buf(),
            match attrs_scan(buf@, old(iter).upcoming()) {
                GtScan::Found(gt, rest) => r == Ok::<Element, Error>(
                    (Element {
                        kind: ElementKind::Open,
                        span: node_span(lt, gt),
                        tag_span: tag.span,
                    }),
                ) && final(iter).upcoming() == rest,
                GtScan::Failed(m) => r matches Err(e) && e.msg@ == m,
                GtScan::Ended => (r matches Err(e) && e.msg@ == "unexpected eof"@) && final(iter).upcoming().len() == 0,
            },
            r matches Ok(el) ==> el.span.offset + el.span.len <= buf@.len() && 1 <= el.span.len,
    {
        let ghost upo = iter.upcoming();
        let mut found = false;
        let mut failed = false;
        let mut attr_err = Error::new(Span::unknown(), "unexpected eof");

        loop
            invariant_except_break
                iter.wf(),
                iter.spec_cap() == old(iter).spec_cap(),
                iter.spec_cap() >= 1,
                iter.spec_buf() == buf@,
                !found,
                !failed,
                attrs_scan(buf@, upo) == attrs_scan(buf@, iter.upcoming()),
            ensures
                iter.wf(),
                iter.spec_cap() == old(iter).spec_cap(),
                iter.spec_buf() == buf@,
                found ==> iter.upcoming().len() > 0 && attrs_scan(buf@, upo) == GtScan::Found(
                    iter.upcoming()[0],
                    iter.upcoming().skip(1),
                ),
                !found && failed ==> ({
                    ||| (attrs_scan(buf@, upo) matches GtScan::Failed(m) && attr_err.msg@ == m)
                    ||| (attrs_scan(buf@, upo) is Ended && attr_err.msg@ == "unexpected eof"@
                        && iter.upcoming().len() == 0)
                }),
                !found && !failed ==> attrs_scan(buf@, upo) is Ended && iter.upcoming().len()
                    == 0,
            decreases iter.upcoming().len(),
        {
            let ghost upb = iter.upcoming();
            let t0 = match iter.peek() {
                Some(t) => Some(*t),
                None => None,
            };
            match t0 {
                Some(t) => {
                    if punct_is_byte(&t, buf, 62) {
                        found = true;
                        break;
                    } else {
                        match t {
                            TokenTree::Whitespace(_) => {
                                let _ = iter.next().unwrap();
                            },
                            _ => {
                                proof {
                                    lemma_attr_scan(buf@, upb);
                                }
                                let res = Attr::scan(iter, buf);
                                match res {
                                    Ok(_) => {},
                                    Err(e) => {
                                        attr_err = e;
                                        failed = true;
                                        break;
                                    },
                                }
                            },
                        }
                    }
                },
                None => {
                    break;
                },
            }
        }

        if found {
            let gt = iter.next().unwrap();
            let gt_span = gt.span();
            proof {
                lemma_attrs_scan(buf@, upo);
            }
            let mut span = lt.span();
            span.spanned_into(gt_span);
            Ok(Element { kind: ElementKind::Open, span, tag_span: tag.span() })
        } else if failed {
            Err(attr_err)
        } else {
            Err(Error::new(iter.span(), "unexpected eof"))
        }
    }
}

impl Attr {
    /// Consume one attribute: its key, and (after `=`) its quoted value.
    /// A `>` or a second identifier before any `=` means the attribute was
    /// valueless, and the token is left for the element to handle.
    fn scan(iter: &mut Peekable<'_>, buf: &[u8]) -> (r: Result<(), Error>)
        requires
            old(iter).wf(),
            old(iter).spec_cap() >= 1,
            buf@ == old(iter).spec_buf(),
        ensures
            final(iter).wf(),
            final(iter).spec_cap() == old(iter).spec_cap(),
            final(iter).spec_buf() == old(iter).spec_buf(),
            match attr_scan(buf@, old(iter).upcoming()) {
                AttrScan::More(rest) => r is Ok && final(iter).upcoming() == rest,
                AttrScan::Stop(rest) => r is Ok && final(iter).upcoming() == rest,
                AttrScan::Failed(m) => r matches Err(e) && e.msg@ == m,
                AttrScan::Ended => (r matches Err(e) && e.msg@ == "unexpected eof"@) && final(iter).upcoming().len() == 0,
            },
    {
        let ghost up_k = iter.upcoming();
        let mut key_ok = false;
        let mut key_fail = false;

        loop
            invariant_except_break
                iter.wf(),
                iter.spec_cap() == old(iter).spec_cap(),
                iter.spec_cap() >= 1,
                iter.spec_buf() == buf@,
                !key_ok,
                !key_fail,
                attr_key_scan(buf@, up_k) == attr_key_scan(buf@, iter.upcoming()),
            ensures
                iter.wf(),
                iter.spec_cap() == old(iter).spec_cap(),
                iter.spec_buf() == buf@,
                key_ok ==> (attr_key_scan(buf@, up_k) matches AttrScan::More(rest)
                    && iter.upcoming() == rest),
                !key_ok && key_fail ==> attr_key_scan(buf@, up_k) == AttrScan::Failed(
                    "expected an identifier"@,
                ),
                !key_ok && !key_fail ==> attr_key_scan(buf@, up_k) is Ended
                    && iter.upcoming().len() == 0,
            decreases iter.upcoming().len(),
        {
            let nxt = iter.next();
            match nxt {
                Some(t) => {
                    match t {
                        TokenTree::Ident(_) => {
                            key_ok = true;
                            break;
                        },
                        TokenTree::Whitespace(_) => {},
                        TokenTree::Punct(_) => {
                            key_fail = true;
                            break;
                        },
                    }
                },
                None => {
                    break;
                },
            }
        }

        if !key_ok {
            if key_fail {
                Err(Error::new(iter.span(), "expected an identifier"))
            } else {
                Err(Error::new(iter.span(), "unexpected eof"))
            }
        } else {
            let ghost up_e = iter.upcoming();
            let mut has_value = false;
            let mut eq_fail = false;
            let mut eq_end = false;

            loop
                invariant_except_break
                    iter.wf(),
                    iter.spec_cap() == old(iter).spec_cap(),
                    iter.spec_cap() >= 1,
                    iter.spec_buf() == buf@,
                    !has_value,
                    !eq_fail,
                    !eq_end,
                    attr_eq_scan(buf@, up_e) == attr_eq_scan(buf@, iter.upcoming()),
                ensures
                    iter.wf(),
                    iter.spec_cap() == old(iter).spec_cap(),
                    iter.spec_buf() == buf@,
                    has_value ==> (attr_eq_scan(buf@, up_e) matches AttrScan::More(rest)
                        && iter.upcoming() == rest),
                    !has_value && eq_fail ==> attr_eq_scan(buf@, up_e) == AttrScan::Failed(
                        "expected `=` or `>`"@,
                    ),
                    !has_value && !eq_fail && eq_end ==> attr_eq_scan(buf@, up_e) is Ended
                        && iter.upcoming().len() == 0,
                    !has_value && !eq_fail && !eq_end ==> (attr_eq_scan(buf@, up_e) matches
                        AttrScan::Stop(rest) && iter.upcoming() == rest),
                decreases iter.upcoming().len(),
            {
                let t0 = match iter.peek() {
                    Some(t) => Some(*t),
                    None => None,
                };
                match t0 {
                    Some(t) => {
                        match t {
                            TokenTree::Punct(_) => {
                                if punct_is_byte(&t, buf, 61) {
                                    let _ = iter.next().unwrap();
                                    has_value = true;
                                    break;
                                } else if punct_is_byte(&t, buf, 62) {
                                    break;
                                } else {
                                    eq_fail = true;
                                    break;
                                }
                            },
                            TokenTree::Whitespace(_) => {
                                let _ = iter.next().unwrap();
                            },
                            TokenTree::Ident(_) => {
                                break;
                            },
                        }
                    },
                    None => {
                        eq_end = true;
                        break;
                    },
                }
            }

            if !has_value {
                if eq_fail {
                    Err(Error::new(iter.span(), "expected `=` or `>`"))
                } else if eq_end {
                    Err(Error::new(iter.span(), "unexpected eof"))
                } else {
                    Ok(())
                }
            } else {
                let ghost up_q = iter.upcoming();
                let mut quote_ok = false;
                let mut quote_fail = false;

                loop
                    invariant_except_break
                        iter.wf(),
                        iter.spec_cap() == old(iter).spec_cap(),
                        iter.spec_cap() >= 1,
                        iter.spec_buf() == buf@,
                        !quote_ok,
                        !quote_fail,
                        attr_quote_scan(buf@, up_q) == attr_quote_scan(buf@, iter.upcoming()),
                    ensures
                        iter.wf(),
                        iter.spec_cap() == old(iter).spec_cap(),
                        iter.spec_buf() == buf@,
                        quote_ok ==> (attr_quote_scan(buf@, up_q) matches AttrScan::More(rest)
                            && iter.upcoming() == rest),
                        !quote_ok && quote_fail ==> attr_quote_scan(buf@, up_q)
                            == AttrScan::Failed("expected `\"`"@),
                        !quote_ok && !quote_fail ==> attr_quote_scan(buf@, up_q) is Ended
                            && iter.upcoming().len() == 0,
                    decreases iter.upcoming().len(),
                {
                    let t0 = match iter.peek() {
                        Some(t) => Some(*t),
                        None => None,
                    };
                    match t0 {
                        Some(t) => {
                            match t {
                                TokenTree::Punct(_) => {
                                    if punct_is_byte(&t, buf, 34) {
                                        let _ = iter.next().unwrap();
                                        quote_ok = true;
                                        break;
                                    } else {
                                        quote_fail = true;
                                        break;
                                    }
                                },
                                TokenTree::Ident(_) => {
                                    quote_fail = true;
                                    break;
                                },
                                TokenTree::Whitespace(_) => {
                                    let _ = iter.next().unwrap();
                                },
                            }
                        },
                        None => {
                            break;
                        },
                    }
                }

                if !quote_ok {
                    if quote_fail {
                        Err(Error::new(iter.span(), "expected `\"`"))
                    } else {
                        Err(Error::new(iter.span(), "unexpected eof"))
                    }
                } else {
                    let ghost up_v = iter.upcoming();
                    let mut value_ok = false;

                    loop
                        invariant_except_break
                            iter.wf(),
                            iter.spec_cap() == old(iter).spec_cap(),
                            iter.spec_cap() >= 1,
                            iter.spec_buf() == buf@,
                            !value_ok,
                            attr_value_scan(buf@, up_v) == attr_value_scan(buf@, iter.upcoming()),
                        ensures
                            iter.wf(),
                            iter.spec_cap() == old(iter).spec_cap(),
                            iter.spec_buf() == buf@,
                            value_ok ==> (attr_value_scan(buf@, up_v) matches AttrScan::More(rest)
                                && iter.upcoming() == rest),
                            !value_ok ==> attr_value_scan(buf@, up_v) is Ended
                                && iter.upcoming().len() == 0,
                        decreases iter.upcoming().len(),
                    {
                        let nxt = iter.next();
                        match nxt {
                            Some(t) => {
                                if punct_is_byte(&t, buf, 34) {
                                    value_ok = true;
                                    break;
                                }
                            },
                            None => {
                                break;
                            },
                        }
                    }

                    if value_ok {
                        Ok(())
                    } else {
                        Err(Error::new(iter.span(), "unexpected eof"))
                    }
                }
            }
        }
    }
}

impl Text {
    /// Consume a text run: one token unconditionally, then everything up
    /// to (but not including) the next `<` or the end of input.
    fn parse(iter: &mut Peekable<'_>, buf: &[u8]) -> (r: Result<Self, Error>)
        requires
            old(iter).wf(),
            old(iter).spec_cap() >= 1,
            buf@ == old(iter).spec_buf(),
            old(iter).upcoming().len() > 0,
        ensures
            final(iter).wf(),
            final(iter).spec_cap() == old(iter).spec_cap(),
            final(iter).spec_buf() == old(iter).spec_buf(),
            text_outcome(
                buf@,
                old(iter).upcoming(),
                match r {
                    Ok(t) => Ok(SyntaxTree::Text(t)),
                    Err(e) => Err(e),
                },
                final(iter).upcoming(),
            ),
            r matches Ok(t) ==> t.span.offset + t.span.len <= buf@.len() && 1 <= t.span.len,
    {
        let ghost up0 = iter.upcoming();
        let tree = iter.next().unwrap();
        let mut span = tree.span();
        let mut last = span;
        let ghost mut lt = tree;
        proof {
            assert(seq![lt] + iter.upcoming() =~= up0);
        }

        loop
            invariant_except_break
                iter.wf(),
                iter.spec_cap() == old(iter).spec_cap(),
                iter.spec_cap() >= 1,
                iter.spec_buf() == buf@,
                token_wf(buf@, lt),
                last == lt.spec_span(),
                span == up0[0].spec_span(),
                span.offset <= last.offset,
                iter.upcoming().len() > 0 ==> lt.spec_span().offset < iter.upcoming()[0].spec_span().offset,
                text_scan(buf@, up0) == text_scan(buf@, seq![lt] + iter.upcoming()),
            ensures
                iter.wf(),
                iter.spec_cap() == old(iter).spec_cap(),
                iter.spec_buf() == buf@,
                token_wf(buf@, lt),
                last == lt.spec_span(),
                span == up0[0].spec_span(),
                span.offset <= last.offset,
                text_scan(buf@, up0) == (lt, iter.upcoming()),
            decreases iter.upcoming().len(),
        {
            let ghost upb = iter.upcoming();
            let t0 = match iter.peek() {
                Some(t) => Some(*t),
                None => None,
            };
            let stop = match t0 {
                Some(t) => punct_is_byte(&t, buf, 60),
                None => true,
            };
            if stop {
                proof {
                    let m = seq![lt] + upb;
                    if upb.len() == 0 {
                        assert(m.len() == 1);
                        assert(m[0] == lt);
                        assert(m.skip(1) =~= upb);
                    } else {
                        assert(m[1] == upb[0]);
                        assert(m[0] == lt);
                        assert(m.skip(1) =~= upb);
                    }
                }
                break;
            }
            let t = iter.next().unwrap();
            last = t.span();
            proof {
                let m = seq![lt] + upb;
                assert(m[1] == upb[0]);
                assert(m.skip(1) =~= seq![t] + iter.upcoming());
                lt = t;
            }
        }

        proof {
            assert(span.len >= 1);
        }
        let total = last.offset + last.len - span.offset;
        span.len = total;
        Ok(Self { span })
    }
}


/// The syntax-tree builder: repeatedly tries the productions in priority
/// order — comment, doctype, element, text — over a four-token lookahead
/// buffer, and stops cleanly once the token stream is exhausted.
///
/// Parsing is fail-fast: after an error the internal position is no
/// longer guaranteed consistent with any grammar continuation, so a
/// caller must not keep asking for nodes.
#[derive(Debug)]
pub struct Tokenizer<'r> {
    pub buf: &'r [u8],
    pub iter: Peekable<'r>,
}

impl<'r> Tokenizer<'r> {
    /// The lookahead buffer holds four slots over the same buffer that
    /// spans are resolved against.
    pub open spec fn wf(self) -> bool {
        &&& self.iter.wf()
        &&& self.iter.spec_cap() == 4
        &&& self.buf@ == self.iter.spec_buf()
    }

    /// The tokens not yet consumed.
    pub open spec fn upcoming(self) -> Seq<TokenTree> {
        self.iter.upcoming()
    }

    /// Create a syntax-tree builder over a source buffer.
    pub fn new(src: &'r [u8]) -> (r: Self)
        requires
            src@.len() < usize::MAX,
        ensures
            r.wf(),
            r.buf@ == src@,
            r.upcoming() == tokens_from(src@, 0),
    {
        Self { buf: src, iter: crate::tokenizer::Tokenizer::new(src).peekable_tokens(4) }
    }

    /// Produce the next syntax-tree node, dispatching on the peeked
    /// tokens in priority order, or `None` once the stream is exhausted.
    pub fn next(&mut self) -> (r: Option<Result<SyntaxTree, Error>>)
        requires
            old(self).wf(),
        ensures
            final(self).wf(),
            final(self).buf@ == old(self).buf@,
            old(self).upcoming().len() == 0 ==> r == None::<Result<SyntaxTree, Error>>,
            comment_peeked(old(self).buf@, old(self).upcoming()) ==> (r matches Some(res)
                && comment_outcome(
                old(self).buf@,
                old(self).upcoming(),
                res,
                final(self).upcoming(),
            )),
            !comment_peeked(old(self).buf@, old(self).upcoming()) && doctype_peeked(
                old(self).buf@,
                old(self).upcoming(),
            ) ==> (r matches Some(res) && doctype_outcome(
                old(self).buf@,
                old(self).upcoming(),
                res,
                final(self).upcoming(),
            )),
            !comment_peeked(old(self).buf@, old(self).upcoming()) && !doctype_peeked(
                old(self).buf@,
                old(self).upcoming(),
            ) && element_peeked(old(self).buf@, old(self).upcoming()) ==> (r matches Some(res)
                && element_outcome(
                old(self).buf@,
                old(self).upcoming(),
                res,
                final(self).upcoming(),
            )),
            !comment_peeked(old(self).buf@, old(self).upcoming()) && !doctype_peeked(
                old(self).buf@,
                old(self).upcoming(),
            ) && !element_peeked(old(self).buf@, old(self).upcoming()) && old(self).upcoming().len() > 0 ==> (r matches Some(res) && text_outcome(
                old(self).buf@,
                old(self).upcoming(),
                res,
                final(self).upcoming(),
            )),
            (match r {
                Some(Ok(node)) => node.spec_span().offset + node.spec_span().len <= old(self).buf@.len() && 1 <= node.spec_span().len,
                _ => true,
            }),
    {
        let buf = self.buf;
        if Comment::peek(&mut self.iter, buf) {
            match Comment::parse(&mut self.iter, buf) {
                Ok(ok) => Some(Ok(SyntaxTree::Comment(ok))),
                Err(err) => Some(Err(err)),
            }
        } else if DOCTYPE::peek(&mut self.iter, buf) {
            match DOCTYPE::parse(&mut self.iter, buf) {
                Ok(ok) => Some(Ok(SyntaxTree::DOCTYPE(ok))),
                Err(err) => Some(Err(err)),
            }
        } else if Element::peek(&mut self.iter, buf) {
            match Element::parse(&mut self.iter, buf) {
                Ok(ok) => Some(Ok(SyntaxTree::Element(ok))),
                Err(err) => Some(Err(err)),
            }
        } else {
            let more = match self.iter.peek() {
                Some(_) => true,
                None => false,
            };
            if more {
                match Text::parse(&mut self.iter, buf) {
                    Ok(ok) => Some(Ok(SyntaxTree::Text(ok))),
                    Err(err) => Some(Err(err)),
                }
            } else {
                None
            }
        }
    }
}

impl Spanned for Comment {
    open spec fn spec_span(&self) -> Span {
        self.span
    }

    fn span(&self) -> (r: Span) {
        self.span
    }
}

impl Spanned for DOCTYPE {
    open spec fn spec_span(&self) -> Span {
        self.span
    }

    fn span(&self) -> (r: Span) {
        self.span
    }
}

impl Spanned for Element {
    open spec fn spec_span(&self) -> Span {
        self.span
    }

    fn span(&self) -> (r: Span) {
        self.span
    }
}

impl Spanned for Text {
    open spec fn spec_span(&self) -> Span {
        self.span
    }

    fn span(&self) -> (r: Span) {
        self.span
    }
}

impl Spanned for SyntaxTree {
    open spec fn spec_span(&self) -> Span {
        match self {
            SyntaxTree::Comment(comment) => comment.span,
            SyntaxTree::DOCTYPE(doctype) => doctype.span,
            SyntaxTree::Element(element) => element.span,
            SyntaxTree::Text(text) => text.span,
        }
    }

    fn span(&self) -> (r: Span) {
        match self {
            SyntaxTree::Comment(comment) => comment.span(),
            SyntaxTree::DOCTYPE(doctype) => doctype.span(),
            SyntaxTree::Element(element) => element.span(),
            SyntaxTree::Text(text) => text.span(),
        }
    }
}

} // verus!
