//! A tokenizer: classifies a byte buffer into a stream of [`TokenTree`]
//! values — identifier runs, whitespace runs, and single-byte punctuation —
//! with a bounded lookahead buffer ([`Peekable`]) over the stream.

use vstd::prelude::*;
use vstd::slice::slice_subrange;
use crate::ascii::{
    is_ws_byte, is_ident_byte, whitespace_byte, ident_byte, line_after, col_after, ws_run_end,
    ident_run_end, lemma_ws_run_end, lemma_ident_run_end, lemma_line_col_bounds,
};

verus! {

/// A descriptor of a byte range in the source buffer: start offset,
/// length, and the 1-based line/column of the start byte.
#[derive(Debug, Clone, Copy, PartialEq, Eq, Structural)]
pub struct Span {
    pub offset: usize,
    pub len: usize,
    pub line: usize,
    pub col: usize,
}

impl Span {
    /// Create a new span.
    pub fn new(offset: usize, len: usize, line: usize, col: usize) -> (r: Self)
        ensures
            r == (Span { offset, len, line, col }),
    {
        Self { offset, len, line, col }
    }

    /// Extend this span so that it ends at the start byte of the provided
    /// span.
    pub fn spanned_into(&mut self, span: Span)
        requires
            old(self).offset <= span.offset,
            span.offset < usize::MAX,
        ensures
            *final(self) == (Span {
                offset: old(self).offset,
                len: (span.offset - old(self).offset + 1) as usize,
                line: old(self).line,
                col: old(self).col,
            }),
    {
        self.len = span.offset - self.offset + 1;
    }

    /// The (line, column) of the span's start byte.
    pub fn line_col(&self) -> (r: (usize, usize))
        ensures
            r.0 == self.line,
            r.1 == self.col,
    {
        (self.line, self.col)
    }

    /// Is this span the "unknown" sentinel, with every field zero?
    pub fn is_unknown(&self) -> (r: bool)
        ensures
            r == (self.offset == 0 && self.len == 0 && self.line == 0 && self.col == 0),
    {
        self.offset == 0 && self.len == 0 && self.line == 0 && self.col == 0
    }

    /// Create the "unknown" sentinel span, with every field zero.
    pub fn unknown() -> (r: Self)
        ensures
            r == (Span { offset: 0usize, len: 0usize, line: 0usize, col: 0usize }),
    {
        Self { offset: 0, len: 0, line: 0, col: 0 }
    }
}

/// A helper trait for everything that carries a [`Span`].
pub trait Spanned {
    /// The span this object stands for.
    spec fn spec_span(&self) -> Span;

    /// Return this object's span.
    fn span(&self) -> (r: Span)
        ensures
            r == self.spec_span(),
    ;

    /// Evaluate the actual bytes from the source buffer via the span.
    fn evaluate<'r>(&self, buf: &'r [u8]) -> (r: &'r [u8])
        requires
            self.spec_span().offset + self.spec_span().len <= buf@.len(),
        ensures
            r@ == buf@.subrange(
                self.spec_span().offset as int,
                self.spec_span().offset + self.spec_span().len,
            ),
    {
        let span = self.span();
        let n = buf.len();
        slice_subrange(buf, span.offset, span.offset + span.len)
    }
}

/// A single token: one classified maximal run of bytes.
#[derive(Debug, Clone, Copy, PartialEq, Eq, Structural)]
pub enum TokenTree {
    Ident(Ident),
    Punct(Punct),
    Whitespace(Whitespace),
}

/// A word of letters, digits and underscores.
///
/// Note that an identifier may start with a digit: this layer is lexical,
/// not semantic.
#[derive(Debug, Clone, Copy, PartialEq, Eq, Structural)]
pub struct Ident {
    pub span: Span,
}

/// A punctuation byte: anything that is neither an identifier byte nor
/// whitespace. Always exactly one byte.
#[derive(Debug, Clone, Copy, PartialEq, Eq, Structural)]
pub struct Punct {
    pub span: Span,
}

/// A maximal run of ASCII whitespace bytes.
#[derive(Debug, Clone, Copy, PartialEq, Eq, Structural)]
pub struct Whitespace {
    pub span: Span,
}

impl Spanned for Ident {
    open spec fn spec_span(&self) -> Span {
        self.span
    }

    fn span(&self) -> (r: Span) {
        self.span
    }
}

impl Spanned for Punct {
    open spec fn spec_span(&self) -> Span {
        self.span
    }

    fn span(&self) -> (r: Span) {
        self.span
    }
}

impl Spanned for Whitespace {
    open spec fn spec_span(&self) -> Span {
        self.span
    }

    fn span(&self) -> (r: Span) {
        self.span
    }
}

impl Spanned for TokenTree {
    open spec fn spec_span(&self) -> Span {
        match self {
            TokenTree::Ident(ident) => ident.span,
            TokenTree::Punct(punct) => punct.span,
            TokenTree::Whitespace(whitespace) => whitespace.span,
        }
    }

    fn span(&self) -> (r: Span) {
        match self {
            TokenTree::Ident(ident) => ident.span(),
            TokenTree::Punct(punct) => punct.span(),
            TokenTree::Whitespace(whitespace) => whitespace.span(),
        }
    }
}

/// The line counter of the byte at position `i`, counting from line 1.
pub open spec fn line_at(buf: Seq<u8>, i: int) -> int {
    line_after(buf, 0, i, 1)
}

/// The column counter of the byte at position `i`, counting from column 1.
pub open spec fn col_at(buf: Seq<u8>, i: int) -> int {
    col_after(buf, 0, i, 1)
}

/// The span of the single byte at position `i`.
pub open spec fn byte_span(buf: Seq<u8>, i: int) -> Span {
    Span {
        offset: i as usize,
        len: 1,
        line: line_at(buf, i) as usize,
        col: col_at(buf, i) as usize,
    }
}

/// Where the token whose first byte sits at `i` ends: a whitespace or
/// identifier run extends greedily over its class, punctuation is always
/// one byte. The first byte decides the whole run's class.
pub open spec fn token_end(buf: Seq<u8>, i: int) -> int {
    if is_ws_byte(buf[i]) {
        ws_run_end(buf, i + 1)
    } else if is_ident_byte(buf[i]) {
        ident_run_end(buf, i + 1)
    } else {
        i + 1
    }
}

/// The token whose first byte sits at `i`.
pub open spec fn token_at(buf: Seq<u8>, i: int) -> TokenTree {
    let span = Span {
        offset: i as usize,
        len: (token_end(buf, i) - i) as usize,
        line: line_at(buf, i) as usize,
        col: col_at(buf, i) as usize,
    };
    if is_ws_byte(buf[i]) {
        TokenTree::Whitespace(Whitespace { span })
    } else if is_ident_byte(buf[i]) {
        TokenTree::Ident(Ident { span })
    } else {
        TokenTree::Punct(Punct { span })
    }
}

/// A token's end lies strictly past its start and within the buffer.
pub proof fn lemma_token_end(buf: Seq<u8>, i: int)
    requires
        0 <= i < buf.len(),
    ensures
        i < token_end(buf, i) <= buf.len(),
{
    if is_ws_byte(buf[i]) {
        lemma_ws_run_end(buf, i + 1);
    } else if is_ident_byte(buf[i]) {
        lemma_ident_run_end(buf, i + 1);
    }
}

/// The full token stream of the buffer from position `i` to its end.
pub open spec fn tokens_from(buf: Seq<u8>, i: int) -> Seq<TokenTree>
    decreases buf.len() - i,
        via tokens_from_decreases
{
    if i < 0 || i >= buf.len() {
        Seq::empty()
    } else {
        seq![token_at(buf, i)] + tokens_from(buf, token_end(buf, i))
    }
}

#[via_fn]
proof fn tokens_from_decreases(buf: Seq<u8>, i: int) {
    if 0 <= i < buf.len() {
        lemma_token_end(buf, i);
    }
}

/// What every token of a stream satisfies: a non-empty span inside the
/// buffer, one byte exactly for punctuation, and a first byte matching the
/// token's class.
pub open spec fn token_wf(buf: Seq<u8>, t: TokenTree) -> bool {
    let span = t.spec_span();
    &&& 1 <= span.len
    &&& span.offset + span.len <= buf.len()
    &&& (t is Punct ==> span.len == 1 && !is_ws_byte(buf[span.offset as int]) && !is_ident_byte(
        buf[span.offset as int],
    ))
    &&& (t is Ident ==> is_ident_byte(buf[span.offset as int]))
    &&& (t is Whitespace ==> is_ws_byte(buf[span.offset as int]))
}

/// Every token of a stream is well formed: no span ever points outside
/// the buffer.
pub proof fn lemma_tokens_wf(buf: Seq<u8>, i: int)
    requires
        0 <= i <= buf.len(),
        buf.len() < usize::MAX,
    ensures
        forall|k: int|
            0 <= k < tokens_from(buf, i).len() ==> token_wf(
                buf,
                #[trigger] tokens_from(buf, i)[k],
            ),
    decreases buf.len() - i,
{
    if i < buf.len() {
        lemma_token_end(buf, i);
        lemma_tokens_wf(buf, token_end(buf, i));
        assert(token_wf(buf, token_at(buf, i)));
        assert forall|k: int| 0 <= k < tokens_from(buf, i).len() implies token_wf(
            buf,
            #[trigger] tokens_from(buf, i)[k],
        ) by {
            if k > 0 {
                assert(tokens_from(buf, i)[k] == tokens_from(buf, token_end(buf, i))[k - 1]);
            }
        }
    }
}

/// A well-formed token stream: every token is well formed and token
/// offsets strictly increase along the stream.
pub open spec fn stream_wf(buf: Seq<u8>, toks: Seq<TokenTree>) -> bool {
    &&& (forall|k: int| 0 <= k < toks.len() ==> token_wf(buf, #[trigger] toks[k]))
    &&& (forall|a: int, b: int|
        0 <= a < b < toks.len() ==> (#[trigger] toks[a]).spec_span().offset < (
        #[trigger] toks[b]).spec_span().offset)
}

/// Token offsets along a stream start at its start position and strictly
/// increase.
pub proof fn lemma_tokens_ordered(buf: Seq<u8>, i: int)
    requires
        0 <= i <= buf.len(),
        buf.len() < usize::MAX,
    ensures
        forall|k: int|
            0 <= k < tokens_from(buf, i).len() ==> i <= (#[trigger] tokens_from(
                buf,
                i,
            )[k]).spec_span().offset,
        forall|a: int, b: int|
            0 <= a < b < tokens_from(buf, i).len() ==> (#[trigger] tokens_from(
                buf,
                i,
            )[a]).spec_span().offset < (#[trigger] tokens_from(buf, i)[b]).spec_span().offset,
    decreases buf.len() - i,
{
    if i < buf.len() {
        lemma_token_end(buf, i);
        let e = token_end(buf, i);
        lemma_tokens_ordered(buf, e);
        let toks = tokens_from(buf, i);
        let tail = tokens_from(buf, e);
        assert forall|k: int| 0 <= k < toks.len() implies i <= (
        #[trigger] toks[k]).spec_span().offset by {
            if k > 0 {
                assert(toks[k] == tail[k - 1]);
            }
        }
        assert forall|a: int, b: int| 0 <= a < b < toks.len() implies (
        #[trigger] toks[a]).spec_span().offset < (#[trigger] toks[b]).spec_span().offset by {
            assert(toks[b] == tail[b - 1]);
            if a > 0 {
                assert(toks[a] == tail[a - 1]);
            }
        }
    }
}

/// The whole token stream of a buffer is well formed.
pub proof fn lemma_stream_wf(buf: Seq<u8>, i: int)
    requires
        0 <= i <= buf.len(),
        buf.len() < usize::MAX,
    ensures
        stream_wf(buf, tokens_from(buf, i)),
{
    lemma_tokens_wf(buf, i);
    lemma_tokens_ordered(buf, i);
}

/// Dropping the first token of a well-formed stream leaves it well
/// formed.
pub proof fn lemma_stream_wf_skip1(buf: Seq<u8>, toks: Seq<TokenTree>)
    requires
        stream_wf(buf, toks),
        toks.len() > 0,
    ensures
        stream_wf(buf, toks.skip(1)),
{
    let t2 = toks.skip(1);
    assert forall|k: int| 0 <= k < t2.len() implies token_wf(buf, #[trigger] t2[k]) by {
        assert(t2[k] == toks[k + 1]);
    }
    assert forall|a: int, b: int| 0 <= a < b < t2.len() implies (
    #[trigger] t2[a]).spec_span().offset < (#[trigger] t2[b]).spec_span().offset by {
        assert(t2[a] == toks[a + 1]);
        assert(t2[b] == toks[b + 1]);
    }
}

/// Dropping any number of leading tokens of a well-formed stream leaves
/// it well formed.
pub proof fn lemma_stream_wf_skip(buf: Seq<u8>, toks: Seq<TokenTree>, n: int)
    requires
        stream_wf(buf, toks),
        0 <= n <= toks.len(),
    ensures
        stream_wf(buf, toks.skip(n)),
{
    let t2 = toks.skip(n);
    assert forall|k: int| 0 <= k < t2.len() implies token_wf(buf, #[trigger] t2[k]) by {
        assert(t2[k] == toks[k + n]);
    }
    assert forall|a: int, b: int| 0 <= a < b < t2.len() implies (
    #[trigger] t2[a]).spec_span().offset < (#[trigger] t2[b]).spec_span().offset by {
        assert(t2[a] == toks[a + n]);
        assert(t2[b] == toks[b + n]);
    }
}

/// Helper to quickly tokenize a whole source buffer.
///
/// For more control, use [`Tokenizer`].
pub fn tokenize(src: &[u8]) -> (r: Vec<TokenTree>)
    requires
        src@.len() < usize::MAX,
    ensures
        r@ == tokens_from(src@, 0),
{
    let mut tokens: Vec<TokenTree> = Vec::new();
    let mut tokenizer = Tokenizer::new(src);
    loop
        invariant_except_break
            tokenizer.wf(),
            tokenizer.iter.buf@ == src@,
            tokens_from(src@, 0) == tokens@ + tokenizer.remaining(),
        ensures
            tokens@ == tokens_from(src@, 0),
        decreases tokenizer.iter.buf@.len() - tokenizer.iter.offset,
    {
        let ghost rem = tokenizer.remaining();
        match tokenizer.next() {
            Some(tree) => {
                proof {
                    assert(rem =~= seq![rem[0]] + rem.skip(1));
                }
                tokens.push(tree);
            }
            None => {
                proof {
                    assert(tokens_from(src@, 0) =~= tokens@);
                }
                break;
            }
        }
    }
    tokens
}

/// Iterator that tracks a [`Span`] and yields one byte of the source
/// buffer at a time.
#[derive(Debug)]
pub struct BufIter<'b> {
    pub buf: &'b [u8],
    pub last_span: Span,
    pub offset: usize,
    pub line: usize,
    pub col: usize,
}

impl<'b> BufIter<'b> {
    /// The position is inside the buffer, the line/column counters track
    /// exactly the lines and columns of the consumed prefix, and the last
    /// captured span is the span of the byte most recently consumed.
    pub open spec fn wf(self) -> bool {
        &&& self.offset <= self.buf@.len()
        &&& self.buf@.len() < usize::MAX
        &&& self.line == line_at(self.buf@, self.offset as int)
        &&& self.col == col_at(self.buf@, self.offset as int)
        &&& self.last_span == (if self.offset == 0 {
            Span { offset: 0usize, len: 1usize, line: 1usize, col: 1usize }
        } else {
            byte_span(self.buf@, self.offset - 1)
        })
    }

    /// Create a new [`BufIter`] over a source buffer.
    pub fn new(buf: &'b [u8]) -> (r: Self)
        requires
            buf@.len() < usize::MAX,
        ensures
            r.buf@ == buf@,
            r.offset == 0,
            r.wf(),
    {
        Self {
            buf,
            last_span: Span::new(0, 1, 1, 1),
            offset: 0,
            line: 1,
            col: 1,
        }
    }

    /// Peek the next byte without consuming it.
    pub fn peek(&self) -> (r: Option<u8>)
        requires
            self.wf(),
        ensures
            match r {
                Some(b) => self.offset < self.buf@.len() && b == self.buf@[self.offset as int],
                None => self.offset == self.buf@.len(),
            },
    {
        if self.offset < self.buf.len() {
            Some(self.buf[self.offset])
        } else {
            None
        }
    }

    /// Consume one byte, returning it together with its span.
    pub fn next(&mut self) -> (r: Option<(Span, u8)>)
        requires
            old(self).wf(),
        ensures
            final(self).wf(),
            final(self).buf@ == old(self).buf@,
            old(self).offset == old(self).buf@.len() ==> r == None::<(Span, u8)> && *final(self)
                == *old(self),
            old(self).offset < old(self).buf@.len() ==> ({
                &&& r == Some(
                    (
                        byte_span(old(self).buf@, old(self).offset as int),
                        old(self).buf@[old(self).offset as int],
                    ),
                )
                &&& final(self).offset == old(self).offset + 1
                &&& final(self).last_span == byte_span(old(self).buf@, old(self).offset as int)
            }),
    {
        if self.offset >= self.buf.len() {
            return None;
        }
        proof {
            lemma_line_col_bounds(self.buf@, 0, self.offset as int, 1, 1);
        }
        let byte = self.buf[self.offset];
        self.last_span = Span::new(self.offset, 1, self.line, self.col);

        self.offset = self.offset + 1;

        if byte == 10u8 {
            self.line = self.line + 1;
            self.col = 1;
        } else {
            self.col = self.col + 1;
        }

        Some((self.last_span, byte))
    }
}

impl<'b> Spanned for BufIter<'b> {
    open spec fn spec_span(&self) -> Span {
        self.last_span
    }

    fn span(&self) -> (r: Span) {
        self.last_span
    }
}

impl Ident {
    /// Is this byte qualified to appear in an identifier?
    #[inline]
    fn peek(byte: &u8) -> (r: bool)
        ensures
            r == is_ident_byte(*byte),
    {
        ident_byte(*byte)
    }

    /// Consume the identifier run that starts at the iterator's position.
    fn parse(iter: &mut BufIter<'_>) -> (r: Self)
        requires
            old(iter).wf(),
            old(iter).offset < old(iter).buf@.len(),
            is_ident_byte(old(iter).buf@[old(iter).offset as int]),
        ensures
            final(iter).wf(),
            final(iter).buf@ == old(iter).buf@,
            final(iter).offset == ident_run_end(old(iter).buf@, old(iter).offset + 1),
            r.span == (Span {
                offset: old(iter).offset,
                len: (ident_run_end(old(iter).buf@, old(iter).offset + 1) - old(
                    iter,
                ).offset) as usize,
                line: line_at(old(iter).buf@, old(iter).offset as int) as usize,
                col: col_at(old(iter).buf@, old(iter).offset as int) as usize,
            }),
    {
        let ghost pre = *iter;
        let (mut span, _byte) = iter.next().unwrap();

        loop
            invariant_except_break
                iter.wf(),
                iter.buf@ == pre.buf@,
                pre.offset < iter.offset,
                ident_run_end(iter.buf@, iter.offset as int) == ident_run_end(
                    pre.buf@,
                    pre.offset + 1,
                ),
                span == (Span {
                    offset: pre.offset,
                    len: (iter.offset - pre.offset) as usize,
                    line: line_at(pre.buf@, pre.offset as int) as usize,
                    col: col_at(pre.buf@, pre.offset as int) as usize,
                }),
            ensures
                iter.wf(),
                iter.buf@ == pre.buf@,
                iter.offset == ident_run_end(pre.buf@, pre.offset + 1),
                span == (Span {
                    offset: pre.offset,
                    len: (iter.offset - pre.offset) as usize,
                    line: line_at(pre.buf@, pre.offset as int) as usize,
                    col: col_at(pre.buf@, pre.offset as int) as usize,
                }),
            decreases iter.buf@.len() - iter.offset,
        {
            match iter.peek() {
                Some(byte) => {
                    if Self::peek(&byte) {
                        let (end_span, _) = iter.next().unwrap();
                        span.spanned_into(end_span);
                    } else {
                        break;
                    }
                }
                None => {
                    break;
                }
            }
        }

        Self { span }
    }
}

impl Punct {
    /// Consume the single punctuation byte at the iterator's position.
    fn parse(iter: &mut BufIter<'_>) -> (r: Self)
        requires
            old(iter).wf(),
            old(iter).offset < old(iter).buf@.len(),
        ensures
            final(iter).wf(),
            final(iter).buf@ == old(iter).buf@,
            final(iter).offset == old(iter).offset + 1,
            r.span == byte_span(old(iter).buf@, old(iter).offset as int),
    {
        let (span, _byte) = iter.next().unwrap();
        Self { span }
    }
}

impl Whitespace {
    /// Is this byte ASCII whitespace?
    #[inline]
    fn peek(byte: &u8) -> (r: bool)
        ensures
            r == is_ws_byte(*byte),
    {
        whitespace_byte(*byte)
    }

    /// Consume the whitespace run that starts at the iterator's position.
    fn parse(iter: &mut BufIter<'_>) -> (r: Self)
        requires
            old(iter).wf(),
            old(iter).offset < old(iter).buf@.len(),
            is_ws_byte(old(iter).buf@[old(iter).offset as int]),
        ensures
            final(iter).wf(),
            final(iter).buf@ == old(iter).buf@,
            final(iter).offset == ws_run_end(old(iter).buf@, old(iter).offset + 1),
            r.span == (Span {
                offset: old(iter).offset,
                len: (ws_run_end(old(iter).buf@, old(iter).offset + 1) - old(iter).offset) as usize,
                line: line_at(old(iter).buf@, old(iter).offset as int) as usize,
                col: col_at(old(iter).buf@, old(iter).offset as int) as usize,
            }),
    {
        let ghost pre = *iter;
        let (mut span, _byte) = iter.next().unwrap();

        loop
            invariant_except_break
                iter.wf(),
                iter.buf@ == pre.buf@,
                pre.offset < iter.offset,
                ws_run_end(iter.buf@, iter.offset as int) == ws_run_end(pre.buf@, pre.offset + 1),
                span == (Span {
                    offset: pre.offset,
                    len: (iter.offset - pre.offset) as usize,
                    line: line_at(pre.buf@, pre.offset as int) as usize,
                    col: col_at(pre.buf@, pre.offset as int) as usize,
                }),
            ensures
                iter.wf(),
                iter.buf@ == pre.buf@,
                iter.offset == ws_run_end(pre.buf@, pre.offset + 1),
                span == (Span {
                    offset: pre.offset,
                    len: (iter.offset - pre.offset) as usize,
                    line: line_at(pre.buf@, pre.offset as int) as usize,
                    col: col_at(pre.buf@, pre.offset as int) as usize,
                }),
            decreases iter.buf@.len() - iter.offset,
        {
            match iter.peek() {
                Some(byte) => {
                    if Self::peek(&byte) {
                        let (end_span, _) = iter.next().unwrap();
                        span.spanned_into(end_span);
                    } else {
                        break;
                    }
                }
                None => {
                    break;
                }
            }
        }

        Self { span }
    }
}

/// Iterator that yields [`TokenTree`] values, one classified run at a
/// time.
#[derive(Debug)]
pub struct Tokenizer<'r> {
    pub iter: BufIter<'r>,
}

impl<'r> Tokenizer<'r> {
    /// The underlying byte iterator is well formed.
    pub open spec fn wf(self) -> bool {
        self.iter.wf()
    }

    /// The tokens not yet consumed.
    pub open spec fn remaining(self) -> Seq<TokenTree> {
        tokens_from(self.iter.buf@, self.iter.offset as int)
    }

    /// Create a new tokenizer over a source buffer.
    pub fn new(buf: &'r [u8]) -> (r: Self)
        requires
            buf@.len() < usize::MAX,
        ensures
            r.wf(),
            r.iter.buf@ == buf@,
            r.iter.offset == 0,
            r.remaining() == tokens_from(buf@, 0),
    {
        Self { iter: BufIter::new(buf) }
    }

    /// Wrap this tokenizer in a lookahead buffer of the given capacity.
    pub fn peekable_tokens(self, cap: usize) -> (r: Peekable<'r>)
        requires
            self.wf(),
        ensures
            r.wf(),
            r.spec_cap() == cap,
            r.spec_buf() == self.iter.buf@,
            r.upcoming() == self.remaining(),
            r.iter == self,
            r.peeked@.len() == cap,
            forall|k: int| 0 <= k < cap ==> r.peeked@[k] is None,
    {
        Peekable::new(self, cap)
    }

    /// Consume and classify the next token: the class of the first
    /// remaining byte decides, and the whole maximal run of that class is
    /// consumed.
    pub fn next(&mut self) -> (r: Option<TokenTree>)
        requires
            old(self).wf(),
        ensures
            final(self).wf(),
            final(self).iter.buf@ == old(self).iter.buf@,
            old(self).iter.offset == old(self).iter.buf@.len() ==> r == None::<TokenTree>
                && *final(self) == *old(self),
            old(self).iter.offset < old(self).iter.buf@.len() ==> ({
                &&& r == Some(token_at(old(self).iter.buf@, old(self).iter.offset as int))
                &&& final(self).iter.offset == token_end(
                    old(self).iter.buf@,
                    old(self).iter.offset as int,
                )
                &&& old(self).iter.offset < final(self).iter.offset
                &&& final(self).remaining() == old(self).remaining().skip(1)
            }),
    {
        let ghost pre = *self;
        // the tokenizer itself does not advance the iterator: the token
        // parsers do
        match self.iter.peek() {
            Some(byte) => {
                let tree = if whitespace_byte(byte) {
                    TokenTree::Whitespace(Whitespace::parse(&mut self.iter))
                } else if ident_byte(byte) {
                    TokenTree::Ident(Ident::parse(&mut self.iter))
                } else {
                    TokenTree::Punct(Punct::parse(&mut self.iter))
                };
                proof {
                    lemma_token_end(pre.iter.buf@, pre.iter.offset as int);
                    assert(pre.remaining() =~= seq![
                        token_at(pre.iter.buf@, pre.iter.offset as int),
                    ] + tokens_from(
                        pre.iter.buf@,
                        token_end(pre.iter.buf@, pre.iter.offset as int),
                    ));
                    assert(self.remaining() =~= pre.remaining().skip(1));
                }
                Some(tree)
            }
            None => None,
        }
    }
}

impl<'r> Spanned for Tokenizer<'r> {
    open spec fn spec_span(&self) -> Span {
        self.iter.last_span
    }

    fn span(&self) -> (r: Span) {
        self.iter.span()
    }
}

/// The tokens held by the leading `Some` slots of a lookahead buffer, in
/// order.
pub open spec fn buffered_prefix(s: Seq<Option<TokenTree>>) -> Seq<TokenTree>
    decreases s.len(),
{
    if s.len() == 0 {
        Seq::empty()
    } else {
        match s[0] {
            Some(t) => seq![t] + buffered_prefix(s.skip(1)),
            None => Seq::empty(),
        }
    }
}

/// The filled slots of a lookahead buffer form a prefix: a `Some` never
/// follows a `None`.
pub open spec fn slots_prefixed(s: Seq<Option<TokenTree>>) -> bool {
    forall|i: int, j: int| 0 <= i < j < s.len() && s[j] is Some ==> s[i] is Some
}

/// What `buffered_prefix` delivers under `slots_prefixed`: its elements
/// are exactly the leading filled slots, and everything past them is
/// empty.
pub proof fn lemma_buffered_prefix(s: Seq<Option<TokenTree>>)
    requires
        slots_prefixed(s),
    ensures
        buffered_prefix(s).len() <= s.len(),
        forall|k: int|
            0 <= k < buffered_prefix(s).len() ==> s[k] == Some(#[trigger] buffered_prefix(s)[k]),
        forall|k: int| buffered_prefix(s).len() <= k < s.len() ==> s[k] is None,
    decreases s.len(),
{
    if s.len() > 0 {
        match s[0] {
            Some(t) => {
                assert(slots_prefixed(s.skip(1))) by {
                    assert(forall|i: int, j: int|
                        0 <= i < j < s.skip(1).len() && s.skip(1)[j] is Some ==> s[j + 1]
                            is Some && s[i + 1] == s.skip(1)[i]);
                }
                lemma_buffered_prefix(s.skip(1));
                assert(buffered_prefix(s) == seq![t] + buffered_prefix(s.skip(1)));
                assert forall|k: int| 0 <= k < buffered_prefix(s).len() implies s[k] == Some(
                    #[trigger] buffered_prefix(s)[k],
                ) by {
                    if k > 0 {
                        assert(s[k] == s.skip(1)[k - 1]);
                        assert(buffered_prefix(s)[k] == buffered_prefix(s.skip(1))[k - 1]);
                    }
                }
                assert forall|k: int|
                    buffered_prefix(s).len() <= k < s.len() implies s[k] is None by {
                    assert(s[k] == s.skip(1)[k - 1]);
                }
            }
            None => {
                assert(forall|k: int| 0 < k < s.len() ==> s[k] is None);
            }
        }
    }
}

/// Setting the first empty slot appends one token to the buffered prefix.
proof fn lemma_buffered_prefix_fill(s: Seq<Option<TokenTree>>, i: int, t: TokenTree)
    requires
        0 <= i < s.len(),
        slots_prefixed(s),
        forall|k: int| 0 <= k < i ==> s[k] is Some,
        s[i] is None,
    ensures
        buffered_prefix(s.update(i, Some(t))) == buffered_prefix(s) + seq![t],
    decreases i,
{
    let s2 = s.update(i, Some(t));
    if i == 0 {
        assert(buffered_prefix(s) =~= Seq::<TokenTree>::empty());
        assert(s2[0] == Some(t));
        assert(buffered_prefix(s2.skip(1)) =~= Seq::<TokenTree>::empty()) by {
            if s2.skip(1).len() > 0 {
                assert(s2.skip(1)[0] == s[1]);
                assert(s[1] is None);
            }
        }
        assert(buffered_prefix(s2) =~= buffered_prefix(s) + seq![t]);
    } else {
        assert(slots_prefixed(s.skip(1))) by {
            assert(forall|a: int, b: int|
                0 <= a < b < s.skip(1).len() && s.skip(1)[b] is Some ==> s[b + 1] is Some && s[a
                    + 1] == s.skip(1)[a]);
        }
        lemma_buffered_prefix_fill(s.skip(1), i - 1, t);
        assert(s2.skip(1) =~= s.skip(1).update(i - 1, Some(t)));
        assert(s2[0] == s[0]);
        assert(s[0] is Some);
        assert(buffered_prefix(s2) =~= buffered_prefix(s) + seq![t]);
    }
}

/// Appending an empty slot at the end leaves the buffered prefix as it
/// is.
proof fn lemma_buffered_prefix_push_none(s: Seq<Option<TokenTree>>)
    ensures
        buffered_prefix(s.push(None)) == buffered_prefix(s),
    decreases s.len(),
{
    if s.len() == 0 {
        assert(s.push(None)[0] is None);
        assert(buffered_prefix(s.push(None)) =~= buffered_prefix(s));
    } else {
        lemma_buffered_prefix_push_none(s.skip(1));
        assert(s.push(None).skip(1) =~= s.skip(1).push(None));
        assert(buffered_prefix(s.push(None)) =~= buffered_prefix(s));
    }
}

/// A bounded lookahead buffer over a [`Tokenizer`]: up to its capacity of
/// not-yet-consumed tokens can be inspected before committing to consume
/// any. Consuming shifts the buffered slots down by one, so the drained
/// order is exactly the tokenizer's own order.
#[derive(Debug)]
pub struct Peekable<'r> {
    pub iter: Tokenizer<'r>,
    pub peeked: Vec<Option<TokenTree>>,
}

impl<'r> Peekable<'r> {
    /// The lookahead capacity: the fixed number of peek slots.
    pub open spec fn spec_cap(self) -> int {
        self.peeked@.len() as int
    }

    /// The source buffer under the token stream.
    pub open spec fn spec_buf(self) -> Seq<u8> {
        self.iter.iter.buf@
    }

    /// The tokens not yet consumed, buffered ones first.
    pub open spec fn upcoming(self) -> Seq<TokenTree> {
        buffered_prefix(self.peeked@) + self.iter.remaining()
    }

    /// The underlying tokenizer is well formed and the filled slots form
    /// a prefix.
    pub open spec fn wf(self) -> bool {
        &&& self.iter.wf()
        &&& slots_prefixed(self.peeked@)
        &&& stream_wf(self.spec_buf(), self.upcoming())
    }

    /// Create a lookahead buffer of the given capacity, with every slot
    /// empty.
    fn new(iter: Tokenizer<'r>, cap: usize) -> (r: Self)
        requires
            iter.wf(),
        ensures
            r.wf(),
            r.spec_cap() == cap,
            r.spec_buf() == iter.iter.buf@,
            r.upcoming() == iter.remaining(),
            r.iter == iter,
            r.peeked@.len() == cap,
            forall|k: int| 0 <= k < cap ==> r.peeked@[k] is None,
    {
        let mut peeked: Vec<Option<TokenTree>> = Vec::new();
        let mut k: usize = 0;
        while k < cap
            invariant
                k <= cap,
                peeked@.len() == k,
                forall|j: int| 0 <= j < k ==> peeked@[j] is None,
            decreases cap - k,
        {
            peeked.push(None);
            k = k + 1;
        }
        let r = Self { iter, peeked };
        proof {
            if cap > 0 {
                assert(r.peeked@[0] is None);
            }
            assert(buffered_prefix(r.peeked@) =~= Seq::<TokenTree>::empty());
            assert(r.upcoming() =~= iter.remaining());
            lemma_stream_wf(iter.iter.buf@, iter.iter.offset as int);
        }
        r
    }

    /// Peek `n` tokens forward without consuming any, filling the buffer
    /// lazily up to and including slot `n`.
    ///
    /// This is 0-indexed, so `peek_n(0)` peeks at the very next token.
    /// `n` must lie below the capacity.
    pub fn peek_n(&mut self, n: usize) -> (r: Option<&TokenTree>)
        requires
            old(self).wf(),
            n < old(self).spec_cap(),
        ensures
            final(self).wf(),
            final(self).spec_cap() == old(self).spec_cap(),
            final(self).spec_buf() == old(self).spec_buf(),
            final(self).upcoming() == old(self).upcoming(),
            match r {
                Some(t) => n < old(self).upcoming().len() && *t == old(self).upcoming()[n as int],
                None => old(self).upcoming().len() <= n,
            },
    {
        let ghost orig = *self;
        let cap = self.peeked.len();
        let mut i: usize = 0;
        let mut exhausted = false;
        while i <= n && !exhausted
            invariant
                self.wf(),
                i <= n + 1,
                n < cap,
                cap == self.spec_cap(),
                self.spec_cap() == orig.spec_cap(),
                self.spec_buf() == orig.spec_buf(),
                self.upcoming() == orig.upcoming(),
                !exhausted ==> forall|k: int| 0 <= k < i ==> #[trigger] self.peeked@[k] is Some,
                exhausted ==> self.upcoming().len() <= n,
            decreases n - i + 1 + (if exhausted { 0int } else { 1int }),
        {
            if self.peeked[i].is_none() {
                let ghost s = self.peeked@;
                let ghost rem = self.iter.remaining();
                proof {
                    lemma_buffered_prefix(s);
                }
                match self.iter.next() {
                    Some(t) => {
                        self.peeked[i] = Some(t);
                        proof {
                            lemma_buffered_prefix_fill(s, i as int, t);
                            assert(seq![t] + self.iter.remaining() =~= rem);
                            assert(self.upcoming() =~= orig.upcoming());
                            assert(slots_prefixed(self.peeked@));
                        }
                        i = i + 1;
                    }
                    None => {
                        proof {
                            assert(self.iter.remaining().len() == 0);
                            if buffered_prefix(s).len() > i as int {
                                assert(s[i as int] == Some(buffered_prefix(s)[i as int]));
                            }
                            assert(buffered_prefix(s).len() <= i as int);
                            assert(self.upcoming().len() <= n);
                        }
                        exhausted = true;
                    }
                }
            } else {
                i = i + 1;
            }
        }
        proof {
            lemma_buffered_prefix(self.peeked@);
        }
        if exhausted {
            None
        } else {
            self.peeked[n].as_ref()
        }
    }

    /// Peek at the very next token; prefer [`Peekable::peek_n`].
    pub fn peek(&mut self) -> (r: Option<&TokenTree>)
        requires
            old(self).wf(),
            old(self).spec_cap() >= 1,
        ensures
            final(self).wf(),
            final(self).spec_cap() == old(self).spec_cap(),
            final(self).spec_buf() == old(self).spec_buf(),
            final(self).upcoming() == old(self).upcoming(),
            match r {
                Some(t) => 0 < old(self).upcoming().len() && *t == old(self).upcoming()[0],
                None => old(self).upcoming().len() == 0,
            },
    {
        self.peek_n(0)
    }

    /// Peek two tokens forward; prefer [`Peekable::peek_n`].
    pub fn peek2(&mut self) -> (r: Option<&TokenTree>)
        requires
            old(self).wf(),
            old(self).spec_cap() >= 2,
        ensures
            final(self).wf(),
            final(self).spec_cap() == old(self).spec_cap(),
            final(self).spec_buf() == old(self).spec_buf(),
            final(self).upcoming() == old(self).upcoming(),
            match r {
                Some(t) => 1 < old(self).upcoming().len() && *t == old(self).upcoming()[1],
                None => old(self).upcoming().len() <= 1,
            },
    {
        self.peek_n(1)
    }

    /// Peek three tokens forward; prefer [`Peekable::peek_n`].
    pub fn peek3(&mut self) -> (r: Option<&TokenTree>)
        requires
            old(self).wf(),
            old(self).spec_cap() >= 3,
        ensures
            final(self).wf(),
            final(self).spec_cap() == old(self).spec_cap(),
            final(self).spec_buf() == old(self).spec_buf(),
            final(self).upcoming() == old(self).upcoming(),
            match r {
                Some(t) => 2 < old(self).upcoming().len() && *t == old(self).upcoming()[2],
                None => old(self).upcoming().len() <= 2,
            },
    {
        self.peek_n(2)
    }

    /// Consume the oldest token: the first buffered one if any slot is
    /// filled (shifting the later slots down by one), otherwise straight
    /// from the tokenizer.
    pub fn next(&mut self) -> (r: Option<TokenTree>)
        requires
            old(self).wf(),
            old(self).spec_cap() >= 1,
        ensures
            final(self).wf(),
            final(self).spec_cap() == old(self).spec_cap(),
            final(self).spec_buf() == old(self).spec_buf(),
            old(self).upcoming().len() == 0 ==> r == None::<TokenTree> && final(self).upcoming()
                == old(self).upcoming(),
            old(self).upcoming().len() > 0 ==> ({
                &&& r == Some(old(self).upcoming()[0])
                &&& final(self).upcoming() == old(self).upcoming().skip(1)
            }),
    {
        let ghost s = self.peeked@;
        let ghost rem = self.iter.remaining();
        proof {
            lemma_buffered_prefix(s);
        }
        let first = self.peeked.remove(0);
        self.peeked.push(None);
        proof {
            assert(self.peeked@ =~= s.skip(1).push(None));
            lemma_buffered_prefix_push_none(s.skip(1));
            assert(slots_prefixed(s.skip(1))) by {
                assert(forall|i: int, j: int|
                    0 <= i < j < s.skip(1).len() && s.skip(1)[j] is Some ==> s[j + 1] is Some && s[i
                        + 1] == s.skip(1)[i]);
            }
            assert(slots_prefixed(self.peeked@)) by {
                assert(forall|k: int|
                    0 <= k < self.peeked@.len() - 1 ==> self.peeked@[k] == s.skip(1)[k]);
                assert(self.peeked@[self.peeked@.len() - 1] is None);
            }
        }
        match first {
            Some(some) => {
                proof {
                    assert(buffered_prefix(s) == seq![some] + buffered_prefix(s.skip(1)));
                    assert(final(self).upcoming() =~= old(self).upcoming().skip(1));
                    lemma_stream_wf_skip1(old(self).spec_buf(), old(self).upcoming());
                }
                Some(some)
            }
            None => {
                proof {
                    assert(buffered_prefix(s) =~= Seq::<TokenTree>::empty());
                    assert(forall|k: int| 0 <= k < s.skip(1).len() ==> s.skip(1)[k] is None);
                    assert(buffered_prefix(s.skip(1)) =~= Seq::<TokenTree>::empty());
                    assert(old(self).upcoming() =~= rem);
                }
                let r = self.iter.next();
                proof {
                    if rem.len() > 0 {
                        assert(final(self).upcoming() =~= old(self).upcoming().skip(1));
                        lemma_stream_wf_skip1(old(self).spec_buf(), old(self).upcoming());
                    } else {
                        assert(self.upcoming() =~= old(self).upcoming());
                    }
                }
                r
            }
        }
    }
}

impl<'r> Spanned for Peekable<'r> {
    open spec fn spec_span(&self) -> Span {
        if self.peeked@.len() > 0 && self.peeked@[0] is Some {
            match self.peeked@[0] {
                Some(tree) => tree.spec_span(),
                None => self.iter.iter.last_span,
            }
        } else {
            self.iter.iter.last_span
        }
    }

    fn span(&self) -> (r: Span) {
        if self.peeked.len() > 0 {
            match &self.peeked[0] {
                Some(tree) => tree.span(),
                None => self.iter.span(),
            }
        } else {
            self.iter.span()
        }
    }
}

} // verus!
