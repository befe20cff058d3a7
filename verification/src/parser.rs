//! Source buffer parser: the byte cursor again, together with the
//! [`Parse`] / [`Peek`] extension points and a handful of built-in tokens
//! (identifier, phrase, quoted literal) that consume it.

use vstd::prelude::*;
use vstd::slice::slice_subrange;
use vstd::string::StringExecFns;
use crate::ascii::{
    is_ws_byte, is_alpha_byte, is_ident_byte, whitespace_byte, alpha_byte, ident_byte, step_line,
    step_col, line_after, col_after, ws_run_end, ident_run_end, nonws_run_end, stop_run_end,
    lemma_ws_run_end, lemma_ident_run_end, lemma_nonws_run_end, lemma_stop_run_end,
};

verus! {

/// A token that can be parsed out of a [`Parser`].
pub trait Parse where Self: Sized {
    fn parse(input: &mut Parser) -> (r: Result<Self, Error>)
        requires
            old(input).wf(),
            old(input).buf@.len() > 0,
        ensures
            final(input).wf(),
            final(input).buf@ == old(input).buf@,
            old(input).offset <= final(input).offset,
    ;
}

/// A token whose presence can be tested without consuming it.
pub trait Peek where Self: Sized {
    fn peek(input: &Parser) -> (r: Result<bool, Error>)
        requires
            input.wf(),
            input.buf@.len() > 0,
    ;
}

/// The parser: a borrowed byte buffer, a read position, the 1-based
/// line / column of the byte about to be read, and the span of the byte
/// most recently advanced over.
///
/// There are a couple of parsing APIs:
///
/// - advance by byte, [`Parser::next`], [`Parser::next_as`]
/// - advance by token, [`Parser::parse`]
/// - peeking, [`Parser::peek`], [`Parser::peek_byte`]
/// - utility, [`Parser::skip_whitespaces`]
pub struct Parser<'r> {
    pub buf: &'r [u8],
    pub last_span: Span,
    pub offset: usize,
    pub line: usize,
    pub col: usize,
}

impl<'r> Parser<'r> {
    /// The position is inside the buffer, and enough headroom is left that
    /// the line and column counters cannot overflow while the rest of the
    /// buffer is consumed.
    pub open spec fn wf(self) -> bool {
        &&& self.offset <= self.buf@.len()
        &&& self.line + (self.buf@.len() - self.offset) <= usize::MAX
        &&& self.col + (self.buf@.len() - self.offset) <= usize::MAX
    }

    /// The span the parser would capture now: the single byte most
    /// recently advanced over, with the line/column that byte itself
    /// stood at.
    pub open spec fn spec_span(self) -> Span {
        self.last_span
    }

    /// One byte was consumed: the offset moved one to the right, the
    /// consumed byte's span was captured at its own position, and the
    /// line/column counters stepped over the byte that was read.
    pub open spec fn advanced_from(self, pre: Self) -> bool {
        &&& self.buf@ == pre.buf@
        &&& self.offset == pre.offset + 1
        &&& self.last_span == (Span { offset: pre.offset, len: 1, line: pre.line, col: pre.col })
        &&& self.line == step_line(pre.buf@[pre.offset as int], pre.line as int)
        &&& self.col == step_col(pre.buf@[pre.offset as int], pre.col as int)
    }

    /// Create a new [`Parser`] at the start of the buffer.
    pub fn new(buf: &'r [u8]) -> (r: Self)
        requires
            buf@.len() < usize::MAX,
        ensures
            r.buf@ == buf@,
            r.offset == 0,
            r.line == 1,
            r.col == 1,
            r.last_span == (Span { offset: 0usize, len: 1usize, line: 1usize, col: 1usize }),
            r.wf(),
    {
        Self { buf, last_span: Span::new(0, 1, 1, 1), offset: 0, line: 1, col: 1 }
    }

    /// Create a new [`Parser`] positioned at the given span's start,
    /// inheriting its line/column. This supports partial parsing when
    /// reading from a stream.
    pub fn from_span(buf: &'r [u8], span: Span) -> (r: Self)
        ensures
            r.buf@ == buf@,
            r.offset == span.offset,
            r.line == span.line,
            r.col == span.col,
            r.last_span == (Span { offset: span.offset, len: 1, line: span.line, col: span.col }),
    {
        Self {
            buf,
            last_span: Span::new(span.offset, 1, span.line, span.col),
            offset: span.offset,
            line: span.line,
            col: span.col,
        }
    }

    /// Advance the cursor by one byte. The only possible error is
    /// [`ErrorKind::Eof`], reported at the last consumed byte; the parser
    /// is unchanged in that case.
    pub fn next(&mut self) -> (r: Result<u8, Error>)
        requires
            old(self).wf(),
            old(self).buf@.len() > 0,
        ensures
            final(self).wf(),
            final(self).buf@ == old(self).buf@,
            old(self).offset < old(self).buf@.len() ==> ({
                &&& r == Ok::<u8, Error>(old(self).buf@[old(self).offset as int])
                &&& final(self).advanced_from(*old(self))
            }),
            old(self).offset == old(self).buf@.len() ==> ({
                &&& r == Err::<u8, Error>((Error { span: old(self).spec_span(), kind: ErrorKind::Eof }))
                &&& *final(self) == *old(self)
            }),
    {
        if self.buf.len() == self.offset {
            return Err(self.eof());
        }
        let val = self.buf[self.offset];
        self.last_span = Span::new(self.offset, 1, self.line, self.col);
        self.offset = self.offset + 1;
        if val == 10u8 {
            self.line = self.line + 1;
            self.col = 1;
        } else {
            self.col = self.col + 1;
        }
        Ok(val)
    }

    /// Advance and require the consumed byte to equal `B`, distinguishing
    /// "wrong byte" from "ran out of input while expecting `B`".
    pub fn next_as<const B: u8>(&mut self) -> (r: Result<u8, Error>)
        requires
            old(self).wf(),
            old(self).buf@.len() > 0,
        ensures
            final(self).wf(),
            final(self).buf@ == old(self).buf@,
            old(self).offset == old(self).buf@.len() ==> ({
                &&& r == Err::<u8, Error>((Error {
                    span: old(self).spec_span(),
                    kind: ErrorKind::ExpectEof(B),
                }))
                &&& *final(self) == *old(self)
            }),
            old(self).offset < old(self).buf@.len() ==> ({
                let found = old(self).buf@[old(self).offset as int];
                &&& final(self).advanced_from(*old(self))
                &&& found == B ==> r == Ok::<u8, Error>(B)
                &&& found != B ==> r == Err::<u8, Error>((Error {
                    span: final(self).spec_span(),
                    kind: ErrorKind::ExpectFound(B, found),
                }))
            }),
    {
        match self.next() {
            Ok(ok) if ok == B => Ok(B),
            Ok(ok) => Err(self.error(ErrorKind::ExpectFound(B, ok))),
            Err(err) if err.is_eof() => Err(Error::new(err.span, ErrorKind::ExpectEof(B))),
            Err(err) => Err(err),
        }
    }

    /// Keep advancing while the next byte is ASCII whitespace.
    pub fn skip_whitespaces(&mut self)
        requires
            old(self).wf(),
            old(self).buf@.len() > 0,
        ensures
            final(self).wf(),
            final(self).buf@ == old(self).buf@,
            final(self).offset == ws_run_end(old(self).buf@, old(self).offset as int),
            final(self).line == line_after(
                old(self).buf@,
                old(self).offset as int,
                final(self).offset as int,
                old(self).line as int,
            ),
            final(self).col == col_after(
                old(self).buf@,
                old(self).offset as int,
                final(self).offset as int,
                old(self).col as int,
            ),
            final(self).offset == old(self).offset ==> final(self).last_span == old(self).last_span,
            old(self).offset < final(self).offset ==> final(self).last_span == (Span {
                offset: (final(self).offset - 1) as usize,
                len: 1,
                line: line_after(
                    old(self).buf@,
                    old(self).offset as int,
                    final(self).offset - 1,
                    old(self).line as int,
                ) as usize,
                col: col_after(
                    old(self).buf@,
                    old(self).offset as int,
                    final(self).offset - 1,
                    old(self).col as int,
                ) as usize,
            }),
    {
        let ghost pre = *self;
        loop
            invariant_except_break
                self.wf(),
                self.buf@ == pre.buf@,
                pre.buf@.len() > 0,
                pre.offset <= self.offset,
                ws_run_end(self.buf@, self.offset as int) == ws_run_end(pre.buf@, pre.offset as int),
                self.line == line_after(pre.buf@, pre.offset as int, self.offset as int, pre.line as int),
                self.col == col_after(pre.buf@, pre.offset as int, self.offset as int, pre.col as int),
                self.offset == pre.offset ==> self.last_span == pre.last_span,
                pre.offset < self.offset ==> self.last_span == (Span {
                    offset: (self.offset - 1) as usize,
                    len: 1,
                    line: line_after(pre.buf@, pre.offset as int, self.offset - 1, pre.line as int) as usize,
                    col: col_after(pre.buf@, pre.offset as int, self.offset - 1, pre.col as int) as usize,
                }),
            ensures
                self.wf(),
                self.buf@ == pre.buf@,
                self.offset == ws_run_end(pre.buf@, pre.offset as int),
                self.line == line_after(pre.buf@, pre.offset as int, self.offset as int, pre.line as int),
                self.col == col_after(pre.buf@, pre.offset as int, self.offset as int, pre.col as int),
                self.offset == pre.offset ==> self.last_span == pre.last_span,
                pre.offset < self.offset ==> self.last_span == (Span {
                    offset: (self.offset - 1) as usize,
                    len: 1,
                    line: line_after(pre.buf@, pre.offset as int, self.offset - 1, pre.line as int) as usize,
                    col: col_after(pre.buf@, pre.offset as int, self.offset - 1, pre.col as int) as usize,
                }),
            decreases self.buf@.len() - self.offset,
        {
            match self.peek_byte() {
                Ok(w) => {
                    if whitespace_byte(*w) {
                        match self.next() {
                            Ok(_) => {}
                            Err(_) => {
                                proof {
                                    assert(false);
                                }
                            }
                        }
                    } else {
                        break;
                    }
                }
                Err(_) => {
                    break;
                }
            }
        }
    }

    /// Parse one token of the given type, clearing leading and trailing
    /// whitespace around it.
    pub fn parse<T: Parse>(&mut self) -> (r: Result<T, Error>)
        requires
            old(self).wf(),
            old(self).buf@.len() > 0,
        ensures
            final(self).wf(),
            final(self).buf@ == old(self).buf@,
            old(self).offset <= final(self).offset,
            r is Ok ==> final(self).offset == final(self).buf@.len() || !is_ws_byte(
                final(self).buf@[final(self).offset as int],
            ),
    {
        proof {
            lemma_ws_run_end(self.buf@, self.offset as int);
        }
        self.skip_whitespaces();
        let res = T::parse(self)?;
        proof {
            lemma_ws_run_end(self.buf@, self.offset as int);
        }
        self.skip_whitespaces();
        Ok(res)
    }

    /// Peek the next byte without advancing. The only possible error is
    /// [`ErrorKind::Eof`].
    pub fn peek_byte(&self) -> (r: Result<&u8, Error>)
        requires
            self.wf(),
            self.buf@.len() > 0,
        ensures
            match r {
                Ok(b) => self.offset < self.buf@.len() && *b == self.buf@[self.offset as int],
                Err(e) => self.offset == self.buf@.len() && e == (Error {
                    span: self.spec_span(),
                    kind: ErrorKind::Eof,
                }),
            },
    {
        if self.offset < self.buf.len() {
            Ok(&self.buf[self.offset])
        } else {
            Err(self.eof())
        }
    }

    /// Peek the next token without advancing.
    pub fn peek<T: Peek>(&self) -> (r: Result<bool, Error>)
        requires
            self.wf(),
            self.buf@.len() > 0,
    {
        T::peek(self)
    }

    /// How many bytes remain.
    pub fn remaining(&self) -> (r: usize)
        requires
            self.wf(),
        ensures
            r == self.buf@.len() - self.offset,
    {
        self.len() - self.offset
    }

    /// The source buffer.
    pub fn source(&self) -> (r: &[u8])
        ensures
            r@ == self.buf@,
    {
        self.buf
    }

    /// The source buffer's length.
    pub fn len(&self) -> (r: usize)
        ensures
            r == self.buf@.len(),
    {
        self.buf.len()
    }

    /// Are no bytes left?
    pub fn is_empty(&self) -> (r: bool)
        requires
            self.wf(),
        ensures
            r == (self.offset == self.buf@.len()),
    {
        self.remaining() == 0
    }

    /// The [`Span`] of the byte most recently advanced over, at the line
    /// and column that byte itself stood at. Advancing at least once
    /// first is part of this parser's contract.
    pub fn span(&self) -> (r: Span)
        requires
            self.offset > 0,
        ensures
            r == self.spec_span(),
    {
        self.last_span
    }

    /// Create an [`Error`] at the current span.
    pub fn error(&self, kind: ErrorKind) -> (r: Error)
        requires
            self.offset > 0,
        ensures
            r == (Error { span: self.spec_span(), kind }),
    {
        Error::new(self.span(), kind)
    }

    /// Create an [`ErrorKind::Eof`] error at the current span.
    pub fn eof(&self) -> (r: Error)
        requires
            self.offset > 0,
        ensures
            r == (Error { span: self.spec_span(), kind: ErrorKind::Eof }),
    {
        Error::eof(self.span())
    }
}

/// A descriptor of a byte range in a source buffer: start offset, length,
/// and the 1-based line/column of the start byte. Use [`Span::evaluate`]
/// to read the range back out of the buffer.
#[derive(Debug, Clone, Copy, PartialEq, Eq, Structural)]
pub struct Span {
    pub offset: usize,
    pub len: usize,
    pub line: usize,
    pub col: usize,
}

impl Span {
    /// Create a new [`Span`] from its four fields.
    pub fn new(offset: usize, len: usize, line: usize, col: usize) -> (r: Self)
        ensures
            r == (Span { offset, len, line, col }),
    {
        Span { offset, len, line, col }
    }

    /// The "not yet established" sentinel: all fields zero.
    pub fn unknown() -> (r: Self)
        ensures
            r == (Span { offset: 0usize, len: 0usize, line: 0usize, col: 0usize }),
    {
        Span { offset: 0, len: 0, line: 0, col: 0 }
    }

    /// Is this the sentinel of [`Span::unknown`]?
    pub fn is_unknown(&self) -> (r: bool)
        ensures
            r == (self.offset == 0 && self.len == 0 && self.line == 0 && self.col == 0),
    {
        self.offset == 0 && self.len == 0 && self.line == 0 && self.col == 0
    }

    /// Read the named range back out of the source buffer.
    pub fn evaluate<'r>(&self, buf: &'r [u8]) -> (r: &'r [u8])
        requires
            self.offset + self.len <= buf@.len(),
        ensures
            r@ == buf@.subrange(self.offset as int, self.offset + self.len),
    {
        let n = buf.len();
        slice_subrange(buf, self.offset, self.offset + self.len)
    }

    /// Extend this span so that it ends at the start byte of a later span.
    pub fn spanned(&mut self, span: &Span)
        requires
            old(self).offset <= span.offset,
            span.offset < usize::MAX,
        ensures
            *final(self) == (Span {
                offset: old(self).offset,
                len: (span.offset - old(self).offset + 1) as usize,
                line: old(self).line,
                col: old(self).col,
            }),
    {
        self.len = span.offset - self.offset + 1;
    }

    /// As [`Span::spanned`], but by value.
    pub fn into_spanned(self, span: &Span) -> (r: Span)
        requires
            self.offset <= span.offset,
            span.offset < usize::MAX,
        ensures
            r == (Span {
                offset: self.offset,
                len: (span.offset - self.offset + 1) as usize,
                line: self.line,
                col: self.col,
            }),
    {
        let mut out = self;
        out.len = span.offset - self.offset + 1;
        out
    }
}

/// What went wrong, and where: every error carries the [`Span`] at the
/// point of failure.
#[derive(Debug, Clone, Copy, PartialEq, Eq, Structural)]
pub struct Error {
    pub kind: ErrorKind,
    pub span: Span,
}

/// The kinds of failure the parser reports.
#[derive(Debug, Clone, Copy, PartialEq, Eq, Structural)]
pub enum ErrorKind {
    /// Unexpected end of input.
    Eof,
    /// Expected a byte, found end of input.
    ExpectEof(u8),
    /// Expected one byte, found another.
    ExpectFound(u8, u8),
    /// Expected an alphabetic byte.
    ExpectAlphabetic(u8),
}

impl ErrorKind {
    /// The rendered form of this error kind.
    pub open spec fn spec_message(self) -> Seq<char> {
        match self {
            ErrorKind::Eof => "unexpected EOF"@,
            ErrorKind::ExpectEof(fd) => "expected "@ + seq![fd as char] + "found EOF"@,
            ErrorKind::ExpectFound(ex, fd) => "expected "@ + seq![ex as char] + "found "@ + seq![
                fd as char,
            ],
            ErrorKind::ExpectAlphabetic(fd) => "expected alphabetical, "@ + "found "@ + seq![
                fd as char,
            ],
        }
    }

    /// Render this error kind as human-readable text.
    pub fn message(&self) -> (r: String)
        ensures
            r@ == self.spec_message(),
    {
        let mut s = String::new();
        match self {
            ErrorKind::Eof => s.append("unexpected EOF"),
            ErrorKind::ExpectEof(fd) => {
                s.append("expected ");
                s.push(*fd as char);
                s.append("found EOF");
            },
            ErrorKind::ExpectFound(ex, fd) => {
                s.append("expected ");
                s.push(*ex as char);
                s.append("found ");
                s.push(*fd as char);
            },
            ErrorKind::ExpectAlphabetic(fd) => {
                s.append("expected alphabetical, ");
                s.append("found ");
                s.push(*fd as char);
            },
        }
        proof {
            assert(s@ =~= self.spec_message());
        }
        s
    }
}

impl Error {
    /// Render this error as human-readable text: the text of its kind.
    pub fn message(&self) -> (r: String)
        ensures
            r@ == self.kind.spec_message(),
    {
        self.kind.message()
    }

    /// Create a new [`Error`].
    pub fn new(span: Span, kind: ErrorKind) -> (r: Self)
        ensures
            r == (Error { span, kind }),
    {
        Error { span, kind }
    }

    /// Create a new [`Error`] with [`ErrorKind::Eof`].
    pub fn eof(span: Span) -> (r: Self)
        ensures
            r == (Error { span, kind: ErrorKind::Eof }),
    {
        Error { span, kind: ErrorKind::Eof }
    }

    /// Is this an [`ErrorKind::Eof`] error?
    pub fn is_eof(&self) -> (r: bool)
        ensures
            r == (self.kind is Eof),
    {
        matches!(self.kind, ErrorKind::Eof)
    }
}

/// An identifier: a leading letter or underscore, extended greedily over
/// letters, digits and underscores.
#[derive(Debug)]
pub struct Ident {
    pub span: Span,
}

impl Parse for Ident {
    fn parse(input: &mut Parser) -> (r: Result<Self, Error>)
        ensures
            old(input).offset == old(input).buf@.len() ==> ({
                &&& r == Err::<Ident, Error>((Error {
                    span: old(input).spec_span(),
                    kind: ErrorKind::Eof,
                }))
                &&& *final(input) == *old(input)
            }),
            old(input).offset < old(input).buf@.len() ==> ({
                let lead = old(input).buf@[old(input).offset as int];
                let end = ident_run_end(old(input).buf@, old(input).offset + 1);
                &&& !(is_alpha_byte(lead) || lead == 95) ==> ({
                    &&& r == Err::<Ident, Error>((Error {
                        span: (Span {
                            offset: old(input).offset,
                            len: 1,
                            line: old(input).line,
                            col: old(input).col,
                        }),
                        kind: ErrorKind::ExpectAlphabetic(lead),
                    }))
                    &&& final(input).advanced_from(*old(input))
                })
                &&& (is_alpha_byte(lead) || lead == 95) ==> ({
                    &&& r == Ok::<Ident, Error>((Ident {
                        span: (Span {
                            offset: old(input).offset,
                            len: (end - old(input).offset) as usize,
                            line: old(input).line,
                            col: old(input).col,
                        }),
                    }))
                    &&& final(input).offset == end
                    &&& final(input).line == line_after(
                        old(input).buf@,
                        old(input).offset as int,
                        end,
                        old(input).line as int,
                    )
                    &&& final(input).col == col_after(
                        old(input).buf@,
                        old(input).offset as int,
                        end,
                        old(input).col as int,
                    )
                    &&& final(input).last_span == (Span {
                        offset: (end - 1) as usize,
                        len: 1,
                        line: line_after(
                            old(input).buf@,
                            old(input).offset as int,
                            end - 1,
                            old(input).line as int,
                        ) as usize,
                        col: col_after(
                            old(input).buf@,
                            old(input).offset as int,
                            end - 1,
                            old(input).col as int,
                        ) as usize,
                    })
                    &&& forall|k: int|
                        old(input).offset + 1 <= k < end ==> is_ident_byte(
                            #[trigger] old(input).buf@[k],
                        )
                    &&& end < old(input).buf@.len() ==> !is_ident_byte(old(input).buf@[end])
                })
            }),
    {
        let ghost pre = *input;
        proof {
            if pre.offset < pre.buf@.len() {
                lemma_ident_run_end(pre.buf@, pre.offset + 1);
            }
        }
        let lead = input.next()?;
        let span = input.span();

        if !alpha_byte(lead) && lead != 95u8 {
            return Err(input.error(ErrorKind::ExpectAlphabetic(lead)));
        }
        proof {
            reveal_with_fuel(line_after, 2);
            reveal_with_fuel(col_after, 2);
        }
        loop
            invariant_except_break
                input.wf(),
                input.buf@ == pre.buf@,
                pre.buf@.len() > 0,
                pre.offset < input.offset,
                ident_run_end(input.buf@, input.offset as int) == ident_run_end(
                    pre.buf@,
                    pre.offset + 1,
                ),
                input.line == line_after(pre.buf@, pre.offset as int, input.offset as int, pre.line as int),
                input.col == col_after(pre.buf@, pre.offset as int, input.offset as int, pre.col as int),
                input.last_span == (Span {
                    offset: (input.offset - 1) as usize,
                    len: 1,
                    line: line_after(pre.buf@, pre.offset as int, input.offset - 1, pre.line as int) as usize,
                    col: col_after(pre.buf@, pre.offset as int, input.offset - 1, pre.col as int) as usize,
                }),
            ensures
                input.wf(),
                input.buf@ == pre.buf@,
                pre.offset < input.offset,
                input.offset == ident_run_end(pre.buf@, pre.offset + 1),
                input.line == line_after(pre.buf@, pre.offset as int, input.offset as int, pre.line as int),
                input.col == col_after(pre.buf@, pre.offset as int, input.offset as int, pre.col as int),
                input.last_span == (Span {
                    offset: (input.offset - 1) as usize,
                    len: 1,
                    line: line_after(pre.buf@, pre.offset as int, input.offset - 1, pre.line as int) as usize,
                    col: col_after(pre.buf@, pre.offset as int, input.offset - 1, pre.col as int) as usize,
                }),
            decreases input.buf@.len() - input.offset,
        {
            match input.peek_byte() {
                Ok(byte) => {
                    if ident_byte(*byte) {
                        match input.next() {
                            Ok(_) => {}
                            Err(_) => {
                                proof {
                                    assert(false);
                                }
                            }
                        }
                    } else {
                        break;
                    }
                }
                Err(_) => {
                    break;
                }
            }
        }

        Ok(Self { span: span.into_spanned(&input.span()) })
    }
}

/// A phrase: a maximal run of non-whitespace bytes.
#[derive(Debug)]
pub struct Phrase {
    pub span: Span,
}

impl Parse for Phrase {
    fn parse(input: &mut Parser) -> (r: Result<Self, Error>)
        ensures
            old(input).offset == old(input).buf@.len() ==> ({
                &&& r == Err::<Phrase, Error>((Error {
                    span: old(input).spec_span(),
                    kind: ErrorKind::Eof,
                }))
                &&& *final(input) == *old(input)
            }),
            old(input).offset < old(input).buf@.len() ==> ({
                let lead = old(input).buf@[old(input).offset as int];
                let end = nonws_run_end(old(input).buf@, old(input).offset + 1);
                &&& is_ws_byte(lead) ==> ({
                    &&& r == Err::<Phrase, Error>((Error {
                        span: (Span {
                            offset: old(input).offset,
                            len: 1,
                            line: old(input).line,
                            col: old(input).col,
                        }),
                        kind: ErrorKind::ExpectAlphabetic(lead),
                    }))
                    &&& final(input).advanced_from(*old(input))
                })
                &&& !is_ws_byte(lead) ==> ({
                    &&& r == Ok::<Phrase, Error>((Phrase {
                        span: (Span {
                            offset: old(input).offset,
                            len: (end - old(input).offset) as usize,
                            line: old(input).line,
                            col: old(input).col,
                        }),
                    }))
                    &&& final(input).offset == end
                    &&& final(input).line == line_after(
                        old(input).buf@,
                        old(input).offset as int,
                        end,
                        old(input).line as int,
                    )
                    &&& final(input).col == col_after(
                        old(input).buf@,
                        old(input).offset as int,
                        end,
                        old(input).col as int,
                    )
                    &&& final(input).last_span == (Span {
                        offset: (end - 1) as usize,
                        len: 1,
                        line: line_after(
                            old(input).buf@,
                            old(input).offset as int,
                            end - 1,
                            old(input).line as int,
                        ) as usize,
                        col: col_after(
                            old(input).buf@,
                            old(input).offset as int,
                            end - 1,
                            old(input).col as int,
                        ) as usize,
                    })
                    &&& forall|k: int|
                        old(input).offset + 1 <= k < end ==> !is_ws_byte(
                            #[trigger] old(input).buf@[k],
                        )
                    &&& end < old(input).buf@.len() ==> is_ws_byte(old(input).buf@[end])
                })
            }),
    {
        let ghost pre = *input;
        proof {
            if pre.offset < pre.buf@.len() {
                lemma_nonws_run_end(pre.buf@, pre.offset + 1);
            }
        }
        let lead = input.next()?;
        let span = input.span();

        if whitespace_byte(lead) {
            return Err(input.error(ErrorKind::ExpectAlphabetic(lead)));
        }
        proof {
            reveal_with_fuel(line_after, 2);
            reveal_with_fuel(col_after, 2);
        }
        loop
            invariant_except_break
                input.wf(),
                input.buf@ == pre.buf@,
                pre.buf@.len() > 0,
                pre.offset < input.offset,
                nonws_run_end(input.buf@, input.offset as int) == nonws_run_end(
                    pre.buf@,
                    pre.offset + 1,
                ),
                input.line == line_after(pre.buf@, pre.offset as int, input.offset as int, pre.line as int),
                input.col == col_after(pre.buf@, pre.offset as int, input.offset as int, pre.col as int),
                input.last_span == (Span {
                    offset: (input.offset - 1) as usize,
                    len: 1,
                    line: line_after(pre.buf@, pre.offset as int, input.offset - 1, pre.line as int) as usize,
                    col: col_after(pre.buf@, pre.offset as int, input.offset - 1, pre.col as int) as usize,
                }),
            ensures
                input.wf(),
                input.buf@ == pre.buf@,
                pre.offset < input.offset,
                input.offset == nonws_run_end(pre.buf@, pre.offset + 1),
                input.line == line_after(pre.buf@, pre.offset as int, input.offset as int, pre.line as int),
                input.col == col_after(pre.buf@, pre.offset as int, input.offset as int, pre.col as int),
                input.last_span == (Span {
                    offset: (input.offset - 1) as usize,
                    len: 1,
                    line: line_after(pre.buf@, pre.offset as int, input.offset - 1, pre.line as int) as usize,
                    col: col_after(pre.buf@, pre.offset as int, input.offset - 1, pre.col as int) as usize,
                }),
            decreases input.buf@.len() - input.offset,
        {
            match input.peek_byte() {
                Ok(byte) => {
                    if !whitespace_byte(*byte) {
                        match input.next() {
                            Ok(_) => {}
                            Err(_) => {
                                proof {
                                    assert(false);
                                }
                            }
                        }
                    } else {
                        break;
                    }
                }
                Err(_) => {
                    break;
                }
            }
        }

        Ok(Self { span: span.into_spanned(&input.span()) })
    }
}

/// A quoted literal string, spanning from the opening quote to the
/// closing quote inclusive.
#[derive(Debug)]
pub struct LitStr {
    pub span: Span,
}

impl Parse for LitStr {
    fn parse(input: &mut Parser) -> (r: Result<Self, Error>)
        ensures
            old(input).offset == old(input).buf@.len() ==> ({
                &&& r == Err::<LitStr, Error>((Error {
                    span: old(input).spec_span(),
                    kind: ErrorKind::ExpectEof(34),
                }))
                &&& *final(input) == *old(input)
            }),
            old(input).offset < old(input).buf@.len() ==> ({
                let lead = old(input).buf@[old(input).offset as int];
                let close = stop_run_end(old(input).buf@, old(input).offset + 1, 34);
                &&& lead != 34 ==> ({
                    &&& r == Err::<LitStr, Error>((Error {
                        span: (Span {
                            offset: old(input).offset,
                            len: 1,
                            line: old(input).line,
                            col: old(input).col,
                        }),
                        kind: ErrorKind::ExpectFound(34, lead),
                    }))
                    &&& final(input).advanced_from(*old(input))
                })
                &&& (lead == 34 && close < old(input).buf@.len()) ==> ({
                    &&& r == Ok::<LitStr, Error>((LitStr {
                        span: (Span {
                            offset: old(input).offset,
                            len: (close - old(input).offset + 1) as usize,
                            line: old(input).line,
                            col: old(input).col,
                        }),
                    }))
                    &&& final(input).last_span == (Span {
                        offset: (close) as usize,
                        len: 1,
                        line: line_after(
                            old(input).buf@,
                            old(input).offset as int,
                            close,
                            old(input).line as int,
                        ) as usize,
                        col: col_after(
                            old(input).buf@,
                            old(input).offset as int,
                            close,
                            old(input).col as int,
                        ) as usize,
                    })
                    &&& final(input).offset == close + 1
                    &&& final(input).line == line_after(
                        old(input).buf@,
                        old(input).offset as int,
                        close + 1,
                        old(input).line as int,
                    )
                    &&& final(input).col == col_after(
                        old(input).buf@,
                        old(input).offset as int,
                        close + 1,
                        old(input).col as int,
                    )
                    &&& forall|k: int|
                        old(input).offset + 1 <= k < close ==> #[trigger] old(input).buf@[k] != 34
                    &&& old(input).buf@[close] == 34
                })
                &&& (lead == 34 && close == old(input).buf@.len()) ==> ({
                    &&& r == Err::<LitStr, Error>((Error {
                        span: final(input).spec_span(),
                        kind: ErrorKind::Eof,
                    }))
                    &&& final(input).last_span == (Span {
                        offset: (close - 1) as usize,
                        len: 1,
                        line: line_after(
                            old(input).buf@,
                            old(input).offset as int,
                            close - 1,
                            old(input).line as int,
                        ) as usize,
                        col: col_after(
                            old(input).buf@,
                            old(input).offset as int,
                            close - 1,
                            old(input).col as int,
                        ) as usize,
                    })
                    &&& final(input).offset == old(input).buf@.len()
                    &&& final(input).line == line_after(
                        old(input).buf@,
                        old(input).offset as int,
                        close,
                        old(input).line as int,
                    )
                    &&& final(input).col == col_after(
                        old(input).buf@,
                        old(input).offset as int,
                        close,
                        old(input).col as int,
                    )
                })
            }),
    {
        let ghost pre = *input;
        proof {
            if pre.offset < pre.buf@.len() {
                lemma_stop_run_end(pre.buf@, pre.offset + 1, 34);
            }
        }
        let quoted = Quoted::new(input)?;
        proof {
            reveal_with_fuel(line_after, 2);
            reveal_with_fuel(col_after, 2);
        }
        loop
            invariant_except_break
                pre == *old(input),
                pre.buf@[pre.offset as int] == 34,
                input.wf(),
                input.buf@ == pre.buf@,
                pre.buf@.len() > 0,
                pre.offset < input.offset,
                quoted.span == (Span { offset: pre.offset, len: 1, line: pre.line, col: pre.col }),
                input.last_span == (Span {
                    offset: (input.offset - 1) as usize,
                    len: 1,
                    line: line_after(pre.buf@, pre.offset as int, input.offset - 1, pre.line as int) as usize,
                    col: col_after(pre.buf@, pre.offset as int, input.offset - 1, pre.col as int) as usize,
                }),
                stop_run_end(input.buf@, input.offset as int, 34) == stop_run_end(
                    pre.buf@,
                    pre.offset + 1,
                    34,
                ),
                input.line == line_after(pre.buf@, pre.offset as int, input.offset as int, pre.line as int),
                input.col == col_after(pre.buf@, pre.offset as int, input.offset as int, pre.col as int),
            ensures
                input.wf(),
                input.buf@ == pre.buf@,
                pre.offset < input.offset,
                input.offset == stop_run_end(pre.buf@, pre.offset + 1, 34) + 1,
                stop_run_end(pre.buf@, pre.offset + 1, 34) < pre.buf@.len(),
                input.line == line_after(pre.buf@, pre.offset as int, input.offset as int, pre.line as int),
                input.col == col_after(pre.buf@, pre.offset as int, input.offset as int, pre.col as int),
                input.last_span == (Span {
                    offset: (input.offset - 1) as usize,
                    len: 1,
                    line: line_after(pre.buf@, pre.offset as int, input.offset - 1, pre.line as int) as usize,
                    col: col_after(pre.buf@, pre.offset as int, input.offset - 1, pre.col as int) as usize,
                }),
            decreases input.buf@.len() - input.offset,
        {
            if quoted.next(input)? {
                match input.next() {
                    Ok(_) => {}
                    Err(_) => {
                        proof {
                            assert(false);
                        }
                    }
                }
            } else {
                break;
            }
        }

        Ok(Self { span: quoted.span.into_spanned(&input.span()) })
    }
}

/// The in-progress state of scanning a quoted literal: the span of its
/// opening quote.
#[derive(Debug)]
pub struct Quoted {
    pub span: Span,
}

impl Quoted {
    /// Consume the opening quote, recording its span.
    pub fn new(input: &mut Parser<'_>) -> (r: Result<Self, Error>)
        requires
            old(input).wf(),
            old(input).buf@.len() > 0,
        ensures
            final(input).wf(),
            final(input).buf@ == old(input).buf@,
            old(input).offset == old(input).buf@.len() ==> ({
                &&& r == Err::<Quoted, Error>((Error {
                    span: old(input).spec_span(),
                    kind: ErrorKind::ExpectEof(34),
                }))
                &&& *final(input) == *old(input)
            }),
            old(input).offset < old(input).buf@.len() ==> ({
                let found = old(input).buf@[old(input).offset as int];
                &&& final(input).advanced_from(*old(input))
                &&& found == 34 ==> r == Ok::<Quoted, Error>((Quoted {
                    span: final(input).spec_span(),
                }))
                &&& found != 34 ==> r == Err::<Quoted, Error>((Error {
                    span: final(input).spec_span(),
                    kind: ErrorKind::ExpectFound(34, found),
                }))
            }),
    {
        let _quote = input.next_as::<34>()?;
        Ok(Self { span: input.span() })
    }

    /// Is another content byte left before the closing quote? Consumes
    /// the closing quote when it is found.
    pub fn next(&self, input: &mut Parser<'_>) -> (r: Result<bool, Error>)
        requires
            old(input).wf(),
            old(input).buf@.len() > 0,
            old(input).offset > 0,
        ensures
            final(input).wf(),
            final(input).buf@ == old(input).buf@,
            old(input).offset == old(input).buf@.len() ==> ({
                &&& r == Err::<bool, Error>((Error {
                    span: old(input).spec_span(),
                    kind: ErrorKind::Eof,
                }))
                &&& *final(input) == *old(input)
            }),
            old(input).offset < old(input).buf@.len() ==> ({
                let found = old(input).buf@[old(input).offset as int];
                &&& found == 34 ==> ({
                    &&& r == Ok::<bool, Error>(false)
                    &&& final(input).advanced_from(*old(input))
                })
                &&& found != 34 ==> ({
                    &&& r == Ok::<bool, Error>(true)
                    &&& *final(input) == *old(input)
                })
            }),
    {
        let b = *(input.peek_byte()?);
        if b == 34u8 {
            match input.next() {
                Ok(_) => {}
                Err(_) => {
                    proof {
                        assert(false);
                    }
                }
            }
            Ok(false)
        } else {
            Ok(true)
        }
    }
}

} // verus!
