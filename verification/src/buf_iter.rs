//! Buffer iterator: a position-tracking cursor over a borrowed byte buffer.
//!
//! Iterate over a buffer with [`BufIter`], peek forward without moving, and
//! name byte ranges with [`Span`].

use vstd::prelude::*;
use vstd::slice::slice_subrange;
use vstd::string::StringExecFns;
use crate::ascii::{
    is_alpha_byte, is_alnum_byte, is_ident_byte, whitespace_byte, alpha_byte, alnum_byte,
    ident_byte, step_line, step_col, line_after, col_after, ws_run_end, alnum_run_end,
    stop_run_end, lemma_alnum_run_end, lemma_stop_run_end,
};

verus! {

/// A descriptor of a byte range in a source buffer: start offset, length,
/// and the 1-based line/column of the start byte. It never owns bytes; use
/// [`Span::evaluate`] to read the range back out of the buffer.
#[derive(Debug, Clone, Copy, PartialEq, Eq, Structural)]
pub struct Span {
    pub offset: usize,
    pub len: usize,
    pub line: usize,
    pub col: usize,
}

impl Span {
    /// Create a new [`Span`] from its four fields.
    pub fn new(offset: usize, len: usize, line: usize, col: usize) -> (r: Self)
        ensures
            r == (Span { offset, len, line, col }),
    {
        Span { offset, len, line, col }
    }

    /// The "not yet established" sentinel: all fields zero.
    pub fn unknown() -> (r: Self)
        ensures
            r == (Span { offset: 0usize, len: 0usize, line: 0usize, col: 0usize }),
    {
        Span { offset: 0, len: 0, line: 0, col: 0 }
    }

    /// Is this the sentinel of [`Span::unknown`]?
    pub fn is_unknown(&self) -> (r: bool)
        ensures
            r == (self.offset == 0 && self.len == 0 && self.line == 0 && self.col == 0),
    {
        self.offset == 0 && self.len == 0 && self.line == 0 && self.col == 0
    }

    /// Read the named range back out of the source buffer.
    pub fn evaluate<'r>(&self, buf: &'r [u8]) -> (r: &'r [u8])
        requires
            self.offset + self.len <= buf@.len(),
        ensures
            r@ == buf@.subrange(self.offset as int, self.offset + self.len),
    {
        let n = buf.len();
        slice_subrange(buf, self.offset, self.offset + self.len)
    }

    /// Extend this span so that it ends at the start byte of a later span:
    /// the new length runs from this offset up to and including `span`'s
    /// start byte.
    pub fn spanned(&mut self, span: &Span)
        requires
            old(self).offset <= span.offset,
            span.offset < usize::MAX,
        ensures
            *final(self) == (Span {
                offset: old(self).offset,
                len: (span.offset - old(self).offset + 1) as usize,
                line: old(self).line,
                col: old(self).col,
            }),
    {
        self.len = span.offset - self.offset + 1;
    }

    /// As [`Span::spanned`], but by value.
    pub fn into_spanned(self, span: &Span) -> (r: Span)
        requires
            self.offset <= span.offset,
            span.offset < usize::MAX,
        ensures
            r == (Span {
                offset: self.offset,
                len: (span.offset - self.offset + 1) as usize,
                line: self.line,
                col: self.col,
            }),
    {
        let mut out = self;
        out.len = span.offset - self.offset + 1;
        out
    }
}

/// What went wrong, and where: every error carries the [`Span`] at the
/// point of failure.
#[derive(Debug, Clone, Copy, PartialEq, Eq, Structural)]
pub struct Error {
    pub kind: ErrorKind,
    pub span: Span,
}

/// The kinds of failure the cursor reports.
#[derive(Debug, Clone, Copy, PartialEq, Eq, Structural)]
pub enum ErrorKind {
    /// Unexpected end of input.
    Eof,
    /// Unexpected byte.
    Unexpected(u8),
    /// Expected a byte, found end of input.
    ExpectEof(u8),
    /// Expected one byte, found another.
    ExpectFound(u8, u8),
    /// Expected an alphabetic byte.
    ExpectAlphabetic(u8),
    /// Expected an identifier byte.
    ExpectIdent(u8),
}

impl ErrorKind {
    /// The rendered form of this error kind.
    pub open spec fn spec_message(self) -> Seq<char> {
        match self {
            ErrorKind::Eof => "unexpected EOF"@,
            ErrorKind::Unexpected(fd) => "unexpected `"@ + seq![fd as char] + "`"@,
            ErrorKind::ExpectEof(ex) => "expect `"@ + seq![ex as char] + "` found EOF"@,
            ErrorKind::ExpectFound(ex, fd) => "expect `"@ + seq![ex as char] + "` found `"@
                + seq![fd as char] + "`"@,
            ErrorKind::ExpectAlphabetic(fd) => "expect alphabetical found `"@ + seq![
                fd as char,
            ] + "`"@,
            ErrorKind::ExpectIdent(fd) => "expect identifier found `"@ + seq![fd as char] + "`"@,
        }
    }

    /// Render this error kind as human-readable text.
    pub fn message(&self) -> (r: String)
        ensures
            r@ == self.spec_message(),
    {
        let mut s = String::new();
        match self {
            ErrorKind::Eof => s.append("unexpected EOF"),
            ErrorKind::Unexpected(fd) => {
                s.append("unexpected `");
                s.push(*fd as char);
                s.append("`");
            },
            ErrorKind::ExpectEof(ex) => {
                s.append("expect `");
                s.push(*ex as char);
                s.append("` found EOF");
            },
            ErrorKind::ExpectFound(ex, fd) => {
                s.append("expect `");
                s.push(*ex as char);
                s.append("` found `");
                s.push(*fd as char);
                s.append("`");
            },
            ErrorKind::ExpectAlphabetic(fd) => {
                s.append("expect alphabetical found `");
                s.push(*fd as char);
                s.append("`");
            },
            ErrorKind::ExpectIdent(fd) => {
                s.append("expect identifier found `");
                s.push(*fd as char);
                s.append("`");
            },
        }
        proof {
            assert(s@ =~= self.spec_message());
        }
        s
    }
}

impl Error {
    /// Render this error as human-readable text: the text of its kind.
    pub fn message(&self) -> (r: String)
        ensures
            r@ == self.kind.spec_message(),
    {
        self.kind.message()
    }

    /// Create a new [`Error`].
    pub fn new(span: Span, kind: ErrorKind) -> (r: Self)
        ensures
            r == (Error { span, kind }),
    {
        Error { span, kind }
    }

    /// Create a new [`Error`] with [`ErrorKind::Eof`].
    pub fn eof(span: Span) -> (r: Self)
        ensures
            r == (Error { span, kind: ErrorKind::Eof }),
    {
        Error { span, kind: ErrorKind::Eof }
    }

    /// Is this an [`ErrorKind::Eof`] error?
    pub fn is_eof(&self) -> (r: bool)
        ensures
            r == (self.kind is Eof),
    {
        matches!(self.kind, ErrorKind::Eof)
    }
}

/// The cursor: a borrowed byte buffer, a read position, the 1-based
/// line / column of the byte about to be read, and the span of the byte
/// most recently advanced over.
pub struct BufIter<'r> {
    pub buf: &'r [u8],
    pub last_span: Span,
    pub offset: usize,
    pub line: usize,
    pub col: usize,
}

impl<'r> BufIter<'r> {
    /// The position is inside the buffer, and enough headroom is left that
    /// the line and column counters cannot overflow while the rest of the
    /// buffer is consumed.
    pub open spec fn wf(self) -> bool {
        &&& self.offset <= self.buf@.len()
        &&& self.line + (self.buf@.len() - self.offset) <= usize::MAX
        &&& self.col + (self.buf@.len() - self.offset) <= usize::MAX
    }

    /// The span the cursor would capture now: the single byte most
    /// recently advanced over, with the line/column that byte itself
    /// stood at.
    pub open spec fn spec_span(self) -> Span {
        self.last_span
    }

    /// One byte was consumed: the offset moved one to the right, the
    /// consumed byte's span was captured at its own position, and the
    /// line/column counters stepped over the byte that was read.
    pub open spec fn advanced_from(self, pre: Self) -> bool {
        &&& self.buf@ == pre.buf@
        &&& self.offset == pre.offset + 1
        &&& self.last_span == (Span { offset: pre.offset, len: 1, line: pre.line, col: pre.col })
        &&& self.line == step_line(pre.buf@[pre.offset as int], pre.line as int)
        &&& self.col == step_col(pre.buf@[pre.offset as int], pre.col as int)
    }

    /// Create a new [`BufIter`] at the start of the buffer.
    pub fn new(buf: &'r [u8]) -> (r: Self)
        requires
            buf@.len() < usize::MAX,
        ensures
            r.buf@ == buf@,
            r.offset == 0,
            r.line == 1,
            r.col == 1,
            r.last_span == (Span { offset: 0usize, len: 1usize, line: 1usize, col: 1usize }),
            r.wf(),
    {
        Self { buf, last_span: Span::new(0, 1, 1, 1), offset: 0, line: 1, col: 1 }
    }

    /// Create a new [`BufIter`] positioned at the given span's start,
    /// inheriting its line/column. This supports partial parsing when
    /// reading from a stream: a captured span seeds a fresh cursor.
    pub fn from_span(buf: &'r [u8], span: Span) -> (r: Self)
        ensures
            r.buf@ == buf@,
            r.offset == span.offset,
            r.line == span.line,
            r.col == span.col,
            r.last_span == (Span { offset: span.offset, len: 1, line: span.line, col: span.col }),
    {
        Self {
            buf,
            last_span: Span::new(span.offset, 1, span.line, span.col),
            offset: span.offset,
            line: span.line,
            col: span.col,
        }
    }

    /// Clone this [`BufIter`], resuming from its current position.
    pub fn fork(&self) -> (r: Self)
        ensures
            r.buf@ == self.buf@,
            r.offset == self.offset,
            r.line == self.line,
            r.col == self.col,
            r.last_span == (Span { offset: self.offset, len: 1, line: self.line, col: self.col }),
            self.wf() ==> r.wf(),
    {
        Self::from_span(self.buf, Span::new(self.offset, 1, self.line, self.col))
    }

    /// Advance the cursor by one byte. The only possible error is
    /// [`ErrorKind::Eof`], reported at the last consumed byte; the cursor
    /// is unchanged in that case.
    pub fn next(&mut self) -> (r: Result<u8, Error>)
        requires
            old(self).wf(),
            old(self).buf@.len() > 0,
        ensures
            final(self).wf(),
            final(self).buf@ == old(self).buf@,
            old(self).offset < old(self).buf@.len() ==> ({
                &&& r == Ok::<u8, Error>(old(self).buf@[old(self).offset as int])
                &&& final(self).advanced_from(*old(self))
            }),
            old(self).offset == old(self).buf@.len() ==> ({
                &&& r == Err::<u8, Error>((Error { span: old(self).spec_span(), kind: ErrorKind::Eof }))
                &&& *final(self) == *old(self)
            }),
    {
        if self.buf.len() == self.offset {
            return Err(self.eof());
        }
        let val = self.buf[self.offset];
        self.last_span = Span::new(self.offset, 1, self.line, self.col);
        self.offset = self.offset + 1;
        if val == 10u8 {
            self.line = self.line + 1;
            self.col = 1;
        } else {
            self.col = self.col + 1;
        }
        Ok(val)
    }

    /// Advance and require the consumed byte to equal `B`, distinguishing
    /// "wrong byte" from "ran out of input while expecting `B`".
    pub fn next_as<const B: u8>(&mut self) -> (r: Result<u8, Error>)
        requires
            old(self).wf(),
            old(self).buf@.len() > 0,
        ensures
            final(self).wf(),
            final(self).buf@ == old(self).buf@,
            old(self).offset == old(self).buf@.len() ==> ({
                &&& r == Err::<u8, Error>((Error { span: old(self).spec_span(), kind: ErrorKind::ExpectEof(B) }))
                &&& *final(self) == *old(self)
            }),
            old(self).offset < old(self).buf@.len() ==> ({
                let found = old(self).buf@[old(self).offset as int];
                &&& final(self).advanced_from(*old(self))
                &&& found == B ==> r == Ok::<u8, Error>(B)
                &&& found != B ==> r == Err::<u8, Error>((Error {
                    span: final(self).spec_span(),
                    kind: ErrorKind::ExpectFound(B, found),
                }))
            }),
    {
        match self.next() {
            Ok(ok) if ok == B => Ok(B),
            Ok(ok) => Err(self.error(ErrorKind::ExpectFound(B, ok))),
            Err(err) if err.is_eof() => Err(self.error(ErrorKind::ExpectEof(B))),
            Err(err) => Err(err),
        }
    }

    /// Advance and require the consumed byte to be an ASCII letter.
    pub fn next_alphabetic(&mut self) -> (r: Result<u8, Error>)
        requires
            old(self).wf(),
            old(self).buf@.len() > 0,
        ensures
            final(self).wf(),
            final(self).buf@ == old(self).buf@,
            old(self).offset == old(self).buf@.len() ==> ({
                &&& r == Err::<u8, Error>((Error { span: old(self).spec_span(), kind: ErrorKind::Eof }))
                &&& *final(self) == *old(self)
            }),
            old(self).offset < old(self).buf@.len() ==> ({
                let found = old(self).buf@[old(self).offset as int];
                &&& final(self).advanced_from(*old(self))
                &&& is_alpha_byte(found) ==> r == Ok::<u8, Error>(found)
                &&& !is_alpha_byte(found) ==> r == Err::<u8, Error>((Error {
                    span: final(self).spec_span(),
                    kind: ErrorKind::ExpectAlphabetic(found),
                }))
            }),
    {
        match self.next()? {
            ok if alpha_byte(ok) => Ok(ok),
            ok => Err(self.error(ErrorKind::ExpectAlphabetic(ok))),
        }
    }

    /// Advance and require the consumed byte to be an identifier byte
    /// (letter, digit or underscore).
    pub fn next_ident(&mut self) -> (r: Result<u8, Error>)
        requires
            old(self).wf(),
            old(self).buf@.len() > 0,
        ensures
            final(self).wf(),
            final(self).buf@ == old(self).buf@,
            old(self).offset == old(self).buf@.len() ==> ({
                &&& r == Err::<u8, Error>((Error { span: old(self).spec_span(), kind: ErrorKind::Eof }))
                &&& *final(self) == *old(self)
            }),
            old(self).offset < old(self).buf@.len() ==> ({
                let found = old(self).buf@[old(self).offset as int];
                &&& final(self).advanced_from(*old(self))
                &&& is_ident_byte(found) ==> r == Ok::<u8, Error>(found)
                &&& !is_ident_byte(found) ==> r == Err::<u8, Error>((Error {
                    span: final(self).spec_span(),
                    kind: ErrorKind::ExpectIdent(found),
                }))
            }),
    {
        match self.next()? {
            ok if alnum_byte(ok) => Ok(ok),
            95u8 => Ok(95u8),
            ok => Err(self.error(ErrorKind::ExpectIdent(ok))),
        }
    }

    /// [`BufIter::next`] after a successful peek: a byte is known to
    /// remain, so advancing cannot fail.
    pub fn next_peeked(&mut self)
        requires
            old(self).wf(),
            old(self).offset < old(self).buf@.len(),
        ensures
            final(self).wf(),
            final(self).advanced_from(*old(self)),
    {
        match self.next() {
            Ok(_) => {}
            Err(_) => {
                proof {
                    assert(false);
                }
            }
        }
    }

    /// Keep advancing while the next byte is ASCII whitespace.
    pub fn skip_whitespaces(&mut self)
        requires
            old(self).wf(),
        ensures
            final(self).wf(),
            final(self).buf@ == old(self).buf@,
            final(self).offset == ws_run_end(old(self).buf@, old(self).offset as int),
            final(self).line == line_after(
                old(self).buf@,
                old(self).offset as int,
                final(self).offset as int,
                old(self).line as int,
            ),
            final(self).col == col_after(
                old(self).buf@,
                old(self).offset as int,
                final(self).offset as int,
                old(self).col as int,
            ),
            final(self).offset == old(self).offset ==> final(self).last_span == old(self).last_span,
            old(self).offset < final(self).offset ==> final(self).last_span == (Span {
                offset: (final(self).offset - 1) as usize,
                len: 1,
                line: line_after(
                    old(self).buf@,
                    old(self).offset as int,
                    final(self).offset - 1,
                    old(self).line as int,
                ) as usize,
                col: col_after(
                    old(self).buf@,
                    old(self).offset as int,
                    final(self).offset - 1,
                    old(self).col as int,
                ) as usize,
            }),
    {
        let ghost pre = *self;
        loop
            invariant_except_break
                self.wf(),
                self.buf@ == pre.buf@,
                pre.offset <= self.offset,
                ws_run_end(self.buf@, self.offset as int) == ws_run_end(pre.buf@, pre.offset as int),
                self.line == line_after(pre.buf@, pre.offset as int, self.offset as int, pre.line as int),
                self.col == col_after(pre.buf@, pre.offset as int, self.offset as int, pre.col as int),
                self.offset == pre.offset ==> self.last_span == pre.last_span,
                pre.offset < self.offset ==> self.last_span == (Span {
                    offset: (self.offset - 1) as usize,
                    len: 1,
                    line: line_after(pre.buf@, pre.offset as int, self.offset - 1, pre.line as int) as usize,
                    col: col_after(pre.buf@, pre.offset as int, self.offset - 1, pre.col as int) as usize,
                }),
            ensures
                self.wf(),
                self.buf@ == pre.buf@,
                self.offset == ws_run_end(pre.buf@, pre.offset as int),
                self.line == line_after(pre.buf@, pre.offset as int, self.offset as int, pre.line as int),
                self.col == col_after(pre.buf@, pre.offset as int, self.offset as int, pre.col as int),
                self.offset == pre.offset ==> self.last_span == pre.last_span,
                pre.offset < self.offset ==> self.last_span == (Span {
                    offset: (self.offset - 1) as usize,
                    len: 1,
                    line: line_after(pre.buf@, pre.offset as int, self.offset - 1, pre.line as int) as usize,
                    col: col_after(pre.buf@, pre.offset as int, self.offset - 1, pre.col as int) as usize,
                }),
            decreases self.buf@.len() - self.offset,
        {
            match self.peek() {
                Some(b) if whitespace_byte(*b) => self.next_peeked(),
                _ => break,
            }
        }
    }

    /// Collect an identifier: the first byte must be a letter or an
    /// underscore, and the run then extends greedily over letters and
    /// digits. Stops (rather than failing) at end of input.
    pub fn collect_ident(&mut self) -> (r: Result<Span, Error>)
        requires
            old(self).wf(),
            old(self).buf@.len() > 0,
        ensures
            final(self).wf(),
            final(self).buf@ == old(self).buf@,
            old(self).offset == old(self).buf@.len() ==> ({
                &&& r == Err::<Span, Error>((Error { span: old(self).spec_span(), kind: ErrorKind::Eof }))
                &&& *final(self) == *old(self)
            }),
            old(self).offset < old(self).buf@.len() ==> ({
                let first = old(self).buf@[old(self).offset as int];
                let end = alnum_run_end(old(self).buf@, old(self).offset + 1);
                &&& !(is_alpha_byte(first) || first == 95) ==> ({
                    &&& r == Err::<Span, Error>((Error {
                        span: (Span {
                            offset: old(self).offset,
                            len: 1,
                            line: old(self).line,
                            col: old(self).col,
                        }),
                        kind: ErrorKind::ExpectAlphabetic(first),
                    }))
                    &&& final(self).advanced_from(*old(self))
                })
                &&& (is_alpha_byte(first) || first == 95) ==> ({
                    &&& r == Ok::<Span, Error>((Span {
                        offset: old(self).offset,
                        len: (end - old(self).offset) as usize,
                        line: old(self).line,
                        col: old(self).col,
                    }))
                    &&& final(self).offset == end
                    &&& final(self).line == line_after(
                        old(self).buf@,
                        old(self).offset as int,
                        end,
                        old(self).line as int,
                    )
                    &&& final(self).col == col_after(
                        old(self).buf@,
                        old(self).offset as int,
                        end,
                        old(self).col as int,
                    )
                    &&& final(self).last_span == (Span {
                        offset: (end - 1) as usize,
                        len: 1,
                        line: line_after(
                            old(self).buf@,
                            old(self).offset as int,
                            end - 1,
                            old(self).line as int,
                        ) as usize,
                        col: col_after(
                            old(self).buf@,
                            old(self).offset as int,
                            end - 1,
                            old(self).col as int,
                        ) as usize,
                    })
                    &&& forall|k: int|
                        old(self).offset + 1 <= k < end ==> is_alnum_byte(
                            #[trigger] old(self).buf@[k],
                        )
                    &&& end < old(self).buf@.len() ==> !is_alnum_byte(old(self).buf@[end])
                })
            }),
    {
        let ghost pre = *self;
        proof {
            if pre.offset < pre.buf@.len() {
                lemma_alnum_run_end(pre.buf@, pre.offset + 1);
            }
        }
        match self.next()? {
            95u8 => {}
            ok if alpha_byte(ok) => {}
            ok => {
                return Err(self.error(ErrorKind::ExpectAlphabetic(ok)));
            }
        }
        let span = self.span();
        proof {
            reveal_with_fuel(line_after, 2);
            reveal_with_fuel(col_after, 2);
        }
        loop
            invariant_except_break
                self.wf(),
                self.buf@ == pre.buf@,
                pre.offset < self.offset,
                alnum_run_end(self.buf@, self.offset as int) == alnum_run_end(
                    pre.buf@,
                    pre.offset + 1,
                ),
                self.line == line_after(pre.buf@, pre.offset as int, self.offset as int, pre.line as int),
                self.col == col_after(pre.buf@, pre.offset as int, self.offset as int, pre.col as int),
                self.last_span == (Span {
                    offset: (self.offset - 1) as usize,
                    len: 1,
                    line: line_after(pre.buf@, pre.offset as int, self.offset - 1, pre.line as int) as usize,
                    col: col_after(pre.buf@, pre.offset as int, self.offset - 1, pre.col as int) as usize,
                }),
            ensures
                self.wf(),
                self.buf@ == pre.buf@,
                pre.offset < self.offset,
                self.offset == alnum_run_end(pre.buf@, pre.offset + 1),
                self.line == line_after(pre.buf@, pre.offset as int, self.offset as int, pre.line as int),
                self.col == col_after(pre.buf@, pre.offset as int, self.offset as int, pre.col as int),
                self.last_span == (Span {
                    offset: (self.offset - 1) as usize,
                    len: 1,
                    line: line_after(pre.buf@, pre.offset as int, self.offset - 1, pre.line as int) as usize,
                    col: col_after(pre.buf@, pre.offset as int, self.offset - 1, pre.col as int) as usize,
                }),
            decreases self.buf@.len() - self.offset,
        {
            match self.peek() {
                Some(ok) if alnum_byte(*ok) => self.next_peeked(),
                Some(_) => break,
                None => break,
            }
        }
        Ok(span.into_spanned(&self.span()))
    }

    /// Collect bytes up to (but not including) the first occurrence of
    /// `B`. At least one byte must be collected. Stops (rather than
    /// failing) at end of input.
    pub fn collect_as<const B: u8>(&mut self) -> (r: Result<Span, Error>)
        requires
            old(self).wf(),
            old(self).buf@.len() > 0,
        ensures
            final(self).wf(),
            final(self).buf@ == old(self).buf@,
            old(self).offset == old(self).buf@.len() ==> ({
                &&& r == Err::<Span, Error>((Error { span: old(self).spec_span(), kind: ErrorKind::ExpectEof(B) }))
                &&& *final(self) == *old(self)
            }),
            old(self).offset < old(self).buf@.len() ==> ({
                let first = old(self).buf@[old(self).offset as int];
                let end = stop_run_end(old(self).buf@, old(self).offset + 1, B);
                &&& first == B ==> ({
                    &&& r == Err::<Span, Error>((Error {
                        span: (Span {
                            offset: old(self).offset,
                            len: 1,
                            line: old(self).line,
                            col: old(self).col,
                        }),
                        kind: ErrorKind::ExpectFound(B, B),
                    }))
                    &&& final(self).advanced_from(*old(self))
                })
                &&& first != B ==> ({
                    &&& r == Ok::<Span, Error>((Span {
                        offset: old(self).offset,
                        len: (end - old(self).offset) as usize,
                        line: old(self).line,
                        col: old(self).col,
                    }))
                    &&& final(self).offset == end
                    &&& final(self).line == line_after(
                        old(self).buf@,
                        old(self).offset as int,
                        end,
                        old(self).line as int,
                    )
                    &&& final(self).col == col_after(
                        old(self).buf@,
                        old(self).offset as int,
                        end,
                        old(self).col as int,
                    )
                    &&& final(self).last_span == (Span {
                        offset: (end - 1) as usize,
                        len: 1,
                        line: line_after(
                            old(self).buf@,
                            old(self).offset as int,
                            end - 1,
                            old(self).line as int,
                        ) as usize,
                        col: col_after(
                            old(self).buf@,
                            old(self).offset as int,
                            end - 1,
                            old(self).col as int,
                        ) as usize,
                    })
                    &&& forall|k: int|
                        old(self).offset + 1 <= k < end ==> #[trigger] old(self).buf@[k] != B
                    &&& end < old(self).buf@.len() ==> old(self).buf@[end] == B
                })
            }),
    {
        let ghost pre = *self;
        proof {
            if pre.offset < pre.buf@.len() {
                lemma_stop_run_end(pre.buf@, pre.offset + 1, B);
            }
        }
        let checked: Result<u8, Error> = match self.next() {
            Ok(ok) if ok != B => Ok(ok),
            Ok(ok) => Err(self.error(ErrorKind::ExpectFound(B, ok))),
            Err(err) if err.is_eof() => Err(self.error(ErrorKind::ExpectEof(B))),
            Err(err) => Err(err),
        };
        let _first = checked?;
        let span = self.span();
        proof {
            reveal_with_fuel(line_after, 2);
            reveal_with_fuel(col_after, 2);
        }
        loop
            invariant_except_break
                self.wf(),
                self.buf@ == pre.buf@,
                pre.offset < self.offset,
                stop_run_end(self.buf@, self.offset as int, B) == stop_run_end(
                    pre.buf@,
                    pre.offset + 1,
                    B,
                ),
                self.line == line_after(pre.buf@, pre.offset as int, self.offset as int, pre.line as int),
                self.col == col_after(pre.buf@, pre.offset as int, self.offset as int, pre.col as int),
                self.last_span == (Span {
                    offset: (self.offset - 1) as usize,
                    len: 1,
                    line: line_after(pre.buf@, pre.offset as int, self.offset - 1, pre.line as int) as usize,
                    col: col_after(pre.buf@, pre.offset as int, self.offset - 1, pre.col as int) as usize,
                }),
            ensures
                self.wf(),
                self.buf@ == pre.buf@,
                pre.offset < self.offset,
                self.offset == stop_run_end(pre.buf@, pre.offset + 1, B),
                self.line == line_after(pre.buf@, pre.offset as int, self.offset as int, pre.line as int),
                self.col == col_after(pre.buf@, pre.offset as int, self.offset as int, pre.col as int),
                self.last_span == (Span {
                    offset: (self.offset - 1) as usize,
                    len: 1,
                    line: line_after(pre.buf@, pre.offset as int, self.offset - 1, pre.line as int) as usize,
                    col: col_after(pre.buf@, pre.offset as int, self.offset - 1, pre.col as int) as usize,
                }),
            decreases self.buf@.len() - self.offset,
        {
            match self.peek() {
                Some(some) if *some != B => self.next_peeked(),
                Some(_) => break,
                None => break,
            }
        }
        Ok(span.into_spanned(&self.span()))
    }

    /// Collect bytes while a predicate holds of them. At least the first
    /// byte must satisfy the predicate. Stops (rather than failing) at end
    /// of input.
    pub fn collect_with<F>(&mut self, predicate: F) -> (r: Result<Span, Error>) where
        F: Fn(&u8) -> bool,

        requires
            old(self).wf(),
            old(self).buf@.len() > 0,
            forall|b: u8| call_requires(predicate, (&b,)),
        ensures
            final(self).wf(),
            final(self).buf@ == old(self).buf@,
            old(self).offset == old(self).buf@.len() ==> ({
                &&& r == Err::<Span, Error>((Error { span: old(self).spec_span(), kind: ErrorKind::Eof }))
                &&& *final(self) == *old(self)
            }),
            old(self).offset < old(self).buf@.len() ==> ({
                let first = old(self).buf@[old(self).offset as int];
                &&& r is Err ==> ({
                    &&& call_ensures(predicate, (&first,), false)
                    &&& r == Err::<Span, Error>((Error {
                        span: (Span {
                            offset: old(self).offset,
                            len: 1,
                            line: old(self).line,
                            col: old(self).col,
                        }),
                        kind: ErrorKind::Unexpected(first),
                    }))
                    &&& final(self).advanced_from(*old(self))
                })
                &&& r is Ok ==> ({
                    &&& call_ensures(predicate, (&first,), true)
                    &&& old(self).offset < final(self).offset <= old(self).buf@.len()
                    &&& forall|k: int|
                        old(self).offset < k < final(self).offset ==> call_ensures(
                            predicate,
                            (&old(self).buf@[k],),
                            true,
                        )
                    &&& final(self).offset < old(self).buf@.len() ==> call_ensures(
                        predicate,
                        (&old(self).buf@[final(self).offset as int],),
                        false,
                    )
                    &&& r == Ok::<Span, Error>((Span {
                        offset: old(self).offset,
                        len: (final(self).offset - old(self).offset) as usize,
                        line: old(self).line,
                        col: old(self).col,
                    }))
                    &&& final(self).line == line_after(
                        old(self).buf@,
                        old(self).offset as int,
                        final(self).offset as int,
                        old(self).line as int,
                    )
                    &&& final(self).last_span == (Span {
                        offset: (final(self).offset - 1) as usize,
                        len: 1,
                        line: line_after(
                            old(self).buf@,
                            old(self).offset as int,
                            final(self).offset - 1,
                            old(self).line as int,
                        ) as usize,
                        col: col_after(
                            old(self).buf@,
                            old(self).offset as int,
                            final(self).offset - 1,
                            old(self).col as int,
                        ) as usize,
                    })
                    &&& final(self).col == col_after(
                        old(self).buf@,
                        old(self).offset as int,
                        final(self).offset as int,
                        old(self).col as int,
                    )
                })
            }),
    {
        let ghost pre = *self;
        match self.next()? {
            b if predicate(&b) => {}
            b => {
                return Err(self.error(ErrorKind::Unexpected(b)));
            }
        }
        let span = self.span();
        proof {
            reveal_with_fuel(line_after, 2);
            reveal_with_fuel(col_after, 2);
        }
        loop
            invariant_except_break
                self.wf(),
                self.buf@ == pre.buf@,
                pre.offset < self.offset <= pre.buf@.len(),
                forall|b: u8| call_requires(predicate, (&b,)),
                forall|k: int|
                    pre.offset < k < self.offset ==> call_ensures(
                        predicate,
                        (&pre.buf@[k],),
                        true,
                    ),
                self.line == line_after(pre.buf@, pre.offset as int, self.offset as int, pre.line as int),
                self.col == col_after(pre.buf@, pre.offset as int, self.offset as int, pre.col as int),
                self.last_span == (Span {
                    offset: (self.offset - 1) as usize,
                    len: 1,
                    line: line_after(pre.buf@, pre.offset as int, self.offset - 1, pre.line as int) as usize,
                    col: col_after(pre.buf@, pre.offset as int, self.offset - 1, pre.col as int) as usize,
                }),
            ensures
                self.wf(),
                self.buf@ == pre.buf@,
                pre.offset < self.offset <= pre.buf@.len(),
                forall|k: int|
                    pre.offset < k < self.offset ==> call_ensures(
                        predicate,
                        (&pre.buf@[k],),
                        true,
                    ),
                self.offset < pre.buf@.len() ==> call_ensures(
                    predicate,
                    (&pre.buf@[self.offset as int],),
                    false,
                ),
                self.line == line_after(pre.buf@, pre.offset as int, self.offset as int, pre.line as int),
                self.col == col_after(pre.buf@, pre.offset as int, self.offset as int, pre.col as int),
                self.last_span == (Span {
                    offset: (self.offset - 1) as usize,
                    len: 1,
                    line: line_after(pre.buf@, pre.offset as int, self.offset - 1, pre.line as int) as usize,
                    col: col_after(pre.buf@, pre.offset as int, self.offset - 1, pre.col as int) as usize,
                }),
            decreases self.buf@.len() - self.offset,
        {
            match self.peek() {
                Some(some) if predicate(some) => self.next_peeked(),
                Some(_) => break,
                None => break,
            }
        }
        Ok(span.into_spanned(&self.span()))
    }

    /// Peek the next byte without advancing. `None` signals end of input.
    pub fn peek(&self) -> (r: Option<&u8>)
        requires
            self.wf(),
        ensures
            match r {
                Some(b) => self.offset < self.buf@.len() && *b == self.buf@[self.offset as int],
                None => self.offset == self.buf@.len(),
            },
    {
        if self.offset < self.buf.len() {
            Some(&self.buf[self.offset])
        } else {
            None
        }
    }

    /// Peek `n` bytes forward without advancing. `None` signals end of
    /// input.
    pub fn peek_n(&self, n: usize) -> (r: Option<&u8>)
        requires
            self.wf(),
            self.offset + n <= usize::MAX,
        ensures
            match r {
                Some(b) => self.offset + n < self.buf@.len() && *b == self.buf@[self.offset + n],
                None => self.offset + n >= self.buf@.len(),
            },
    {
        let at = self.offset + n;
        if at < self.buf.len() {
            Some(&self.buf[at])
        } else {
            None
        }
    }

    /// [`BufIter::peek`], but report end of input as an [`Error`].
    pub fn peek_required(&self) -> (r: Result<&u8, Error>)
        requires
            self.wf(),
            self.buf@.len() > 0,
        ensures
            match r {
                Ok(b) => self.offset < self.buf@.len() && *b == self.buf@[self.offset as int],
                Err(e) => self.offset == self.buf@.len() && e == (Error {
                    span: self.spec_span(),
                    kind: ErrorKind::Eof,
                }),
            },
    {
        match self.peek() {
            Some(some) => Ok(some),
            None => Err(self.eof()),
        }
    }

    /// [`BufIter::peek`] and compare with the given byte; false at end of
    /// input.
    pub fn peek_as<const B: u8>(&self) -> (r: bool)
        requires
            self.wf(),
        ensures
            r == (self.offset < self.buf@.len() && self.buf@[self.offset as int] == B),
    {
        match self.peek() {
            Some(b) => *b == B,
            None => false,
        }
    }

    /// [`BufIter::peek_required`] combined with [`BufIter::peek_as`].
    pub fn peek_required_as<const B: u8>(&self) -> (r: Result<bool, Error>)
        requires
            self.wf(),
            self.buf@.len() > 0,
        ensures
            match r {
                Ok(b) => self.offset < self.buf@.len() && b == (self.buf@[self.offset as int]
                    == B),
                Err(e) => self.offset == self.buf@.len() && e == (Error {
                    span: self.spec_span(),
                    kind: ErrorKind::Eof,
                }),
            },
    {
        match self.peek_required() {
            Ok(b) => Ok(*b == B),
            Err(e) => Err(e),
        }
    }

    /// The source buffer.
    pub fn source(&self) -> (r: &[u8])
        ensures
            r@ == self.buf@,
    {
        self.buf
    }

    /// The source buffer's length.
    pub fn len(&self) -> (r: usize)
        ensures
            r == self.buf@.len(),
    {
        self.buf.len()
    }

    /// How many bytes remain.
    pub fn remaining(&self) -> (r: usize)
        requires
            self.wf(),
        ensures
            r == self.buf@.len() - self.offset,
    {
        self.len() - self.offset
    }

    /// Are no bytes left?
    pub fn is_empty(&self) -> (r: bool)
        requires
            self.wf(),
        ensures
            r == (self.offset == self.buf@.len()),
    {
        self.remaining() == 0
    }

    /// The [`Span`] of the byte most recently advanced over, at the line
    /// and column that byte itself stood at. Advancing at least once
    /// first is part of this cursor's contract: a span needs a consumed
    /// byte to anchor to.
    pub fn span(&self) -> (r: Span)
        requires
            self.offset > 0,
        ensures
            r == self.spec_span(),
    {
        self.last_span
    }

    /// Create an [`Error`] at the current span.
    pub fn error(&self, kind: ErrorKind) -> (r: Error)
        requires
            self.offset > 0,
        ensures
            r == (Error { span: self.spec_span(), kind }),
    {
        Error::new(self.span(), kind)
    }

    /// Create an [`ErrorKind::Eof`] error at the current span.
    pub fn eof(&self) -> (r: Error)
        requires
            self.offset > 0,
        ensures
            r == (Error { span: self.spec_span(), kind: ErrorKind::Eof }),
    {
        Error::eof(self.span())
    }
}

} // verus!
