//! Byte classification and line/column bookkeeping shared by every layer.
//!
//! All classification is ASCII-only: token boundaries are decided byte by
//! byte, and a byte outside the ASCII range is simply "everything else".

use vstd::prelude::*;

verus! {

/// Relies on `String::push`: it appends exactly the one given character
/// at the end of the string.
pub assume_specification[ String::push ](s: &mut String, ch: char)
    ensures
        final(s)@ == old(s)@ + seq![ch],
;

/// The five ASCII whitespace bytes: space, tab, line feed, form feed,
/// carriage return.
pub open spec fn is_ws_byte(b: u8) -> bool {
    b == 32 || b == 9 || b == 10 || b == 12 || b == 13
}

/// ASCII letter.
pub open spec fn is_alpha_byte(b: u8) -> bool {
    (65 <= b <= 90) || (97 <= b <= 122)
}

/// ASCII digit.
pub open spec fn is_digit_byte(b: u8) -> bool {
    48 <= b <= 57
}

/// ASCII letter or digit.
pub open spec fn is_alnum_byte(b: u8) -> bool {
    is_alpha_byte(b) || is_digit_byte(b)
}

/// Identifier byte: letter, digit or underscore.
pub open spec fn is_ident_byte(b: u8) -> bool {
    is_alnum_byte(b) || b == 95
}

#[verifier::when_used_as_spec(is_ws_byte)]
pub fn whitespace_byte(b: u8) -> (r: bool)
    ensures
        r == is_ws_byte(b),
{
    b == 32u8 || b == 9u8 || b == 10u8 || b == 12u8 || b == 13u8
}

#[verifier::when_used_as_spec(is_alpha_byte)]
pub fn alpha_byte(b: u8) -> (r: bool)
    ensures
        r == is_alpha_byte(b),
{
    (65u8 <= b && b <= 90u8) || (97u8 <= b && b <= 122u8)
}

#[verifier::when_used_as_spec(is_alnum_byte)]
pub fn alnum_byte(b: u8) -> (r: bool)
    ensures
        r == is_alnum_byte(b),
{
    alpha_byte(b) || (48u8 <= b && b <= 57u8)
}

#[verifier::when_used_as_spec(is_ident_byte)]
pub fn ident_byte(b: u8) -> (r: bool)
    ensures
        r == is_ident_byte(b),
{
    alnum_byte(b) || b == 95u8
}

/// Line counter after consuming one byte: a line feed starts a new line.
pub open spec fn step_line(b: u8, line: int) -> int {
    if b == 10 {
        line + 1
    } else {
        line
    }
}

/// Column counter after consuming one byte: a line feed resets the column
/// to 1, any other byte moves it one to the right.
pub open spec fn step_col(b: u8, col: int) -> int {
    if b == 10 {
        1
    } else {
        col + 1
    }
}

/// Line counter after consuming `buf[i..j]`, starting from `line`.
pub open spec fn line_after(buf: Seq<u8>, i: int, j: int, line: int) -> int
    decreases j - i,
{
    if j <= i {
        line
    } else {
        step_line(buf[j - 1], line_after(buf, i, j - 1, line))
    }
}

/// Column counter after consuming `buf[i..j]`, starting from `col`.
pub open spec fn col_after(buf: Seq<u8>, i: int, j: int, col: int) -> int
    decreases j - i,
{
    if j <= i {
        col
    } else {
        step_col(buf[j - 1], col_after(buf, i, j - 1, col))
    }
}

/// End of the maximal whitespace run starting at `i`.
pub open spec fn ws_run_end(buf: Seq<u8>, i: int) -> int
    decreases buf.len() - i,
{
    if i >= buf.len() || !is_ws_byte(buf[i]) {
        i
    } else {
        ws_run_end(buf, i + 1)
    }
}

/// End of the maximal letter-or-digit run starting at `i`.
pub open spec fn alnum_run_end(buf: Seq<u8>, i: int) -> int
    decreases buf.len() - i,
{
    if i >= buf.len() || !is_alnum_byte(buf[i]) {
        i
    } else {
        alnum_run_end(buf, i + 1)
    }
}

/// End of the maximal identifier-byte run starting at `i`.
pub open spec fn ident_run_end(buf: Seq<u8>, i: int) -> int
    decreases buf.len() - i,
{
    if i >= buf.len() || !is_ident_byte(buf[i]) {
        i
    } else {
        ident_run_end(buf, i + 1)
    }
}

/// End of the maximal run of non-whitespace bytes starting at `i`.
pub open spec fn nonws_run_end(buf: Seq<u8>, i: int) -> int
    decreases buf.len() - i,
{
    if i >= buf.len() || is_ws_byte(buf[i]) {
        i
    } else {
        nonws_run_end(buf, i + 1)
    }
}

/// End of the maximal run of bytes other than `stop`, starting at `i`.
pub open spec fn stop_run_end(buf: Seq<u8>, i: int, stop: u8) -> int
    decreases buf.len() - i,
{
    if i >= buf.len() || buf[i] == stop {
        i
    } else {
        stop_run_end(buf, i + 1, stop)
    }
}

/// What `ws_run_end` delivers: a position between `i` and the end of the
/// buffer, with every byte of the run whitespace and the byte just past it
/// (if any) not.
pub proof fn lemma_ws_run_end(buf: Seq<u8>, i: int)
    requires
        0 <= i <= buf.len(),
    ensures
        i <= ws_run_end(buf, i) <= buf.len(),
        forall|k: int| i <= k < ws_run_end(buf, i) ==> is_ws_byte(#[trigger] buf[k]),
        ws_run_end(buf, i) < buf.len() ==> !is_ws_byte(buf[ws_run_end(buf, i)]),
    decreases buf.len() - i,
{
    if i < buf.len() && is_ws_byte(buf[i]) {
        lemma_ws_run_end(buf, i + 1);
    }
}

/// As `lemma_ws_run_end`, for letter-or-digit runs.
pub proof fn lemma_alnum_run_end(buf: Seq<u8>, i: int)
    requires
        0 <= i <= buf.len(),
    ensures
        i <= alnum_run_end(buf, i) <= buf.len(),
        forall|k: int| i <= k < alnum_run_end(buf, i) ==> is_alnum_byte(#[trigger] buf[k]),
        alnum_run_end(buf, i) < buf.len() ==> !is_alnum_byte(buf[alnum_run_end(buf, i)]),
    decreases buf.len() - i,
{
    if i < buf.len() && is_alnum_byte(buf[i]) {
        lemma_alnum_run_end(buf, i + 1);
    }
}

/// As `lemma_ws_run_end`, for identifier-byte runs.
pub proof fn lemma_ident_run_end(buf: Seq<u8>, i: int)
    requires
        0 <= i <= buf.len(),
    ensures
        i <= ident_run_end(buf, i) <= buf.len(),
        forall|k: int| i <= k < ident_run_end(buf, i) ==> is_ident_byte(#[trigger] buf[k]),
        ident_run_end(buf, i) < buf.len() ==> !is_ident_byte(buf[ident_run_end(buf, i)]),
    decreases buf.len() - i,
{
    if i < buf.len() && is_ident_byte(buf[i]) {
        lemma_ident_run_end(buf, i + 1);
    }
}

/// As `lemma_ws_run_end`, for non-whitespace runs.
pub proof fn lemma_nonws_run_end(buf: Seq<u8>, i: int)
    requires
        0 <= i <= buf.len(),
    ensures
        i <= nonws_run_end(buf, i) <= buf.len(),
        forall|k: int| i <= k < nonws_run_end(buf, i) ==> !is_ws_byte(#[trigger] buf[k]),
        nonws_run_end(buf, i) < buf.len() ==> is_ws_byte(buf[nonws_run_end(buf, i)]),
    decreases buf.len() - i,
{
    if i < buf.len() && !is_ws_byte(buf[i]) {
        lemma_nonws_run_end(buf, i + 1);
    }
}

/// As `lemma_ws_run_end`, for runs of bytes other than `stop`.
pub proof fn lemma_stop_run_end(buf: Seq<u8>, i: int, stop: u8)
    requires
        0 <= i <= buf.len(),
    ensures
        i <= stop_run_end(buf, i, stop) <= buf.len(),
        forall|k: int| i <= k < stop_run_end(buf, i, stop) ==> #[trigger] buf[k] != stop,
        stop_run_end(buf, i, stop) < buf.len() ==> buf[stop_run_end(buf, i, stop)] == stop,
    decreases buf.len() - i,
{
    if i < buf.len() && buf[i] != stop {
        lemma_stop_run_end(buf, i + 1, stop);
    }
}

/// The line counter grows by at most one per byte consumed and never
/// drops; the column counter stays non-negative, stays at least 1 once a
/// byte has been consumed, and grows by at most one per byte.
pub proof fn lemma_line_col_bounds(buf: Seq<u8>, i: int, j: int, line: int, col: int)
    requires
        i <= j,
        col >= 0,
    ensures
        line <= line_after(buf, i, j, line) <= line + (j - i),
        0 <= col_after(buf, i, j, col) <= col + (j - i),
        j > i ==> col_after(buf, i, j, col) >= 1,
    decreases j - i,
{
    if j > i {
        lemma_line_col_bounds(buf, i, j - 1, line, col);
    }
}

} // verus!
