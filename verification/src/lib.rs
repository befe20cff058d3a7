//! A layered lexing/parsing toolkit: a position-tracking byte cursor, a
//! tokenizer that classifies runs of bytes, a bounded lookahead buffer over
//! the token stream, and a recursive-descent grammar that builds an
//! HTML-like syntax tree.
//!
//! Bytes flow one way through the layers — bytes, classified tokens,
//! buffered tokens, structured nodes — and every value above the raw buffer
//! is a lightweight [`Span`](buf_iter::Span) descriptor over that shared,
//! borrowed buffer.

pub mod ascii;
pub mod buf_iter;
pub mod parser;
pub mod tokenizer;
pub mod html;
