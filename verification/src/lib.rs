//! Crockford base 32 text for 64-bit unsigned integers, with a choice of
//! letter case.
//!
//! [`encoding`] says what the symbols of a number are and hands them, one
//! byte at a time, to any [`Write`] sink. [`format`] holds the [`Encoder`],
//! which carries the choice of case, and the [`Formatter`], a sink of fixed
//! size that applies the case as the symbols arrive and renders them as a
//! string or into another sink. [`text`] says how bytes read as text.

pub mod encoding;
pub mod format;
pub mod text;

pub use encoding::{encode_into, Write};
pub use format::{Case, Encoder, Formatter};
