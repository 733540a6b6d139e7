//! A verified hexadecimal rendering library.
//!
//! The library turns a byte buffer into line-structured hex text: an optional
//! zero-padded offset column, space-separated groups of hex digits, and an
//! optional ASCII translation column.  A small reader component validates a
//! requested byte range against a file's length, and a command-line parser
//! builds the configuration.  Every function's behaviour is pinned down by a
//! specification over sequences of characters and bytes.

pub mod args;
pub mod hexdump;
pub mod text;
