//! A verified parser for a small line-oriented lyrics markup language:
//! optional `title:`/`artist:` metadata lines, section headers (`VERSE[n]`,
//! `CHORUS`, `BRIDGE`, or a bracketed custom label), and body lines.
//!
//! The crate turns raw text into a typed document tree, validates the
//! structural rules of the language, reports positioned parse errors, and
//! serializes documents to a textual interchange format whose round trip
//! is proved.

pub mod ast;
pub mod codec;
pub mod grammar;
pub mod numbers;
pub mod parser;
pub mod text;
