//! A verified parser for a line-oriented, declarative package manifest
//! ("Brewfile"-style). The input is a UTF-8 text buffer holding `tap` and
//! `brew` directives, optionally annotated by preceding `##` metadata lines;
//! the output is an ordered document of annotated directives.
//!
//! Every parsing function is specified against a mathematical reference
//! parser over `Seq<char>` and proved to return exactly what that reference
//! parser defines, for every input.

pub mod brew_command;
pub mod chars;
pub mod error;
pub mod metadata;
pub mod metafield;
pub mod parsers;
pub mod string_parser;
pub mod tap_command;
