//! Navigation and search core of a terminal pager.
//!
//! The crate turns key events into commands, commands into moves of a cursor
//! over a seekable byte source, and keeps that cursor on the first byte of a
//! UTF-8 code point and on the start of a display line.

pub mod commands;
pub mod error;
pub mod input;
pub mod reader;
pub mod searcher;
pub mod source;
pub mod string_util;
pub mod utf8_validation;
pub mod util;
