//! A command-language front end for a todo manager.
//!
//! One line of text is split into tokens ([`tokenizer`]) and the tokens are
//! parsed into a typed command ([`parser`]), or refused with an error:
//!
//! ```text
//! todo create "<title>" [-d"<description>"] [-s"<start>"] [-e"<end>"]
//! todo read "<id>" ["<id>" ...]
//! todo update "<id>" ["<id>" ...] [-t"<title>"] [-d"<description>"] [-s"<start>"] [-e"<end>"]
//! todo delete "<id>" ["<id>" ...]
//! user
//! calendar
//! ```
//!
//! What a line means is stated by two spec functions: its tokens are
//! [`tokenizer::lex`] of its characters, and its command is
//! [`parser::command_of`] of its tokens. [`parser::Parser::parse`] is proved
//! to return exactly that.
//!
//! Three things are not decided here but asked of std and chrono, and
//! named: whether a character is alphabetic, whether it is whitespace, and
//! which timestamp a text stands for.

pub mod command;
pub mod parser;
pub mod timestamp;
pub mod token;
pub mod tokenizer;
