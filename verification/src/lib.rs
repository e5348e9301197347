//! A small book library: the records, the rules that order and page them,
//! the text that the command line shows, and the parsing of its arguments.
//! Storage lives outside this crate; everything here is plain data.

pub mod text;
pub mod book;
pub mod order;
pub mod listing;
pub mod error;
pub mod actions;
pub mod stats;
pub mod command;
