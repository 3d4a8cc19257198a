//! Small file-system tools: a breadth-first `find` walker and a line-oriented
//! `grep` scanner, with the command-line parsing that feeds them.

pub mod query;
pub mod walker;
pub mod scanner;
pub mod command;
