//! The core of a diff pager: a line classifier and hunk buffer that turn the
//! lines of a unified diff into a sequence of rendering events, and small
//! parsers for the metadata lines of a diff.

pub mod driver;
pub mod laws;
pub mod model;
pub mod parse;
pub mod text;
