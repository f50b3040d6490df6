//! A line-oriented configuration editor: a setting names a file, a pattern
//! (single line or bounded region), and a literal template with a `{value}`
//! placeholder; the engine writes a new value into the file or reads the
//! current one back out.

pub mod args;
pub mod codec;
pub mod config;
pub mod engine;
pub mod jsonio;
pub mod laws;
pub mod lines;
pub mod matcher;
pub mod modifier;
pub mod parse;
pub mod regexes;
pub mod registry;
pub mod setting;
pub mod text;
pub mod util;
