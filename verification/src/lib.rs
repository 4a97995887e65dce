//! Counts semantic code edits: files, classes and functions added, modified
//! or deleted between two versions of a source tree.
pub mod analyzer;
pub mod ast;
pub mod changes;
pub mod lang;
pub mod models;
pub mod rust_syntax;
pub mod scan;
pub mod text;

pub use analyzer::{analyze_file_diff, compare_items};
pub use ast::{parse_items, parse_items_for_path, CodeItem, CodeItemKind};
pub use lang::{language_of_path, Language};
pub use models::{EditEvent, EditKind, EditReport};
pub use rust_syntax::parse_rust_items;
