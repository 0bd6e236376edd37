//! A lenient markup parser and the flattening of its trees into display events.

pub mod attributes;
pub mod browser;
pub mod keys;
pub mod machine;
pub mod nesting;
pub mod page;
pub mod scanner;
pub mod shape;
pub mod text;
pub mod tree;
pub mod url;
pub mod xml;
