//! Rendering of parsed syntax trees and of pattern-match results.
//!
//! The crate models a syntax tree as plain data (node kind, named flag,
//! field name, row/column spans, children) and renders it as an indented,
//! span-annotated s-expression by an iterative, cursor-driven walk whose
//! stack depth does not grow with tree depth.  A second component formats
//! the grouped matches and the flattened captures that a pattern-matching
//! engine yields over such a tree.  Every rendering function carries a
//! contract pinning its output to a recursive specification.

pub mod numfmt;
pub mod printer;
pub mod query_fmt;
pub mod tree;
