//! Extraction of a definition-like passage from a parsed HTML tree.
//!
//! The library walks a node tree looking for the first bare paragraph that
//! follows a `table` element, collects the text of that paragraph's subtree,
//! and then cleans the collected text for display.

pub mod dom;
pub mod laws;
pub mod sanitize;
pub mod text;
pub mod walker;
