//! Text rewriting passes for a multi-chapter book: admonition blocks, rule
//! anchors with a book-wide registry, and links into the standard library's
//! documentation.

pub mod text;
pub mod matcher;
pub mod preprocessor;
pub mod admonition;
pub mod rules;
pub mod links;
pub mod xref;
pub mod driver;
pub mod version;
