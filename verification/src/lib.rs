//! A small block-layout engine: a document tree and a list of style rules go
//! in, a tree of boxes with pixel geometry comes out.
//!
//! * [`node`]: the document tree.
//! * [`css`]: style rules, selectors, values, and selector matching.
//! * [`style`]: the cascade, and the tree of styled nodes.
//! * [`boxes`]: the box tree and block layout.
//! * [`grammar`]: what the parser reads, as functions on sequences of characters.
//! * [`parser`]: the parser for documents and style sheets.
//! * [`units`]: fixed-point lengths with saturating arithmetic.
//! * [`text`]: character classes and small string helpers.
pub mod units;
pub mod text;
pub mod node;
pub mod css;
pub mod style;
pub mod boxes;
pub mod grammar;
pub mod parser;
