//! A declarative HTTP request router.
//!
//! Route patterns such as `/users/{id}` or `/static/{path...}` are parsed
//! into segment sequences, grouped into route sets, and checked pairwise for
//! overlap, so that a compiled table routes every request to at most one
//! variant.  A dispatcher then resolves `(method, path)` queries against the
//! table and drives the sequential construction pipeline for the selected
//! variant: path-bound fields, query decoding, guards in declaration order,
//! and a body decoder or a forward to a nested router.

pub mod decl;
pub mod dispatch;
pub mod error;
pub mod method;
pub mod overlap;
pub mod pattern;
pub mod pipeline;
pub mod table;
pub mod text;
