//! Semantic code search: syntax extraction, index maintenance and query
//! answering, as a verified library.
use vstd::prelude::*;

pub mod embedding;
pub mod indexing;
pub mod lists;
pub mod mcp;
pub mod parsing;
pub mod paths;
pub mod query;
pub mod store;
pub mod text;
