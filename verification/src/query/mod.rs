//! From a question to ranked stretches of code.
use vstd::prelude::*;

pub mod answer_laws;
pub mod engine;
pub mod json;
pub mod merger;
pub mod merger_groups;
pub mod merger_laws;
pub mod merger_order;
pub mod prompt;
pub mod rank_laws;
pub mod ranges;
pub mod reranker;
pub mod run;
pub mod score;
