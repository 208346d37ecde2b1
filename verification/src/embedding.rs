//! What is told the embedding service of a text.
use vstd::prelude::*;

verus! {

/// Input type hint for the embedding API.
#[derive(Debug, Clone, Copy, PartialEq, Eq, Structural)]
pub enum InputType {
    Document,
    Query,
}

pub open spec fn input_type_name(t: InputType) -> Seq<char> {
    match t {
        InputType::Document => "document"@,
        InputType::Query => "query"@,
    }
}

impl InputType {
    pub fn as_str(&self) -> (r: &'static str)
        ensures
            r@ == input_type_name(*self),
    {
        match self {
            InputType::Document => "document",
            InputType::Query => "query",
        }
    }
}

}
