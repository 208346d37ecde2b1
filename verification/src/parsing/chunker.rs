//! Stretches of source files, the units that are embedded and searched.
use vstd::prelude::*;

use crate::text::clone_opt;

verus! {

/// A stretch of a file. Lines are 1-based and inclusive.
#[derive(Debug)]
pub struct Chunk {
    pub file: String,
    pub line_start: u32,
    pub line_end: u32,
    pub content: String,
    /// The qualified name of the symbol that the chunk shows.
    pub symbol_ref: Option<String>,
}

/// What a [`Chunk`] says.
pub struct ChunkView {
    pub file: Seq<char>,
    pub line_start: u32,
    pub line_end: u32,
    pub content: Seq<char>,
    pub symbol_ref: Option<Seq<char>>,
}

impl View for Chunk {
    type V = ChunkView;

    open spec fn view(&self) -> ChunkView {
        ChunkView {
            file: self.file@,
            line_start: self.line_start,
            line_end: self.line_end,
            content: self.content@,
            symbol_ref: crate::text::opt_text(self.symbol_ref),
        }
    }
}

impl Clone for Chunk {
    fn clone(&self) -> (r: Self)
        ensures
            r@ == self@,
    {
        Chunk {
            file: self.file.clone(),
            line_start: self.line_start,
            line_end: self.line_end,
            content: self.content.clone(),
            symbol_ref: clone_opt(&self.symbol_ref),
        }
    }
}

pub open spec fn chunk_views(v: Seq<Chunk>) -> Seq<ChunkView> {
    Seq::new(v.len(), |i: int| v[i]@)
}

}
