//! The parse → embed → store pipeline for one repository.
use vstd::prelude::*;

use crate::indexing::statements::WRITE_BATCH_SIZE;
use crate::parsing::chunker::Chunk;
use crate::parsing::relations::RawEdge;
use crate::parsing::symbols::Symbol;
use crate::parsing::ParseResult;
use crate::store::symbol_ref;

verus! {

#[derive(Clone, Copy, Debug, PartialEq, Eq, Structural)]
pub struct IndexPipelineStats {
    pub indexed_files: u64,
    pub total_files: u64,
}

/// Runs the parse → embed → store pipeline for one repo, with an embedding
/// client where there is one.
pub struct IndexPipeline<C> {
    repo: String,
    voyage: Option<C>,
}

impl<C> IndexPipeline<C> {
    pub closed spec fn repo_view(&self) -> Seq<char> {
        self.repo@
    }

    pub closed spec fn client_view(&self) -> Option<C> {
        self.voyage
    }

    pub fn new(repo: String, voyage: Option<C>) -> (r: Self)
        ensures
            r.repo_view() == repo@,
            r.client_view() == voyage,
    {
        IndexPipeline { repo, voyage }
    }

    pub fn repo(&self) -> (r: &String)
        ensures
            r@ == self.repo_view(),
    {
        &self.repo
    }

    pub fn client(&self) -> (r: &Option<C>)
        ensures
            *r == self.client_view(),
    {
        &self.voyage
    }
}

// ─── What a run does ───

#[derive(Clone, Copy, Debug, PartialEq, Eq, Structural)]
pub enum ChangeKind {
    Added,
    Modified,
    Deleted,
}

/// A file that changed since it was indexed.
#[derive(Debug)]
pub struct FileChange {
    pub path: String,
    pub kind: ChangeKind,
}

/// What a [`FileChange`] says.
pub struct ChangeView {
    pub path: Seq<char>,
    pub kind: ChangeKind,
}

impl View for FileChange {
    type V = ChangeView;

    open spec fn view(&self) -> ChangeView {
        ChangeView { path: self.path@, kind: self.kind }
    }
}

pub open spec fn change_views(v: Seq<FileChange>) -> Seq<ChangeView> {
    Seq::new(v.len(), |i: int| v[i]@)
}

/// How a run goes on.
#[derive(Clone, Copy, Debug, PartialEq, Eq, Structural)]
pub enum RunStep {
    /// Clear and index everything.
    FullRebuild,
    /// Compare the files with what is stored of them, then decide.
    DetectChanges,
    /// Index the given changes.
    Incremental,
    /// Nothing to do.
    Done,
}

/// The first step of a run. Everything is indexed on a first run (nothing is
/// stored) and where it is forced; otherwise only changes are, which are
/// detected unless they are given.
pub open spec fn first_step_of(
    stored_files: nat,
    force_rebuild: bool,
    given_changes: Option<nat>,
) -> RunStep {
    if stored_files == 0 || force_rebuild {
        RunStep::FullRebuild
    } else {
        match given_changes {
            Some(n) => change_step_of(n),
            None => RunStep::DetectChanges,
        }
    }
}

/// The step after the changes are known.
pub open spec fn change_step_of(changes: nat) -> RunStep {
    if changes == 0 {
        RunStep::Done
    } else {
        RunStep::Incremental
    }
}

pub fn first_step(
    stored_files: usize,
    force_rebuild: bool,
    changes: &Option<Vec<FileChange>>,
) -> (r: RunStep)
    ensures
        r == first_step_of(
            stored_files as nat,
            force_rebuild,
            match *changes {
                Some(list) => Some(list@.len()),
                None => None,
            },
        ),
{
    if stored_files == 0 || force_rebuild {
        RunStep::FullRebuild
    } else {
        match changes {
            Some(list) => change_step(list),
            None => RunStep::DetectChanges,
        }
    }
}

pub fn change_step(changes: &Vec<FileChange>) -> (r: RunStep)
    ensures
        r == change_step_of(changes@.len()),
{
    if changes.len() == 0 {
        RunStep::Done
    } else {
        RunStep::Incremental
    }
}

/// The paths of the changes that are deletions, or of those that are not.
pub open spec fn paths_of(changes: Seq<ChangeView>, deleted: bool) -> Seq<Seq<char>>
    decreases changes.len(),
{
    if changes.len() == 0 {
        Seq::empty()
    } else {
        let before = paths_of(changes.drop_last(), deleted);
        if (changes.last().kind == ChangeKind::Deleted) == deleted {
            before.push(changes.last().path)
        } else {
            before
        }
    }
}

/// Which files an incremental run deals with.
pub struct ChangeSet {
    /// Added and modified files.
    pub to_process: Vec<String>,
    pub to_delete: Vec<String>,
    /// All files whose old data must be purged: deleted ones, then the others.
    pub all_affected: Vec<String>,
}

fn paths_where(changes: &Vec<FileChange>, deleted: bool) -> (r: Vec<String>)
    ensures
        crate::text::texts(r@) == paths_of(change_views(changes@), deleted),
{
    let ghost all = change_views(changes@);
    let mut out: Vec<String> = Vec::new();
    let mut i: usize = 0;
    assert(all.take(0) =~= Seq::empty());
    assert(crate::text::texts(out@) =~= Seq::empty());
    while i < changes.len()
        invariant
            all == change_views(changes@),
            i <= changes@.len(),
            crate::text::texts(out@) == paths_of(all.take(i as int), deleted),
        decreases changes@.len() - i,
    {
        assert(all.take(i + 1).drop_last() =~= all.take(i as int));
        assert(all.take(i + 1).last() == changes@[i as int]@);
        let is_deletion = changes[i].kind == ChangeKind::Deleted;
        if is_deletion == deleted {
            let ghost before = crate::text::texts(out@);
            out.push(changes[i].path.clone());
            assert(crate::text::texts(out@) =~= before.push(changes@[i as int]@.path));
        }
        i = i + 1;
    }
    assert(all.take(i as int) =~= all);
    out
}

/// Separate added/modified from deleted.
pub fn split_changes(changes: &Vec<FileChange>) -> (r: ChangeSet)
    ensures
        crate::text::texts(r.to_process@) == paths_of(change_views(changes@), false),
        crate::text::texts(r.to_delete@) == paths_of(change_views(changes@), true),
        crate::text::texts(r.all_affected@) == paths_of(change_views(changes@), true) + paths_of(
            change_views(changes@),
            false,
        ),
{
    let to_process = paths_where(changes, false);
    let to_delete = paths_where(changes, true);
    let mut all_affected = crate::text::clone_texts(&to_delete);
    let ghost first = all_affected@;
    let mut more = crate::text::clone_texts(&to_process);
    let ghost second = more@;
    all_affected.append(&mut more);
    assert(crate::text::texts(all_affected@) =~= crate::text::texts(first) + crate::text::texts(
        second,
    ));
    ChangeSet { to_process, to_delete, all_affected }
}

/// Every change is dealt with: its path is purged, and processed again unless
/// the file is gone.
pub proof fn law_every_change_is_affected(changes: Seq<ChangeView>, i: int)
    requires
        0 <= i < changes.len(),
    ensures
        paths_of(changes, changes[i].kind == ChangeKind::Deleted).contains(changes[i].path),
    decreases changes.len(),
{
    let deleted = changes[i].kind == ChangeKind::Deleted;
    let before = paths_of(changes.drop_last(), deleted);
    let after = paths_of(changes, deleted);
    if i < changes.len() - 1 {
        assert(changes.drop_last()[i] == changes[i]);
        law_every_change_is_affected(changes.drop_last(), i);
        let k = choose|k: int| 0 <= k < before.len() && before[k] == changes[i].path;
        assert(after[k] == changes[i].path);
    } else {
        assert(after[after.len() - 1] == changes[i].path);
    }
}

// ─── What parsing found ───

/// What was found in several files, together.
pub struct Collected {
    pub symbols: Vec<Symbol>,
    pub edges: Vec<RawEdge>,
    /// The chunks of all files, one file after the other.
    pub chunks: Vec<Chunk>,
    /// How many chunks each file has.
    pub chunk_counts: Vec<usize>,
}

pub open spec fn symbols_of(results: Seq<ParseResult>) -> Seq<crate::parsing::symbols::SymbolView>
    decreases results.len(),
{
    if results.len() == 0 {
        Seq::empty()
    } else {
        symbols_of(results.drop_last()) + crate::parsing::symbols::symbol_views(
            results.last().symbols@,
        )
    }
}

pub open spec fn edges_of(results: Seq<ParseResult>) -> Seq<crate::parsing::relations::EdgeView>
    decreases results.len(),
{
    if results.len() == 0 {
        Seq::empty()
    } else {
        edges_of(results.drop_last()) + crate::parsing::relations::edge_views(
            results.last().edges@,
        )
    }
}

pub open spec fn chunks_of(results: Seq<ParseResult>) -> Seq<crate::parsing::chunker::ChunkView>
    decreases results.len(),
{
    if results.len() == 0 {
        Seq::empty()
    } else {
        chunks_of(results.drop_last()) + crate::parsing::chunker::chunk_views(
            results.last().chunks@,
        )
    }
}

/// Collects symbols, chunks and edges of parsed files, in their order.
pub fn collect_results(results: Vec<ParseResult>) -> (r: Collected)
    ensures
        crate::parsing::symbols::symbol_views(r.symbols@) == symbols_of(results@),
        crate::parsing::relations::edge_views(r.edges@) == edges_of(results@),
        crate::parsing::chunker::chunk_views(r.chunks@) == chunks_of(results@),
        r.chunk_counts@ == Seq::new(results@.len(), |i: int| results@[i].chunks@.len() as usize),
{
    let ghost given = results@;
    let mut symbols: Vec<Symbol> = Vec::new();
    let mut edges: Vec<RawEdge> = Vec::new();
    let mut chunks: Vec<Chunk> = Vec::new();
    let mut chunk_counts: Vec<usize> = Vec::new();
    let mut i: usize = 0;
    assert(given.take(0) =~= Seq::empty());
    assert(crate::parsing::symbols::symbol_views(symbols@) =~= Seq::empty());
    assert(crate::parsing::relations::edge_views(edges@) =~= Seq::empty());
    assert(crate::parsing::chunker::chunk_views(chunks@) =~= Seq::empty());
    while i < results.len()
        invariant
            given == results@,
            i <= results@.len(),
            crate::parsing::symbols::symbol_views(symbols@) == symbols_of(given.take(i as int)),
            crate::parsing::relations::edge_views(edges@) == edges_of(given.take(i as int)),
            crate::parsing::chunker::chunk_views(chunks@) == chunks_of(given.take(i as int)),
            chunk_counts@ == Seq::new(i as nat, |k: int| given[k].chunks@.len() as usize),
        decreases results@.len() - i,
    {
        let result = &results[i];
        assert(given.take(i + 1).drop_last() =~= given.take(i as int));
        assert(given.take(i + 1).last() == *result);
        append_symbols(&mut symbols, &result.symbols);
        append_edges(&mut edges, &result.edges);
        append_chunks(&mut chunks, &result.chunks);
        chunk_counts.push(result.chunks.len());
        assert(chunk_counts@ =~= Seq::new((i + 1) as nat, |k: int| given[k].chunks@.len() as usize));
        i = i + 1;
    }
    assert(given.take(i as int) =~= given);
    Collected { symbols, edges, chunks, chunk_counts }
}

fn append_symbols(out: &mut Vec<Symbol>, more: &Vec<Symbol>)
    ensures
        crate::parsing::symbols::symbol_views(final(out)@)
            == crate::parsing::symbols::symbol_views(old(out)@)
            + crate::parsing::symbols::symbol_views(more@),
{
    let ghost before = crate::parsing::symbols::symbol_views(out@);
    let ghost all = crate::parsing::symbols::symbol_views(more@);
    let mut i: usize = 0;
    assert(before + all.take(0) =~= before);
    while i < more.len()
        invariant
            all == crate::parsing::symbols::symbol_views(more@),
            i <= more@.len(),
            crate::parsing::symbols::symbol_views(out@) == before + all.take(i as int),
        decreases more@.len() - i,
    {
        let ghost had = crate::parsing::symbols::symbol_views(out@);
        out.push(more[i].clone());
        assert(crate::parsing::symbols::symbol_views(out@) =~= had.push(all[i as int]));
        assert(before + all.take(i + 1) =~= (before + all.take(i as int)).push(all[i as int]));
        i = i + 1;
    }
    assert(all.take(i as int) =~= all);
}

fn append_edges(out: &mut Vec<RawEdge>, more: &Vec<RawEdge>)
    ensures
        crate::parsing::relations::edge_views(final(out)@)
            == crate::parsing::relations::edge_views(old(out)@)
            + crate::parsing::relations::edge_views(more@),
{
    let ghost before = crate::parsing::relations::edge_views(out@);
    let ghost all = crate::parsing::relations::edge_views(more@);
    let mut i: usize = 0;
    assert(before + all.take(0) =~= before);
    while i < more.len()
        invariant
            all == crate::parsing::relations::edge_views(more@),
            i <= more@.len(),
            crate::parsing::relations::edge_views(out@) == before + all.take(i as int),
        decreases more@.len() - i,
    {
        let ghost had = crate::parsing::relations::edge_views(out@);
        out.push(more[i].clone());
        assert(crate::parsing::relations::edge_views(out@) =~= had.push(all[i as int]));
        assert(before + all.take(i + 1) =~= (before + all.take(i as int)).push(all[i as int]));
        i = i + 1;
    }
    assert(all.take(i as int) =~= all);
}

fn append_chunks(out: &mut Vec<Chunk>, more: &Vec<Chunk>)
    ensures
        crate::parsing::chunker::chunk_views(final(out)@)
            == crate::parsing::chunker::chunk_views(old(out)@)
            + crate::parsing::chunker::chunk_views(more@),
{
    let ghost before = crate::parsing::chunker::chunk_views(out@);
    let ghost all = crate::parsing::chunker::chunk_views(more@);
    let mut i: usize = 0;
    assert(before + all.take(0) =~= before);
    while i < more.len()
        invariant
            all == crate::parsing::chunker::chunk_views(more@),
            i <= more@.len(),
            crate::parsing::chunker::chunk_views(out@) == before + all.take(i as int),
        decreases more@.len() - i,
    {
        let ghost had = crate::parsing::chunker::chunk_views(out@);
        out.push(more[i].clone());
        assert(crate::parsing::chunker::chunk_views(out@) =~= had.push(all[i as int]));
        assert(before + all.take(i + 1) =~= (before + all.take(i as int)).push(all[i as int]));
        i = i + 1;
    }
    assert(all.take(i as int) =~= all);
}

// ─── Rows ───

/// A chunk row ready for bulk insertion. The embedding is named by its position
/// among those of the run; there is none where too few came back.
#[derive(Debug)]
pub struct ChunkRow {
    pub file: String,
    pub line_start: i64,
    pub line_end: i64,
    pub content: String,
    pub embedding: Option<usize>,
    pub symbol_ref: Option<String>,
}

/// What a [`ChunkRow`] says.
pub struct ChunkRowView {
    pub file: Seq<char>,
    pub line_start: i64,
    pub line_end: i64,
    pub content: Seq<char>,
    pub embedding: Option<usize>,
    pub symbol_ref: Option<Seq<char>>,
}

impl View for ChunkRow {
    type V = ChunkRowView;

    open spec fn view(&self) -> ChunkRowView {
        ChunkRowView {
            file: self.file@,
            line_start: self.line_start,
            line_end: self.line_end,
            content: self.content@,
            embedding: self.embedding,
            symbol_ref: crate::text::opt_text(self.symbol_ref),
        }
    }
}

pub open spec fn row_views(v: Seq<ChunkRow>) -> Seq<ChunkRowView> {
    Seq::new(v.len(), |i: int| v[i]@)
}

/// The row for the `i`th chunk of a run with the given number of embeddings.
pub open spec fn row_of(
    i: int,
    chunk: crate::parsing::chunker::ChunkView,
    embeddings: nat,
) -> ChunkRowView {
    ChunkRowView {
        file: chunk.file,
        line_start: chunk.line_start as i64,
        line_end: chunk.line_end as i64,
        content: chunk.content,
        embedding: if i < embeddings {
            Some(i as usize)
        } else {
            None
        },
        symbol_ref: match chunk.symbol_ref {
            Some(fqn) => Some(crate::store::symbol_ref_of(fqn)),
            None => None,
        },
    }
}

pub open spec fn rows_of(
    chunks: Seq<crate::parsing::chunker::ChunkView>,
    embeddings: nat,
) -> Seq<ChunkRowView> {
    Seq::new(chunks.len(), |i: int| row_of(i, chunks[i], embeddings))
}

fn make_row(i: usize, chunk: &Chunk, embeddings: usize) -> (r: ChunkRow)
    ensures
        r@ == row_of(i as int, chunk@, embeddings as nat),
{
    ChunkRow {
        file: chunk.file.clone(),
        line_start: chunk.line_start as i64,
        line_end: chunk.line_end as i64,
        content: chunk.content.clone(),
        embedding: if i < embeddings {
            Some(i)
        } else {
            None
        },
        symbol_ref: match &chunk.symbol_ref {
            Some(fqn) => Some(symbol_ref(fqn.as_str())),
            None => None,
        },
    }
}

/// The rows of all chunks, in the batches in which they are written.
pub fn chunk_batches(chunks: &Vec<Chunk>, embeddings: usize) -> (r: Vec<Vec<ChunkRow>>)
    ensures
        r@.len() == crate::indexing::statements::batch_count(chunks@.len()),
        forall|k: int|
            0 <= k < r@.len() ==> row_views((#[trigger] r@[k])@)
                == crate::indexing::statements::batch(
                rows_of(crate::parsing::chunker::chunk_views(chunks@), embeddings as nat),
                k,
            ),
{
    let ghost all = rows_of(crate::parsing::chunker::chunk_views(chunks@), embeddings as nat);
    let n: usize = chunks.len();
    let mut out: Vec<Vec<ChunkRow>> = Vec::new();
    let mut start: usize = 0;
    while start < n
        invariant
            all == rows_of(crate::parsing::chunker::chunk_views(chunks@), embeddings as nat),
            n == chunks@.len(),
            start <= n,
            start == n || start == out@.len() * WRITE_BATCH_SIZE,
            out@.len() == crate::indexing::statements::batch_count(start as nat),
            forall|k: int|
                0 <= k < out@.len() ==> row_views((#[trigger] out@[k])@)
                    == crate::indexing::statements::batch(all, k),
        decreases n - start,
    {
        let end: usize = if n - start > WRITE_BATCH_SIZE {
            start + WRITE_BATCH_SIZE
        } else {
            n
        };
        let ghost part = crate::indexing::statements::batch(all, out@.len() as int);
        assert(part =~= all.subrange(start as int, end as int));
        let mut rows: Vec<ChunkRow> = Vec::new();
        let mut i: usize = start;
        assert(row_views(rows@) =~= part.take(0));
        while i < end
            invariant
                all == rows_of(crate::parsing::chunker::chunk_views(chunks@), embeddings as nat),
                n == chunks@.len(),
                start <= i <= end <= n,
                part == all.subrange(start as int, end as int),
                row_views(rows@) == part.take(i - start),
            decreases end - i,
        {
            let ghost before = row_views(rows@);
            rows.push(make_row(i, &chunks[i], embeddings));
            assert(row_views(rows@) =~= before.push(all[i as int]));
            assert(part.take(i - start + 1) =~= part.take(i - start).push(all[i as int]));
            i = i + 1;
        }
        assert(part.take(i - start) =~= part);
        out.push(rows);
        start = end;
    }
    out
}

/// The chunks of a run and how many embeddings came back for them.
pub struct ChunkSet {
    pub chunks: Vec<Chunk>,
    pub embeddings: usize,
}

impl ChunkSet {
    /// The rows of the chunks.
    pub open spec fn rows_view(&self) -> Seq<ChunkRowView> {
        rows_of(crate::parsing::chunker::chunk_views(self.chunks@), self.embeddings as nat)
    }
}

/// A chunk in the vector index: its place, and its embedding as in its row.
#[derive(Debug)]
pub struct ChunkVector {
    pub file: String,
    pub line_start: u32,
    pub line_end: u32,
    pub embedding: Option<usize>,
}

/// One vector for each chunk, in their order.
pub open spec fn are_vectors_of(
    vectors: Seq<ChunkVector>,
    chunks: Seq<Chunk>,
    embeddings: nat,
) -> bool {
    &&& vectors.len() == chunks.len()
    &&& forall|i: int|
        0 <= i < vectors.len() ==> (#[trigger] vectors[i]).file@ == chunks[i].file@
            && vectors[i].line_start == chunks[i].line_start && vectors[i].line_end
            == chunks[i].line_end && vectors[i].embedding == (if i < embeddings {
            Some(i as usize)
        } else {
            None
        })
}

/// The vectors of all chunks of a run, in their order.
pub fn chunk_vectors(chunks: &Vec<Chunk>, embeddings: usize) -> (r: Vec<ChunkVector>)
    ensures
        are_vectors_of(r@, chunks@, embeddings as nat),
{
    let mut out: Vec<ChunkVector> = Vec::new();
    let mut i: usize = 0;
    while i < chunks.len()
        invariant
            i <= chunks@.len(),
            are_vectors_of(out@, chunks@.take(i as int), embeddings as nat),
        decreases chunks@.len() - i,
    {
        let chunk = &chunks[i];
        let ghost before = out@;
        out.push(
            ChunkVector {
                file: chunk.file.clone(),
                line_start: chunk.line_start,
                line_end: chunk.line_end,
                embedding: if i < embeddings {
                    Some(i)
                } else {
                    None
                },
            },
        );
        proof {
            assert forall|k: int| 0 <= k < i implies #[trigger] out@[k] == before[k]
                && chunks@.take(i + 1)[k] == chunks@.take(i as int)[k] by {}
        }
        i = i + 1;
    }
    assert(chunks@.take(i as int) =~= chunks@);
    out
}

}
