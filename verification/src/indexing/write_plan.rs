//! The order in which a run writes to the store.
use vstd::prelude::*;

use crate::indexing::graph::{build_symbol_index, resolve_edges, ResolvedEdge};
use crate::indexing::pipeline::{
    chunk_batches, chunk_vectors, ChangeSet, ChunkRow, ChunkSet, ChunkVector, Collected,
};
use crate::indexing::statements::{
    delete_meta_query, edge_batches, symbol_batches, WRITE_BATCH_SIZE,
};
use crate::parsing::symbols::{QualifiedSymbol, Symbol};

verus! {

/// What is stored of a file besides what was found in it.
#[derive(Debug)]
pub struct FileMeta {
    pub path: String,
    pub mtime: i64,
    pub size: i64,
    pub repo: String,
}

/// What a [`FileMeta`] says.
pub struct MetaView {
    pub path: Seq<char>,
    pub mtime: i64,
    pub size: i64,
    pub repo: Seq<char>,
}

impl View for FileMeta {
    type V = MetaView;

    open spec fn view(&self) -> MetaView {
        MetaView { path: self.path@, mtime: self.mtime, size: self.size, repo: self.repo@ }
    }
}

/// A file as it is on disk.
#[derive(Debug)]
pub struct FileStat {
    pub path: String,
    pub mtime: i64,
    pub size: i64,
}

/// What is stored of a file of the repository.
pub open spec fn meta_of(stat: FileStat, repo: Seq<char>) -> MetaView {
    MetaView { path: stat.path@, mtime: stat.mtime, size: stat.size, repo }
}

/// One write to the store.
pub enum WriteStep {
    /// Delete everything.
    DeleteAll,
    /// Delete what is stored of a file.
    DeleteFile { path: String },
    Symbols { query: String },
    Edges { query: String },
    Chunks { rows: Vec<ChunkRow> },
    Meta { meta: FileMeta },
    /// Forget a file that is gone.
    DropMeta { query: String },
}

/// What a [`WriteStep`] says.
pub enum StepView {
    DeleteAll,
    DeleteFile(Seq<char>),
    Symbols(Seq<char>),
    Edges(Seq<char>),
    Chunks(Seq<crate::indexing::pipeline::ChunkRowView>),
    Meta(MetaView),
    DropMeta(Seq<char>),
}

impl View for WriteStep {
    type V = StepView;

    open spec fn view(&self) -> StepView {
        match self {
            WriteStep::DeleteAll => StepView::DeleteAll,
            WriteStep::DeleteFile { path } => StepView::DeleteFile(path@),
            WriteStep::Symbols { query } => StepView::Symbols(query@),
            WriteStep::Edges { query } => StepView::Edges(query@),
            WriteStep::Chunks { rows } => StepView::Chunks(
                crate::indexing::pipeline::row_views(rows@),
            ),
            WriteStep::Meta { meta } => StepView::Meta(meta@),
            WriteStep::DropMeta { query } => StepView::DropMeta(query@),
        }
    }
}

pub open spec fn step_views(v: Seq<WriteStep>) -> Seq<StepView> {
    Seq::new(v.len(), |i: int| v[i]@)
}

// ─── The parts of a plan ───

pub open spec fn delete_steps(paths: Seq<Seq<char>>) -> Seq<StepView> {
    Seq::new(paths.len(), |i: int| StepView::DeleteFile(paths[i]))
}

pub open spec fn symbol_steps(
    symbols: Seq<crate::parsing::symbols::SymbolView>,
) -> Seq<StepView> {
    Seq::new(
        crate::indexing::statements::batch_count(symbols.len()),
        |k: int|
            StepView::Symbols(
                crate::indexing::statements::upserts(
                    crate::indexing::statements::batch(symbols, k),
                ),
            ),
    )
}

pub open spec fn edge_steps(edges: Seq<crate::indexing::graph::ResolvedView>) -> Seq<StepView> {
    Seq::new(
        crate::indexing::statements::batch_count(edges.len()),
        |k: int|
            StepView::Edges(
                crate::indexing::statements::relates(crate::indexing::statements::batch(edges, k)),
            ),
    )
}

pub open spec fn chunk_steps(
    rows: Seq<crate::indexing::pipeline::ChunkRowView>,
) -> Seq<StepView> {
    Seq::new(
        crate::indexing::statements::batch_count(rows.len()),
        |k: int| StepView::Chunks(crate::indexing::statements::batch(rows, k)),
    )
}

pub open spec fn meta_steps(stats: Seq<FileStat>, repo: Seq<char>) -> Seq<StepView> {
    Seq::new(stats.len(), |i: int| StepView::Meta(meta_of(stats[i], repo)))
}

pub open spec fn drop_steps(paths: Seq<Seq<char>>) -> Seq<StepView> {
    Seq::new(
        paths.len(),
        |i: int| StepView::DropMeta(crate::indexing::statements::drop_meta_query(paths[i])),
    )
}

fn push_deletes(out: &mut Vec<WriteStep>, paths: &Vec<String>)
    ensures
        step_views(final(out)@) == step_views(old(out)@) + delete_steps(
            crate::text::texts(paths@),
        ),
{
    let ghost before = step_views(out@);
    let ghost all = delete_steps(crate::text::texts(paths@));
    let mut i: usize = 0;
    assert(before + all.take(0) =~= before);
    while i < paths.len()
        invariant
            all == delete_steps(crate::text::texts(paths@)),
            i <= paths@.len(),
            step_views(out@) == before + all.take(i as int),
        decreases paths@.len() - i,
    {
        let ghost had = step_views(out@);
        out.push(WriteStep::DeleteFile { path: paths[i].clone() });
        assert(step_views(out@) =~= had.push(all[i as int]));
        assert(before + all.take(i + 1) =~= (before + all.take(i as int)).push(all[i as int]));
        i = i + 1;
    }
    assert(all.take(i as int) =~= all);
}

fn push_symbols(out: &mut Vec<WriteStep>, symbols: &Vec<Symbol>)
    ensures
        step_views(final(out)@) == step_views(old(out)@) + symbol_steps(
            crate::parsing::symbols::symbol_views(symbols@),
        ),
{
    let ghost before = step_views(out@);
    let ghost all = symbol_steps(crate::parsing::symbols::symbol_views(symbols@));
    let queries = symbol_batches(symbols);
    let mut i: usize = 0;
    assert(before + all.take(0) =~= before);
    while i < queries.len()
        invariant
            queries@.len() == all.len(),
            forall|k: int|
                0 <= k < queries@.len() ==> StepView::Symbols((#[trigger] queries@[k])@) == all[k],
            i <= queries@.len(),
            step_views(out@) == before + all.take(i as int),
        decreases queries@.len() - i,
    {
        let ghost had = step_views(out@);
        out.push(WriteStep::Symbols { query: queries[i].clone() });
        assert(step_views(out@) =~= had.push(all[i as int]));
        assert(before + all.take(i + 1) =~= (before + all.take(i as int)).push(all[i as int]));
        i = i + 1;
    }
    assert(all.take(i as int) =~= all);
}

fn push_edges(out: &mut Vec<WriteStep>, edges: &Vec<ResolvedEdge>)
    ensures
        step_views(final(out)@) == step_views(old(out)@) + edge_steps(
            crate::indexing::graph::resolved_views(edges@),
        ),
{
    let ghost before = step_views(out@);
    let ghost all = edge_steps(crate::indexing::graph::resolved_views(edges@));
    let queries = edge_batches(edges);
    let mut i: usize = 0;
    assert(before + all.take(0) =~= before);
    while i < queries.len()
        invariant
            queries@.len() == all.len(),
            forall|k: int|
                0 <= k < queries@.len() ==> StepView::Edges((#[trigger] queries@[k])@) == all[k],
            i <= queries@.len(),
            step_views(out@) == before + all.take(i as int),
        decreases queries@.len() - i,
    {
        let ghost had = step_views(out@);
        out.push(WriteStep::Edges { query: queries[i].clone() });
        assert(step_views(out@) =~= had.push(all[i as int]));
        assert(before + all.take(i + 1) =~= (before + all.take(i as int)).push(all[i as int]));
        i = i + 1;
    }
    assert(all.take(i as int) =~= all);
}

fn push_chunks(out: &mut Vec<WriteStep>, chunks: &ChunkSet)
    ensures
        step_views(final(out)@) == step_views(old(out)@) + chunk_steps(chunks.rows_view()),
{
    let ghost before = step_views(out@);
    let ghost all = chunk_steps(chunks.rows_view());
    let batches = chunk_batches(&chunks.chunks, chunks.embeddings);
    let ghost given = batches@;
    let mut rest = batches;
    let mut steps: Vec<WriteStep> = Vec::new();
    while rest.len() > 0
        invariant
            given.len() == all.len(),
            forall|k: int|
                0 <= k < given.len() ==> StepView::Chunks(
                    crate::indexing::pipeline::row_views((#[trigger] given[k])@),
                ) == all[k],
            rest@.len() + steps@.len() == given.len(),
            rest@ == given.take(rest@.len() as int),
            forall|k: int|
                0 <= k < steps@.len() ==> (#[trigger] steps@[k])@ == all[given.len() - 1 - k],
        decreases rest@.len(),
    {
        let ghost n = rest@.len() as int;
        assert(rest@[n - 1] == given[n - 1]);
        let rows = rest.pop().unwrap();
        assert(rest@ =~= given.take(n - 1));
        steps.push(WriteStep::Chunks { rows });
    }
    let ghost made = steps@;
    while steps.len() > 0
        invariant
            made.len() == all.len(),
            forall|k: int|
                0 <= k < made.len() ==> (#[trigger] made[k])@ == all[made.len() - 1 - k],
            steps@.len() <= made.len(),
            steps@ == made.take(steps@.len() as int),
            step_views(out@) == before + all.take(made.len() - steps@.len()),
        decreases steps@.len(),
    {
        let ghost n = steps@.len() as int;
        let ghost at = made.len() - n;
        assert(steps@[n - 1] == made[n - 1]);
        let step = steps.pop().unwrap();
        assert(steps@ =~= made.take(n - 1));
        let ghost had = step_views(out@);
        out.push(step);
        assert(step_views(out@) =~= had.push(all[at]));
        assert(before + all.take(at + 1) =~= (before + all.take(at)).push(all[at]));
    }
    assert(all.take(made.len() as int) =~= all);
}

fn push_metas(out: &mut Vec<WriteStep>, stats: &Vec<FileStat>, repo: &str)
    ensures
        step_views(final(out)@) == step_views(old(out)@) + meta_steps(stats@, repo@),
{
    let ghost before = step_views(out@);
    let ghost all = meta_steps(stats@, repo@);
    let mut i: usize = 0;
    assert(before + all.take(0) =~= before);
    while i < stats.len()
        invariant
            all == meta_steps(stats@, repo@),
            i <= stats@.len(),
            step_views(out@) == before + all.take(i as int),
        decreases stats@.len() - i,
    {
        let ghost had = step_views(out@);
        let meta = FileMeta {
            path: stats[i].path.clone(),
            mtime: stats[i].mtime,
            size: stats[i].size,
            repo: repo.to_owned(),
        };
        out.push(WriteStep::Meta { meta });
        assert(step_views(out@) =~= had.push(all[i as int]));
        assert(before + all.take(i + 1) =~= (before + all.take(i as int)).push(all[i as int]));
        i = i + 1;
    }
    assert(all.take(i as int) =~= all);
}

fn push_drops(out: &mut Vec<WriteStep>, paths: &Vec<String>)
    ensures
        step_views(final(out)@) == step_views(old(out)@) + drop_steps(crate::text::texts(paths@)),
{
    let ghost before = step_views(out@);
    let ghost all = drop_steps(crate::text::texts(paths@));
    let mut i: usize = 0;
    assert(before + all.take(0) =~= before);
    while i < paths.len()
        invariant
            all == drop_steps(crate::text::texts(paths@)),
            i <= paths@.len(),
            step_views(out@) == before + all.take(i as int),
        decreases paths@.len() - i,
    {
        let ghost had = step_views(out@);
        out.push(WriteStep::DropMeta { query: delete_meta_query(paths[i].as_str()) });
        assert(step_views(out@) =~= had.push(all[i as int]));
        assert(before + all.take(i + 1) =~= (before + all.take(i as int)).push(all[i as int]));
        i = i + 1;
    }
    assert(all.take(i as int) =~= all);
}

// ─── The plans ───

/// Symbols, then edges, then chunks, then what is stored of the files.
pub open spec fn insert_plan(
    repo: Seq<char>,
    symbols: Seq<crate::parsing::symbols::SymbolView>,
    edges: Seq<crate::indexing::graph::ResolvedView>,
    rows: Seq<crate::indexing::pipeline::ChunkRowView>,
    stats: Seq<FileStat>,
) -> Seq<StepView> {
    symbol_steps(symbols) + edge_steps(edges) + chunk_steps(rows) + meta_steps(stats, repo)
}

fn push_inserts(
    out: &mut Vec<WriteStep>,
    repo: &str,
    symbols: &Vec<Symbol>,
    edges: &Vec<ResolvedEdge>,
    chunks: &ChunkSet,
    stats: &Vec<FileStat>,
)
    ensures
        step_views(final(out)@) == step_views(old(out)@) + insert_plan(
            repo@,
            crate::parsing::symbols::symbol_views(symbols@),
            crate::indexing::graph::resolved_views(edges@),
            chunks.rows_view(),
            stats@,
        ),
{
    let ghost before = step_views(out@);
    push_symbols(out, symbols);
    push_edges(out, edges);
    push_chunks(out, chunks);
    push_metas(out, stats, repo);
    assert(step_views(out@) =~= before + insert_plan(
        repo@,
        crate::parsing::symbols::symbol_views(symbols@),
        crate::indexing::graph::resolved_views(edges@),
        chunks.rows_view(),
        stats@,
    ));
}

/// The writes of a full rebuild.
///
/// Order is crash-safe: delete → symbols → edges → chunks → file_meta.
/// If the process dies before file_meta is written the next run detects
/// missing/stale meta and rebuilds — the index is never left half-done.
pub fn full_rebuild_steps(
    repo: &str,
    symbols: &Vec<Symbol>,
    edges: &Vec<ResolvedEdge>,
    chunks: &ChunkSet,
    stats: &Vec<FileStat>,
) -> (r: Vec<WriteStep>)
    ensures
        step_views(r@) == seq![StepView::DeleteAll] + insert_plan(
            repo@,
            crate::parsing::symbols::symbol_views(symbols@),
            crate::indexing::graph::resolved_views(edges@),
            chunks.rows_view(),
            stats@,
        ),
{
    let mut out: Vec<WriteStep> = Vec::new();
    out.push(WriteStep::DeleteAll);
    assert(step_views(out@) =~= seq![StepView::DeleteAll]);
    push_inserts(&mut out, repo, symbols, edges, chunks, stats);
    out
}

/// The writes of an incremental run, in the same crash-safe order: old data of
/// all affected files goes first; files that are gone are forgotten last.
pub fn incremental_steps(
    repo: &str,
    affected: &Vec<String>,
    symbols: &Vec<Symbol>,
    edges: &Vec<ResolvedEdge>,
    chunks: &ChunkSet,
    stats: &Vec<FileStat>,
    to_delete: &Vec<String>,
) -> (r: Vec<WriteStep>)
    ensures
        step_views(r@) == delete_steps(crate::text::texts(affected@)) + insert_plan(
            repo@,
            crate::parsing::symbols::symbol_views(symbols@),
            crate::indexing::graph::resolved_views(edges@),
            chunks.rows_view(),
            stats@,
        ) + drop_steps(crate::text::texts(to_delete@)),
{
    let mut out: Vec<WriteStep> = Vec::new();
    assert(step_views(out@) =~= Seq::empty());
    push_deletes(&mut out, affected);
    assert(step_views(out@) =~= delete_steps(crate::text::texts(affected@)));
    push_inserts(&mut out, repo, symbols, edges, chunks, stats);
    push_drops(&mut out, to_delete);
    out
}

/// All that a run does once its files are parsed and embedded: the writes to the
/// store, and what leaves and enters the vector index.
pub struct RunPlan {
    pub steps: Vec<WriteStep>,
    /// Files whose vectors are removed first. A full rebuild lists none: it
    /// removes all vectors of the repository.
    pub removed: Vec<String>,
    pub vectors: Vec<ChunkVector>,
}

/// The writes of a full rebuild: edges are resolved among the symbols that were
/// found.
pub open spec fn full_rebuild_of(
    repo: Seq<char>,
    found: Collected,
    embeddings: nat,
    stats: Seq<FileStat>,
) -> Seq<StepView> {
    let symbols = crate::parsing::symbols::symbol_views(found.symbols@);
    seq![StepView::DeleteAll] + insert_plan(
        repo,
        symbols,
        crate::indexing::graph::resolved(
            crate::parsing::relations::edge_views(found.edges@),
            crate::indexing::graph::qualified_of(symbols),
        ),
        crate::indexing::pipeline::rows_of(
            crate::parsing::chunker::chunk_views(found.chunks@),
            embeddings,
        ),
        stats,
    )
}

/// The writes of an incremental run: edges are resolved among the symbols that
/// were found and, behind them, those of the store.
pub open spec fn incremental_of(
    repo: Seq<char>,
    to_delete: Seq<Seq<char>>,
    all_affected: Seq<Seq<char>>,
    found: Collected,
    stored: Seq<crate::parsing::symbols::QualifiedView>,
    embeddings: nat,
    stats: Seq<FileStat>,
) -> Seq<StepView> {
    let symbols = crate::parsing::symbols::symbol_views(found.symbols@);
    delete_steps(all_affected) + insert_plan(
        repo,
        symbols,
        crate::indexing::graph::resolved(
            crate::parsing::relations::edge_views(found.edges@),
            crate::indexing::graph::qualified_of(symbols) + stored,
        ),
        crate::indexing::pipeline::rows_of(
            crate::parsing::chunker::chunk_views(found.chunks@),
            embeddings,
        ),
        stats,
    ) + drop_steps(to_delete)
}

/// Plans a full rebuild from what was found in all files and the number of
/// embeddings that came back.
pub fn plan_full_rebuild(
    repo: &str,
    found: Collected,
    embeddings: usize,
    stats: &Vec<FileStat>,
) -> (r: RunPlan)
    ensures
        step_views(r.steps@) == full_rebuild_of(repo@, found, embeddings as nat, stats@),
        r.removed@.len() == 0,
        crate::indexing::pipeline::are_vectors_of(r.vectors@, found.chunks@, embeddings as nat),
{
    let index = build_symbol_index(&found.symbols);
    let edges = resolve_edges(&found.edges, &index);
    let vectors = chunk_vectors(&found.chunks, embeddings);
    let chunks = ChunkSet { chunks: found.chunks, embeddings };
    let steps = full_rebuild_steps(repo, &found.symbols, &edges, &chunks, stats);
    RunPlan { steps, removed: Vec::new(), vectors }
}

/// Plans an incremental run from what was found in the added and modified files,
/// the symbols of the store, and the number of embeddings that came back.
pub fn plan_incremental(
    repo: &str,
    changes: ChangeSet,
    found: Collected,
    stored: Vec<QualifiedSymbol>,
    embeddings: usize,
    stats: &Vec<FileStat>,
) -> (r: RunPlan)
    ensures
        step_views(r.steps@) == incremental_of(
            repo@,
            crate::text::texts(changes.to_delete@),
            crate::text::texts(changes.all_affected@),
            found,
            crate::parsing::symbols::qualified_views(stored@),
            embeddings as nat,
            stats@,
        ),
        crate::text::texts(r.removed@) == crate::text::texts(changes.all_affected@),
        crate::indexing::pipeline::are_vectors_of(r.vectors@, found.chunks@, embeddings as nat),
{
    let ghost own = crate::indexing::graph::qualified_of(
        crate::parsing::symbols::symbol_views(found.symbols@),
    );
    let ghost all = crate::parsing::symbols::qualified_views(stored@);
    let mut index = build_symbol_index(&found.symbols);
    let mut i: usize = 0;
    assert(own + all.take(0) =~= own);
    while i < stored.len()
        invariant
            all == crate::parsing::symbols::qualified_views(stored@),
            i <= stored@.len(),
            index.wf(),
            index@ == own + all.take(i as int),
        decreases stored@.len() - i,
    {
        index.add(stored[i].clone());
        assert(own + all.take(i + 1) =~= (own + all.take(i as int)).push(all[i as int]));
        i = i + 1;
    }
    assert(all.take(i as int) =~= all);
    let edges = resolve_edges(&found.edges, &index);
    let vectors = chunk_vectors(&found.chunks, embeddings);
    let chunks = ChunkSet { chunks: found.chunks, embeddings };
    let steps = incremental_steps(
        repo,
        &changes.all_affected,
        &found.symbols,
        &edges,
        &chunks,
        stats,
        &changes.to_delete,
    );
    RunPlan { steps, removed: changes.all_affected, vectors }
}

// ─── Failures ───

/// What a write does, in the words in which its failure is told.
pub open spec fn write_words(step: StepView) -> Seq<char> {
    match step {
        StepView::DeleteAll => "delete_all_data"@,
        StepView::DeleteFile(_) => "delete_file_data"@,
        StepView::Symbols(_) => "symbols: flush_symbol_batches"@,
        StepView::Edges(_) => "edges: flush_edge_batches"@,
        StepView::Chunks(rows) => if rows.len() < WRITE_BATCH_SIZE {
            "chunk batch (tail): flush_chunk_batch"@
        } else {
            "chunk batch: flush_chunk_batch"@
        },
        StepView::Meta(_) => "upsert_file_meta"@,
        StepView::DropMeta(_) => "delete file_meta for deleted file"@,
    }
}

/// The run and the write that failed in it, in words.
pub open spec fn phase_words(step: StepView, rebuild: bool) -> Seq<char> {
    if rebuild {
        "full_rebuild: "@ + write_words(step)
    } else {
        "incremental_run: "@ + write_words(step)
    }
}

/// The phase of a run that a write belongs to, as the error names it where the
/// write fails.
pub fn failed_phase(step: &WriteStep, rebuild: bool) -> (r: String)
    ensures
        r@ == phase_words(step@, rebuild),
        r@ == (if rebuild {
            "full_rebuild: "@
        } else {
            "incremental_run: "@
        }) + write_words(step@),
{
    let mut text = if rebuild {
        "full_rebuild: ".to_owned()
    } else {
        "incremental_run: ".to_owned()
    };
    let words = match step {
        WriteStep::DeleteAll => "delete_all_data",
        WriteStep::DeleteFile { .. } => "delete_file_data",
        WriteStep::Symbols { .. } => "symbols: flush_symbol_batches",
        WriteStep::Edges { .. } => "edges: flush_edge_batches",
        WriteStep::Chunks { rows } => if rows.len() < WRITE_BATCH_SIZE {
            "chunk batch (tail): flush_chunk_batch"
        } else {
            "chunk batch: flush_chunk_batch"
        },
        WriteStep::Meta { .. } => "upsert_file_meta",
        WriteStep::DropMeta { .. } => "delete file_meta for deleted file",
    };
    text.append(words);
    text
}

// ─── The laws ───

/// Where a write stands in the crash-safe order.
pub open spec fn phase(step: StepView) -> int {
    match step {
        StepView::DeleteAll => 0,
        StepView::DeleteFile(_) => 0,
        StepView::Symbols(_) => 1,
        StepView::Edges(_) => 2,
        StepView::Chunks(_) => 3,
        StepView::Meta(_) => 4,
        StepView::DropMeta(_) => 5,
    }
}

/// No write comes before one of an earlier phase.
pub open spec fn in_order(steps: Seq<StepView>) -> bool {
    forall|i: int, j: int|
        0 <= i < j < steps.len() ==> phase(#[trigger] steps[i]) <= phase(#[trigger] steps[j])
}

proof fn lemma_in_order_append(a: Seq<StepView>, b: Seq<StepView>, p: int)
    requires
        in_order(a),
        in_order(b),
        forall|i: int| 0 <= i < a.len() ==> phase(#[trigger] a[i]) <= p,
        forall|i: int| 0 <= i < b.len() ==> phase(#[trigger] b[i]) >= p,
    ensures
        in_order(a + b),
{
    let s = a + b;
    assert forall|i: int, j: int| 0 <= i < j < s.len() implies phase(#[trigger] s[i]) <= phase(
        #[trigger] s[j],
    ) by {
        if i < a.len() {
            assert(s[i] == a[i]);
        } else {
            assert(s[i] == b[i - a.len()]);
        }
        if j < a.len() {
            assert(s[j] == a[j]);
        } else {
            assert(s[j] == b[j - a.len()]);
        }
    }
}

spec fn phases_within(steps: Seq<StepView>, low: int, high: int) -> bool {
    forall|i: int| 0 <= i < steps.len() ==> low <= phase(#[trigger] steps[i]) <= high
}

proof fn lemma_insert_plan(
    repo: Seq<char>,
    symbols: Seq<crate::parsing::symbols::SymbolView>,
    edges: Seq<crate::indexing::graph::ResolvedView>,
    rows: Seq<crate::indexing::pipeline::ChunkRowView>,
    stats: Seq<FileStat>,
)
    ensures
        in_order(insert_plan(repo, symbols, edges, rows, stats)),
        phases_within(insert_plan(repo, symbols, edges, rows, stats), 1, 4),
{
    let a = symbol_steps(symbols);
    let b = edge_steps(edges);
    let c = chunk_steps(rows);
    let d = meta_steps(stats, repo);
    lemma_in_order_append(a, b, 1);
    assert(phases_within(a + b, 1, 2)) by {
        assert forall|i: int| 0 <= i < (a + b).len() implies 1 <= phase(#[trigger] (a + b)[i])
            <= 2 by {
            if i < a.len() {
                assert((a + b)[i] == a[i]);
            } else {
                assert((a + b)[i] == b[i - a.len()]);
            }
        }
    }
    lemma_in_order_append(a + b, c, 2);
    assert(phases_within(a + b + c, 1, 3)) by {
        let s = a + b + c;
        assert forall|i: int| 0 <= i < s.len() implies 1 <= phase(#[trigger] s[i]) <= 3 by {
            if i < (a + b).len() {
                assert(s[i] == (a + b)[i]);
            } else {
                assert(s[i] == c[i - (a + b).len()]);
            }
        }
    }
    lemma_in_order_append(a + b + c, d, 3);
    let s = a + b + c + d;
    assert forall|i: int| 0 <= i < s.len() implies 1 <= phase(#[trigger] s[i]) <= 4 by {
        if i < (a + b + c).len() {
            assert(s[i] == (a + b + c)[i]);
        } else {
            assert(s[i] == d[i - (a + b + c).len()]);
        }
    }
}

/// A full rebuild writes in the crash-safe order: file metadata comes after all
/// that it vouches for.
pub proof fn law_full_rebuild_is_in_order(
    repo: Seq<char>,
    symbols: Seq<crate::parsing::symbols::SymbolView>,
    edges: Seq<crate::indexing::graph::ResolvedView>,
    rows: Seq<crate::indexing::pipeline::ChunkRowView>,
    stats: Seq<FileStat>,
)
    ensures
        in_order(
            seq![StepView::DeleteAll] + insert_plan(repo, symbols, edges, rows, stats),
        ),
{
    lemma_insert_plan(repo, symbols, edges, rows, stats);
    lemma_in_order_append(
        seq![StepView::DeleteAll],
        insert_plan(repo, symbols, edges, rows, stats),
        1,
    );
}

/// Whether file metadata is stored after the first writes of a full rebuild.
pub open spec fn holds_meta(stored: bool, steps: Seq<StepView>) -> bool
    decreases steps.len(),
{
    if steps.len() == 0 {
        stored
    } else {
        match steps.last() {
            StepView::DeleteAll => false,
            StepView::Meta(_) => true,
            _ => holds_meta(stored, steps.drop_last()),
        }
    }
}

proof fn lemma_meta_was_written(stored: bool, steps: Seq<StepView>) -> (i: int)
    requires
        steps.len() > 0,
        steps[0] is DeleteAll,
        holds_meta(stored, steps),
    ensures
        0 <= i < steps.len(),
        steps[i] is Meta,
    decreases steps.len(),
{
    if steps.last() is Meta {
        steps.len() - 1
    } else {
        if steps.len() == 1 {
            assert(steps.last() == steps[0]);
        }
        let front = steps.drop_last();
        assert(front[0] == steps[0]);
        lemma_meta_was_written(stored, front)
    }
}

/// A full rebuild survives a crash. Wherever it stops after the deletion, either
/// no file metadata is stored, and the next run rebuilds everything; or all
/// symbols, edges and chunks are, and only metadata is missing.
pub proof fn law_full_rebuild_survives_a_crash(
    repo: Seq<char>,
    symbols: Seq<crate::parsing::symbols::SymbolView>,
    edges: Seq<crate::indexing::graph::ResolvedView>,
    rows: Seq<crate::indexing::pipeline::ChunkRowView>,
    stats: Seq<FileStat>,
    stored: bool,
    k: int,
)
    requires
        1 <= k <= 1 + insert_plan(repo, symbols, edges, rows, stats).len(),
    ensures
        ({
            let plan = seq![StepView::DeleteAll] + insert_plan(repo, symbols, edges, rows, stats);
            ||| !holds_meta(stored, plan.take(k))
            ||| forall|j: int| k <= j < plan.len() ==> (#[trigger] plan[j]) is Meta
        }),
{
    let inserts = insert_plan(repo, symbols, edges, rows, stats);
    let plan = seq![StepView::DeleteAll] + inserts;
    let done = plan.take(k);
    if holds_meta(stored, done) {
        assert(done[0] == plan[0]);
        let i = lemma_meta_was_written(stored, done);
        assert(done[i] == plan[i]);
        law_full_rebuild_is_in_order(repo, symbols, edges, rows, stats);
        lemma_insert_plan(repo, symbols, edges, rows, stats);
        assert forall|j: int| k <= j < plan.len() implies (#[trigger] plan[j]) is Meta by {
            assert(phase(plan[i]) <= phase(plan[j]));
            assert(plan[j] == inserts[j - 1]);
        }
    }
}

/// An incremental run writes in the crash-safe order too.
pub proof fn law_incremental_is_in_order(
    repo: Seq<char>,
    affected: Seq<Seq<char>>,
    symbols: Seq<crate::parsing::symbols::SymbolView>,
    edges: Seq<crate::indexing::graph::ResolvedView>,
    rows: Seq<crate::indexing::pipeline::ChunkRowView>,
    stats: Seq<FileStat>,
    to_delete: Seq<Seq<char>>,
)
    ensures
        in_order(
            delete_steps(affected) + insert_plan(repo, symbols, edges, rows, stats) + drop_steps(
                to_delete,
            ),
        ),
{
    let a = delete_steps(affected);
    let b = insert_plan(repo, symbols, edges, rows, stats);
    let c = drop_steps(to_delete);
    lemma_insert_plan(repo, symbols, edges, rows, stats);
    lemma_in_order_append(a, b, 0);
    assert forall|i: int| 0 <= i < (a + b).len() implies phase(#[trigger] (a + b)[i]) <= 4 by {
        if i < a.len() {
            assert((a + b)[i] == a[i]);
        } else {
            assert((a + b)[i] == b[i - a.len()]);
        }
    }
    lemma_in_order_append(a + b, c, 4);
}

}
