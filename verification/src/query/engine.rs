//! The decisions of a query, from the search hits to the answer.
use vstd::prelude::*;

use crate::paths::path_in_repo;
use crate::query::merger::{merge_chunks, MergeChunk};
use crate::query::reranker::RerankOutput;
use crate::store::{read_symbol_ref, short_name};
use crate::text::{clone_opt, decimal, join, lines, same_text};

verus! {

#[derive(Debug)]
pub struct CodeResult {
    pub file: String,
    pub line_start: u32,
    pub line_end: u32,
    /// Order key of the relevance score.
    pub score: i32,
    /// Numbered lines from filesystem, or stored content on fallback.
    pub content: String,
    pub symbol: Option<String>,
    /// Number of direct callers (depth-1) from the call graph. Lower bound.
    pub callers: Option<u32>,
    /// Number of distinct files containing direct callers.
    pub caller_files: Option<u32>,
}

/// What a [`CodeResult`] says.
pub struct ResultView {
    pub file: Seq<char>,
    pub line_start: u32,
    pub line_end: u32,
    pub score: i32,
    pub content: Seq<char>,
    pub symbol: Option<Seq<char>>,
    pub callers: Option<u32>,
    pub caller_files: Option<u32>,
}

impl View for CodeResult {
    type V = ResultView;

    open spec fn view(&self) -> ResultView {
        ResultView {
            file: self.file@,
            line_start: self.line_start,
            line_end: self.line_end,
            score: self.score,
            content: self.content@,
            symbol: crate::text::opt_text(self.symbol),
            callers: self.callers,
            caller_files: self.caller_files,
        }
    }
}

impl Clone for CodeResult {
    fn clone(&self) -> (r: Self)
        ensures
            r@ == self@,
    {
        CodeResult {
            file: self.file.clone(),
            line_start: self.line_start,
            line_end: self.line_end,
            score: self.score,
            content: self.content.clone(),
            symbol: clone_opt(&self.symbol),
            callers: self.callers,
            caller_files: self.caller_files,
        }
    }
}

pub open spec fn result_views(v: Seq<CodeResult>) -> Seq<ResultView> {
    Seq::new(v.len(), |i: int| v[i]@)
}

#[derive(Clone, Copy, Debug, PartialEq, Eq, Structural)]
pub struct QueryTiming {
    pub embed_ms: u64,
    pub search_ms: u64,
    pub graph_ms: u64,
    pub merge_ms: u64,
    pub rerank_ms: u64,
    pub total_ms: u64,
}

#[derive(Debug)]
pub struct RerankInfo {
    pub raw_request: String,
    pub raw_response: String,
    pub fallback_used: bool,
    pub skip_reason: Option<String>,
}

#[derive(Debug)]
pub struct QueryResult {
    pub results: Vec<CodeResult>,
    pub pre_rerank_results: Vec<CodeResult>,
    pub timing: QueryTiming,
    pub rerank: Option<RerankInfo>,
}

/// What a [`RerankInfo`] says.
pub struct RerankInfoView {
    pub raw_request: Seq<char>,
    pub raw_response: Seq<char>,
    pub fallback_used: bool,
    pub skip_reason: Option<Seq<char>>,
}

impl View for RerankInfo {
    type V = RerankInfoView;

    open spec fn view(&self) -> RerankInfoView {
        RerankInfoView {
            raw_request: self.raw_request@,
            raw_response: self.raw_response@,
            fallback_used: self.fallback_used,
            skip_reason: crate::text::opt_text(self.skip_reason),
        }
    }
}

/// What a [`QueryResult`] says.
pub struct AnswerView {
    pub results: Seq<ResultView>,
    pub pre_rerank_results: Seq<ResultView>,
    pub timing: QueryTiming,
    pub rerank: Option<RerankInfoView>,
}

impl View for QueryResult {
    type V = AnswerView;

    open spec fn view(&self) -> AnswerView {
        AnswerView {
            results: result_views(self.results@),
            pre_rerank_results: result_views(self.pre_rerank_results@),
            timing: self.timing,
            rerank: match self.rerank {
                Some(info) => Some(info@),
                None => None,
            },
        }
    }
}

// ─── Numbered lines ───

/// `n: line`.
pub open spec fn numbered_line(n: nat, line: Seq<char>) -> Seq<char> {
    crate::text::decimal_of(n) + ": "@ + line
}

/// Lines with their numbers, counting from the given one.
pub open spec fn numbered(all: Seq<Seq<char>>, first: nat) -> Seq<Seq<char>> {
    Seq::new(all.len(), |i: int| numbered_line((first + i) as nat, all[i]))
}

/// The position of the first line, counted from zero.
pub open spec fn first_index(line_start: u32) -> int {
    if line_start == 0 {
        0
    } else {
        line_start - 1
    }
}

/// The smaller of two numbers.
pub open spec fn smaller(a: int, b: int) -> int {
    if a <= b {
        a
    } else {
        b
    }
}

/// The lines from the first to the last of a range, numbered, as one text.
pub open spec fn numbered_range(
    all: Seq<Seq<char>>,
    line_start: u32,
    line_end: u32,
) -> Seq<char> {
    let from = first_index(line_start);
    let to = smaller(line_end as int, all.len() as int);
    crate::text::joined(numbered(all.subrange(from, to), (from + 1) as nat), "\n"@)
}

pub open spec fn out_of_range_message(line_start: u32, file: Seq<char>) -> Seq<char> {
    "line_start "@ + crate::text::decimal_of(line_start as nat) + " out of range for file "@ + file
}

/// Lines [line_start, line_end] (1-based, inclusive) of a file's content.
/// Returns formatted numbered lines: "10: fn main() {\n11: ..."
pub fn number_lines(file: &str, content: &str, line_start: u32, line_end: u32) -> (r: Result<
    String,
    String,
>)
    requires
        first_index(line_start) < crate::text::lines_of(content@).len() ==> first_index(line_start)
            <= line_end,
    ensures
        match r {
            Ok(text) => {
                &&& first_index(line_start) < crate::text::lines_of(content@).len()
                &&& text@ == numbered_range(
                    crate::text::lines_of(content@),
                    line_start,
                    line_end,
                )
            },
            Err(message) => {
                &&& first_index(line_start) >= crate::text::lines_of(content@).len()
                &&& message@ == out_of_range_message(line_start, file@)
            },
        },
{
    let all = lines(content);
    let ghost views = crate::text::lines_of(content@);
    let n: usize = all.len();
    let start: u64 = if line_start == 0 {
        0
    } else {
        (line_start - 1) as u64
    };
    if start >= n as u64 {
        let mut message = "line_start ".to_owned();
        message.append(decimal(line_start as u64).as_str());
        message.append(" out of range for file ");
        message.append(file);
        return Err(message);
    }
    let from: usize = start as usize;
    let to: usize = if line_end as u64 <= n as u64 {
        line_end as usize
    } else {
        n
    };
    let ghost part = views.subrange(from as int, to as int);
    let mut out: Vec<String> = Vec::new();
    let mut i: usize = from;
    while i < to
        invariant
            views == crate::text::texts(all@),
            n == all@.len(),
            from <= i <= to <= n,
            part == views.subrange(from as int, to as int),
            out@.len() == i - from,
            forall|k: int|
                0 <= k < i - from ==> (#[trigger] out@[k])@ == numbered_line(
                    (from + 1 + k) as nat,
                    part[k],
                ),
        decreases to - i,
    {
        let mut line = decimal(i as u64 + 1).as_str().to_owned();
        line.append(": ");
        line.append(all[i].as_str());
        assert(part[i - from] == all@[i as int]@);
        out.push(line);
        i = i + 1;
    }
    assert(crate::text::texts(out@) =~= numbered(part, (from + 1) as nat));
    Ok(join(out.as_slice(), "\n"))
}

/// The lines of a numbered text from one number to another; the whole text
/// where there is no such line.
pub open spec fn sliced(text: Seq<char>, chunk_start: u32, s: u32, e: u32) -> Seq<char> {
    let all = crate::text::lines_of(text);
    let from = if s >= chunk_start {
        s - chunk_start
    } else {
        0
    };
    let to = smaller(
        if e >= chunk_start {
            e - chunk_start + 1
        } else {
            1
        },
        all.len() as int,
    );
    if from >= to {
        text
    } else {
        crate::text::joined(all.subrange(from, to), "\n"@)
    }
}

/// Slice an already-numbered chunk text (first line == `chunk_start`) down to
/// the absolute line range [s, e].
/// Both bounds are 1-based inclusive and assumed already clamped to the chunk.
pub fn slice_numbered(numbered: &str, chunk_start: u32, s: u32, e: u32) -> (r: String)
    ensures
        r@ == sliced(numbered@, chunk_start, s, e),
{
    let all = lines(numbered);
    let ghost views = crate::text::lines_of(numbered@);
    let n: usize = all.len();
    let from: u64 = s.saturating_sub(chunk_start) as u64;
    let last: u64 = e.saturating_sub(chunk_start) as u64 + 1;
    let to: u64 = if last <= n as u64 {
        last
    } else {
        n as u64
    };
    if from >= n as u64 || from >= to {
        return numbered.to_owned();
    }
    let a: usize = from as usize;
    let b: usize = to as usize;
    let mut part: Vec<String> = Vec::new();
    let mut i: usize = a;
    assert(crate::text::texts(part@) =~= views.subrange(a as int, a as int));
    while i < b
        invariant
            views == crate::text::texts(all@),
            a <= i <= b <= all@.len(),
            crate::text::texts(part@) == views.subrange(a as int, i as int),
        decreases b - i,
    {
        let ghost before = crate::text::texts(part@);
        part.push(all[i].clone());
        assert(crate::text::texts(part@) =~= before.push(all@[i as int]@));
        assert(views.subrange(a as int, i + 1) =~= views.subrange(a as int, i as int).push(
            all@[i as int]@,
        ));
        i = i + 1;
    }
    join(part.as_slice(), "\n")
}

// ─── Hits and candidates ───

/// A stretch of a file that the vector search found.
#[derive(Debug)]
pub struct Hit {
    pub file: String,
    pub line_start: u32,
    pub line_end: u32,
    /// Order key of the relevance score.
    pub score: i32,
}

/// What a [`Hit`] says.
pub struct HitView {
    pub file: Seq<char>,
    pub line_start: u32,
    pub line_end: u32,
    pub score: i32,
}

impl View for Hit {
    type V = HitView;

    open spec fn view(&self) -> HitView {
        HitView {
            file: self.file@,
            line_start: self.line_start,
            line_end: self.line_end,
            score: self.score,
        }
    }
}

impl Clone for Hit {
    fn clone(&self) -> (r: Self)
        ensures
            r@ == self@,
    {
        Hit {
            file: self.file.clone(),
            line_start: self.line_start,
            line_end: self.line_end,
            score: self.score,
        }
    }
}

pub open spec fn hit_views(v: Seq<Hit>) -> Seq<HitView> {
    Seq::new(v.len(), |i: int| v[i]@)
}

/// How many hits are searched for: twice as many as are wanted, so that graph
/// expansion has candidates to work with.
pub fn search_width(top_k: usize) -> (r: usize)
    requires
        top_k * 2 <= usize::MAX,
    ensures
        r == top_k * 2,
{
    top_k * 2
}

/// A query cannot be searched for without an embedding.
pub fn check_embedding(len: usize) -> (r: Result<(), String>)
    ensures
        match r {
            Ok(_) => len > 0,
            Err(message) => len == 0 && message@ == "embed_query returned an empty vector"@,
        },
{
    if len == 0 {
        Err("embed_query returned an empty vector".to_owned())
    } else {
        Ok(())
    }
}

/// The hits that lie in a repository, in their order.
pub open spec fn hits_in(hits: Seq<HitView>, repo: Seq<char>) -> Seq<HitView>
    decreases hits.len(),
{
    if hits.len() == 0 {
        Seq::empty()
    } else if crate::paths::lies_in(hits.last().file, repo) {
        hits_in(hits.drop_last(), repo).push(hits.last())
    } else {
        hits_in(hits.drop_last(), repo)
    }
}

pub open spec fn filtered_hits(hits: Seq<HitView>, repo: Option<Seq<char>>) -> Seq<HitView> {
    match repo {
        Some(r) => hits_in(hits, r),
        None => hits,
    }
}

/// The hits that lie in the given repository, or all where none is given.
pub fn filter_hits(hits: Vec<Hit>, repo_filter: &Option<String>) -> (r: Vec<Hit>)
    ensures
        hit_views(r@) == filtered_hits(hit_views(hits@), crate::text::opt_text(*repo_filter)),
{
    let repo = match repo_filter {
        Some(repo) => repo,
        None => {
            return hits;
        },
    };
    let ghost all = hit_views(hits@);
    let mut out: Vec<Hit> = Vec::new();
    let mut i: usize = 0;
    assert(all.take(0) =~= Seq::empty());
    assert(hit_views(out@) =~= Seq::empty());
    while i < hits.len()
        invariant
            all == hit_views(hits@),
            i <= hits@.len(),
            hit_views(out@) == hits_in(all.take(i as int), repo@),
        decreases hits@.len() - i,
    {
        assert(all.take(i + 1).drop_last() =~= all.take(i as int));
        assert(all.take(i + 1).last() == hits@[i as int]@);
        if path_in_repo(hits[i].file.as_str(), repo.as_str()) {
            let ghost before = hit_views(out@);
            out.push(hits[i].clone());
            assert(hit_views(out@) =~= before.push(hits@[i as int]@));
        }
        i = i + 1;
    }
    assert(all.take(i as int) =~= all);
    out
}

/// The chunks that lie in a repository, in their order.
pub open spec fn chunks_in(
    chunks: Seq<crate::query::merger::MergeView>,
    repo: Seq<char>,
) -> Seq<crate::query::merger::MergeView>
    decreases chunks.len(),
{
    if chunks.len() == 0 {
        Seq::empty()
    } else if crate::paths::lies_in(chunks.last().file, repo) {
        chunks_in(chunks.drop_last(), repo).push(chunks.last())
    } else {
        chunks_in(chunks.drop_last(), repo)
    }
}

pub open spec fn filtered_chunks(
    chunks: Seq<crate::query::merger::MergeView>,
    repo: Option<Seq<char>>,
) -> Seq<crate::query::merger::MergeView> {
    match repo {
        Some(r) => chunks_in(chunks, r),
        None => chunks,
    }
}

/// The chunks that lie in the given repository, or all where none is given.
pub fn filter_chunks(chunks: Vec<MergeChunk>, repo_filter: &Option<String>) -> (r: Vec<MergeChunk>)
    ensures
        crate::query::merger::merge_views(r@) == filtered_chunks(
            crate::query::merger::merge_views(chunks@),
            crate::text::opt_text(*repo_filter),
        ),
{
    let repo = match repo_filter {
        Some(repo) => repo,
        None => {
            return chunks;
        },
    };
    let ghost all = crate::query::merger::merge_views(chunks@);
    let mut out: Vec<MergeChunk> = Vec::new();
    let mut i: usize = 0;
    assert(all.take(0) =~= Seq::empty());
    assert(crate::query::merger::merge_views(out@) =~= Seq::empty());
    while i < chunks.len()
        invariant
            all == crate::query::merger::merge_views(chunks@),
            i <= chunks@.len(),
            crate::query::merger::merge_views(out@) == chunks_in(all.take(i as int), repo@),
        decreases chunks@.len() - i,
    {
        assert(all.take(i + 1).drop_last() =~= all.take(i as int));
        assert(all.take(i + 1).last() == chunks@[i as int]@);
        if path_in_repo(chunks[i].file.as_str(), repo.as_str()) {
            let ghost before = crate::query::merger::merge_views(out@);
            out.push(chunks[i].clone());
            assert(crate::query::merger::merge_views(out@) =~= before.push(chunks@[i as int]@));
        }
        i = i + 1;
    }
    assert(all.take(i as int) =~= all);
    out
}

/// What the store holds of a chunk.
#[derive(Debug)]
pub struct StoredChunk {
    pub content: String,
    pub symbol_ref: Option<String>,
}

/// A candidate for a hit: its place and score, the stored content, and the
/// symbol that the store refers to. Nothing is known where the store has no
/// such chunk.
pub open spec fn candidate_of(
    hit: HitView,
    stored: Option<(Seq<char>, Option<Seq<char>>)>,
) -> crate::query::merger::MergeView {
    let content = match stored {
        Some((content, _)) => content,
        None => Seq::empty(),
    };
    let fqn = match stored {
        Some((_, Some(reference))) => crate::store::referred(reference),
        _ => None,
    };
    crate::query::merger::MergeView {
        file: hit.file,
        line_start: hit.line_start,
        line_end: hit.line_end,
        score: hit.score,
        content,
        symbol: match fqn {
            Some(name) => Some(crate::store::short_name_of(name)),
            None => None,
        },
        symbol_fqn: fqn,
    }
}

pub open spec fn stored_view(s: Option<StoredChunk>) -> Option<(Seq<char>, Option<Seq<char>>)> {
    match s {
        Some(c) => Some((c.content@, crate::text::opt_text(c.symbol_ref))),
        None => None,
    }
}

/// Makes a candidate of a hit and what the store holds of it.
pub fn candidate(hit: &Hit, stored: &Option<StoredChunk>) -> (r: MergeChunk)
    ensures
        r@ == candidate_of(hit@, stored_view(*stored)),
{
    let content = match stored {
        Some(chunk) => chunk.content.clone(),
        None => String::new(),
    };
    let symbol_fqn = match stored {
        Some(chunk) => match &chunk.symbol_ref {
            Some(reference) => read_symbol_ref(reference.as_str()),
            None => None,
        },
        None => None,
    };
    let symbol = match &symbol_fqn {
        Some(fqn) => Some(short_name(fqn.as_str())),
        None => None,
    };
    assert(stored is None ==> content@ =~= Seq::<char>::empty());
    MergeChunk {
        file: hit.file.clone(),
        line_start: hit.line_start,
        line_end: hit.line_end,
        score: hit.score,
        content,
        symbol,
        symbol_fqn,
    }
}

pub open spec fn stored_views(v: Seq<Option<StoredChunk>>) -> Seq<
    Option<(Seq<char>, Option<Seq<char>>)>,
> {
    Seq::new(v.len(), |i: int| stored_view(v[i]))
}

/// One candidate for each hit, in their order.
pub open spec fn candidates_of(
    hits: Seq<HitView>,
    stored: Seq<Option<(Seq<char>, Option<Seq<char>>)>>,
) -> Seq<crate::query::merger::MergeView> {
    Seq::new(hits.len(), |i: int| candidate_of(hits[i], opt_at(stored, i)))
}

/// Makes candidates of hits; `stored` tells what the store holds of each.
pub fn candidates(hits: &Vec<Hit>, stored: &Vec<Option<StoredChunk>>) -> (r: Vec<MergeChunk>)
    ensures
        crate::query::merger::merge_views(r@) == candidates_of(
            hit_views(hits@),
            stored_views(stored@),
        ),
{
    let ghost wanted = candidates_of(hit_views(hits@), stored_views(stored@));
    let nothing: Option<StoredChunk> = None;
    let mut out: Vec<MergeChunk> = Vec::new();
    let mut i: usize = 0;
    while i < hits.len()
        invariant
            wanted == candidates_of(hit_views(hits@), stored_views(stored@)),
            nothing is None,
            i <= hits@.len(),
            out@.len() == i,
            forall|k: int| 0 <= k < i ==> (#[trigger] out@[k])@ == wanted[k],
        decreases hits@.len() - i,
    {
        let held = if i < stored.len() {
            &stored[i]
        } else {
            &nothing
        };
        assert(stored_view(*held) == opt_at(stored_views(stored@), i as int));
        out.push(candidate(&hits[i], held));
        i = i + 1;
    }
    assert(crate::query::merger::merge_views(out@) =~= wanted);
    out
}

/// Candidates and what graph expansion added to them, merged and capped.
pub fn merge_pool(base: Vec<MergeChunk>, expanded: Vec<MergeChunk>, top_k: usize) -> (r: Vec<
    MergeChunk,
>)
    ensures
        crate::query::merger::merge_views(r@) == crate::query::merger::at_most(
            crate::query::merger::merged_all(
                crate::query::merger::merge_views(base@) + crate::query::merger::merge_views(
                    expanded@,
                ),
            ),
            top_k as int,
        ),
{
    let mut all = base;
    let mut more = expanded;
    all.append(&mut more);
    assert(crate::query::merger::merge_views(all@) =~= crate::query::merger::merge_views(base@)
        + crate::query::merger::merge_views(expanded@));
    merge_chunks(all, top_k)
}

// ─── Callers ───

/// What the call table is searched for: the qualified name, or in stores of the
/// first schema the last part of it.
pub open spec fn callee_key_of(fqn: Seq<char>, schema_version: u32) -> Seq<char> {
    if schema_version >= 2 {
        fqn
    } else {
        crate::store::short_name_of(fqn)
    }
}

pub fn callee_key(fqn: &str, schema_version: u32) -> (r: String)
    ensures
        r@ == callee_key_of(fqn@, schema_version),
{
    if schema_version >= 2 {
        fqn.to_owned()
    } else {
        short_name(fqn)
    }
}

/// The low 32 bits of a count.
pub open spec fn low_count(n: nat) -> u32 {
    (n % 0x1_0000_0000) as u32
}

/// How many callers there are and how many files they are in.
pub open spec fn callers_in(files: Seq<Seq<char>>) -> (u32, u32) {
    (low_count(files.len()), low_count(files.to_set().len()))
}

/// Callers and distinct files, from the file of each caller.
pub fn count_callers(files: &Vec<String>) -> (r: (u32, u32))
    ensures
        r.0 == low_count(files@.len()),
        r.1 == low_count(crate::text::texts(files@).to_set().len()),
        r == callers_in(crate::text::texts(files@)),
{
    let ghost all = crate::text::texts(files@);
    let mut distinct: Vec<&String> = Vec::new();
    let ghost mut seen: Seq<Seq<char>> = Seq::empty();
    let mut i: usize = 0;
    assert(all.take(0).to_set() =~= seen.to_set());
    while i < files.len()
        invariant
            all == crate::text::texts(files@),
            i <= files@.len(),
            seen.len() == distinct@.len(),
            forall|k: int| 0 <= k < seen.len() ==> #[trigger] seen[k] == distinct@[k]@,
            seen.no_duplicates(),
            seen.to_set() == all.take(i as int).to_set(),
        decreases files@.len() - i,
    {
        let mut known = false;
        let mut j: usize = 0;
        while j < distinct.len()
            invariant
                i < files@.len(),
                all == crate::text::texts(files@),
                j <= distinct@.len(),
                seen.len() == distinct@.len(),
                forall|k: int| 0 <= k < seen.len() ==> #[trigger] seen[k] == distinct@[k]@,
                known <==> exists|k: int| 0 <= k < j && #[trigger] seen[k] == all[i as int],
            decreases distinct@.len() - j,
        {
            if same_text(distinct[j].as_str(), files[i].as_str()) {
                assert(seen[j as int] == all[i as int]);
                known = true;
            }
            j = j + 1;
        }
        proof {
            assert(all.take(i + 1) =~= all.take(i as int).push(all[i as int]));
            all.take(i as int).lemma_push_to_set_commute(all[i as int]);
        }
        if !known {
            distinct.push(&files[i]);
            proof {
                seen.lemma_push_to_set_commute(all[i as int]);
                assert(!seen.contains(all[i as int]));
                seen = seen.push(all[i as int]);
            }
        } else {
            proof {
                assert(seen.contains(all[i as int]));
                assert(seen.to_set().contains(all[i as int]));
                assert(all.take(i as int).to_set().insert(all[i as int]) =~= all.take(
                    i as int,
                ).to_set());
            }
        }
        i = i + 1;
    }
    proof {
        assert(all.take(i as int) =~= all);
        seen.unique_seq_to_set();
    }
    let count: u64 = files.len() as u64;
    let file_count: u64 = distinct.len() as u64;
    ((count % 0x1_0000_0000) as u32, (file_count % 0x1_0000_0000) as u32)
}

/// What is looked up for a symbol.
pub open spec fn lookup_of(
    fqn: Option<Seq<char>>,
    has_store: bool,
    schema_version: u32,
) -> Option<Seq<char>> {
    match fqn {
        Some(name) => if has_store {
            Some(callee_key_of(name, schema_version))
        } else {
            None
        },
        None => None,
    }
}

/// What to look up for a chunk: nothing where it has no symbol or where no store
/// holds its file.
pub fn caller_lookup(chunk: &MergeChunk, has_store: bool, schema_version: u32) -> (r: Option<
    String,
>)
    ensures
        crate::text::opt_text(r) == (match chunk@.symbol_fqn {
            Some(fqn) => if has_store {
                Some(callee_key_of(fqn, schema_version))
            } else {
                None
            },
            None => None,
        }),
        crate::text::opt_text(r) == lookup_of(chunk@.symbol_fqn, has_store, schema_version),
{
    match &chunk.symbol_fqn {
        Some(fqn) => if has_store {
            Some(callee_key(fqn.as_str(), schema_version))
        } else {
            None
        },
        None => None,
    }
}

/// The schema of the stores; the first one, whose lookups are slower but
/// correct, where none could be asked.
pub fn schema_version_or_first(version: Option<u32>) -> (r: u32)
    ensures
        r == (match version {
            Some(v) => v,
            None => 1,
        }),
{
    match version {
        Some(v) => v,
        None => 1,
    }
}

// ─── The answer ───

/// How the candidates are ranked.
#[derive(Clone, Copy, Debug, PartialEq, Eq, Structural)]
pub enum RerankMode {
    /// The model may search on its own; its indices address an extended pool.
    Agentic,
    /// One question, one answer.
    SingleShot,
}

/// The model may search on its own only where that is wanted, there is a model,
/// and the query names a repository.
pub fn rerank_mode(agentic_rag: bool, has_client: bool, has_repo: bool) -> (r: RerankMode)
    ensures
        r == (if agentic_rag && has_client && has_repo {
            RerankMode::Agentic
        } else {
            RerankMode::SingleShot
        }),
{
    if agentic_rag && has_client && has_repo {
        RerankMode::Agentic
    } else {
        RerankMode::SingleShot
    }
}

pub open spec fn opt_at<A>(s: Seq<Option<A>>, i: int) -> Option<A> {
    if 0 <= i < s.len() {
        s[i]
    } else {
        None
    }
}

pub open spec fn opt_texts(v: Seq<Option<String>>) -> Seq<Option<Seq<char>>> {
    Seq::new(v.len(), |i: int| crate::text::opt_text(v[i]))
}

/// A result with the given lines and content of a chunk.
pub open spec fn result_of(
    chunk: crate::query::merger::MergeView,
    line_start: u32,
    line_end: u32,
    content: Seq<char>,
    stats: Option<(u32, u32)>,
) -> ResultView {
    ResultView {
        file: chunk.file,
        line_start,
        line_end,
        score: chunk.score,
        content,
        symbol: chunk.symbol,
        callers: match stats {
            Some((callers, _)) => Some(callers),
            None => None,
        },
        caller_files: match stats {
            Some((_, files)) => Some(files),
            None => None,
        },
    }
}

/// A whole chunk: its numbered lines, or its stored content where the file could
/// not be read.
pub open spec fn whole_result(
    chunk: crate::query::merger::MergeView,
    numbered: Option<Seq<char>>,
    stats: Option<(u32, u32)>,
) -> ResultView {
    result_of(
        chunk,
        chunk.line_start,
        chunk.line_end,
        match numbered {
            Some(text) => text,
            None => chunk.content,
        },
        stats,
    )
}

/// The results for one chunk: one for each selected range, or the whole chunk
/// where nothing is selected or the file could not be read.
pub open spec fn chunk_results(
    chunk: crate::query::merger::MergeView,
    numbered: Option<Seq<char>>,
    selection: Option<Seq<(u32, u32)>>,
    stats: Option<(u32, u32)>,
) -> Seq<ResultView> {
    if numbered is Some && selection is Some && selection->0.len() > 0 {
        Seq::new(
            selection->0.len(),
            |i: int|
                {
                    let (s, e) = selection->0[i];
                    result_of(chunk, s, e, sliced(numbered->0, chunk.line_start, s, e), stats)
                },
        )
    } else {
        seq![whole_result(chunk, numbered, stats)]
    }
}

/// The results for the first positions of a ranking. Positions that name no
/// chunk of the pool are left out.
pub open spec fn ranked_results(
    indices: Seq<usize>,
    selections: Seq<Option<Seq<(u32, u32)>>>,
    chunks: Seq<crate::query::merger::MergeView>,
    numbered: Seq<Option<Seq<char>>>,
    stats: Seq<Option<(u32, u32)>>,
) -> Seq<ResultView>
    decreases indices.len(),
{
    if indices.len() == 0 {
        Seq::empty()
    } else {
        let before = ranked_results(indices.drop_last(), selections, chunks, numbered, stats);
        let at = indices.last() as int;
        if at < chunks.len() {
            before + chunk_results(
                chunks[at],
                opt_at(numbered, at),
                opt_at(selections, indices.len() - 1),
                opt_at(stats, at),
            )
        } else {
            before
        }
    }
}

fn make_result(
    chunk: &MergeChunk,
    line_start: u32,
    line_end: u32,
    content: String,
    stats: Option<(u32, u32)>,
) -> (r: CodeResult)
    ensures
        r@ == result_of(chunk@, line_start, line_end, content@, stats),
{
    let (callers, caller_files) = match stats {
        Some((callers, files)) => (Some(callers), Some(files)),
        None => (None, None),
    };
    CodeResult {
        file: chunk.file.clone(),
        line_start,
        line_end,
        score: chunk.score,
        content,
        symbol: clone_opt(&chunk.symbol),
        callers,
        caller_files,
    }
}

fn push_chunk_results(
    chunk: &MergeChunk,
    numbered: &Option<String>,
    selection: &Option<Vec<(u32, u32)>>,
    stats: Option<(u32, u32)>,
    results: &mut Vec<CodeResult>,
)
    ensures
        result_views(final(results)@) == result_views(old(results)@) + chunk_results(
            chunk@,
            crate::text::opt_text(*numbered),
            crate::query::ranges::opt_ranges(*selection),
            stats,
        ),
{
    let ghost before = result_views(results@);
    let ghost wanted = chunk_results(
        chunk@,
        crate::text::opt_text(*numbered),
        crate::query::ranges::opt_ranges(*selection),
        stats,
    );
    if let (Some(text), Some(ranges)) = (numbered, selection) {
        if ranges.len() > 0 {
            let mut i: usize = 0;
            assert(before + wanted.take(0) =~= before);
            while i < ranges.len()
                invariant
                    wanted.len() == ranges@.len(),
                    forall|k: int|
                        0 <= k < ranges@.len() ==> #[trigger] wanted[k] == result_of(
                            chunk@,
                            ranges@[k].0,
                            ranges@[k].1,
                            sliced(text@, chunk@.line_start, ranges@[k].0, ranges@[k].1),
                            stats,
                        ),
                    i <= ranges@.len(),
                    result_views(results@) == before + wanted.take(i as int),
                decreases ranges@.len() - i,
            {
                let (s, e) = ranges[i];
                let content = slice_numbered(text.as_str(), chunk.line_start, s, e);
                let ghost had = results@;
                results.push(make_result(chunk, s, e, content, stats));
                assert(result_views(results@) =~= result_views(had).push(wanted[i as int]));
                assert(before + wanted.take(i + 1) =~= (before + wanted.take(i as int)).push(
                    wanted[i as int],
                ));
                i = i + 1;
            }
            assert(wanted.take(i as int) =~= wanted);
            return;
        }
    }
    let content = match numbered {
        Some(text) => text.clone(),
        None => chunk.content.clone(),
    };
    results.push(make_result(chunk, chunk.line_start, chunk.line_end, content, stats));
    assert(result_views(results@) =~= before + wanted);
}

/// Build final results in reranked order. When the LLM selected line ranges
/// for a chunk, emit one block per range (sliced from the already-read
/// numbered text — no re-read); otherwise emit the whole chunk.
pub fn build_results(
    indices: &Vec<usize>,
    selections: &Vec<Option<Vec<(u32, u32)>>>,
    chunks: &Vec<MergeChunk>,
    numbered: &Vec<Option<String>>,
    stats: &Vec<Option<(u32, u32)>>,
) -> (r: Vec<CodeResult>)
    ensures
        result_views(r@) == ranked_results(
            indices@,
            crate::query::reranker::selection_views(selections@),
            crate::query::merger::merge_views(chunks@),
            opt_texts(numbered@),
            stats@,
        ),
{
    let ghost sels = crate::query::reranker::selection_views(selections@);
    let ghost views = crate::query::merger::merge_views(chunks@);
    let ghost nums = opt_texts(numbered@);
    let no_text: Option<String> = None;
    let no_ranges: Option<Vec<(u32, u32)>> = None;
    let mut results: Vec<CodeResult> = Vec::new();
    let mut k: usize = 0;
    assert(indices@.take(0) =~= Seq::empty());
    assert(result_views(results@) =~= Seq::empty());
    while k < indices.len()
        invariant
            sels == crate::query::reranker::selection_views(selections@),
            views == crate::query::merger::merge_views(chunks@),
            nums == opt_texts(numbered@),
            no_text is None,
            no_ranges is None,
            k <= indices@.len(),
            result_views(results@) == ranked_results(
                indices@.take(k as int),
                sels,
                views,
                nums,
                stats@,
            ),
        decreases indices@.len() - k,
    {
        assert(indices@.take(k + 1).drop_last() =~= indices@.take(k as int));
        assert(indices@.take(k + 1).last() == indices@[k as int]);
        let at: usize = indices[k];
        if at < chunks.len() {
            let text = if at < numbered.len() {
                &numbered[at]
            } else {
                &no_text
            };
            let ranges = if k < selections.len() {
                &selections[k]
            } else {
                &no_ranges
            };
            let stat = if at < stats.len() {
                stats[at]
            } else {
                None
            };
            assert(crate::text::opt_text(*text) == opt_at(nums, at as int));
            assert(crate::query::ranges::opt_ranges(*ranges) == opt_at(sels, k as int));
            push_chunk_results(&chunks[at], text, ranges, stat, &mut results);
        }
        k = k + 1;
    }
    assert(indices@.take(k as int) =~= indices@);
    results
}

/// The candidates as they were before ranking, each whole.
pub open spec fn unranked_results(
    chunks: Seq<crate::query::merger::MergeView>,
    numbered: Seq<Option<Seq<char>>>,
    stats: Seq<Option<(u32, u32)>>,
) -> Seq<ResultView> {
    Seq::new(
        chunks.len(),
        |i: int| whole_result(chunks[i], opt_at(numbered, i), opt_at(stats, i)),
    )
}

/// Pre-rerank diagnostic output, reusing the same numbered reads.
pub fn build_unranked(
    chunks: &Vec<MergeChunk>,
    numbered: &Vec<Option<String>>,
    stats: &Vec<Option<(u32, u32)>>,
) -> (r: Vec<CodeResult>)
    ensures
        result_views(r@) == unranked_results(
            crate::query::merger::merge_views(chunks@),
            opt_texts(numbered@),
            stats@,
        ),
{
    let ghost views = crate::query::merger::merge_views(chunks@);
    let ghost nums = opt_texts(numbered@);
    let mut out: Vec<CodeResult> = Vec::new();
    let mut i: usize = 0;
    while i < chunks.len()
        invariant
            views == crate::query::merger::merge_views(chunks@),
            nums == opt_texts(numbered@),
            i <= chunks@.len(),
            out@.len() == i,
            forall|k: int|
                0 <= k < i ==> (#[trigger] out@[k])@ == whole_result(
                    views[k],
                    opt_at(nums, k),
                    opt_at(stats@, k),
                ),
        decreases chunks@.len() - i,
    {
        let chunk = &chunks[i];
        let mut content = chunk.content.clone();
        if i < numbered.len() {
            if let Some(text) = &numbered[i] {
                content = text.clone();
            }
        }
        let stat = if i < stats.len() {
            stats[i]
        } else {
            None
        };
        proof {
            if i < numbered@.len() {
                assert(opt_at(nums, i as int) == crate::text::opt_text(numbered@[i as int]));
            }
        }
        out.push(make_result(chunk, chunk.line_start, chunk.line_end, content, stat));
        i = i + 1;
    }
    assert(result_views(out@) =~= unranked_results(views, nums, stats@));
    out
}

pub open spec fn nothing_found(embed_ms: u64, search_ms: u64, total_ms: u64) -> AnswerView {
    AnswerView {
        results: Seq::empty(),
        pre_rerank_results: Seq::empty(),
        timing: QueryTiming {
            embed_ms,
            search_ms,
            graph_ms: 0,
            merge_ms: 0,
            rerank_ms: 0,
            total_ms,
        },
        rerank: None,
    }
}

/// The answer to a query that nothing was found for.
pub fn empty_answer(embed_ms: u64, search_ms: u64, total_ms: u64) -> (r: QueryResult)
    ensures
        r@ == nothing_found(embed_ms, search_ms, total_ms),
{
    let r = QueryResult {
        results: Vec::new(),
        pre_rerank_results: Vec::new(),
        timing: QueryTiming {
            embed_ms,
            search_ms,
            graph_ms: 0,
            merge_ms: 0,
            rerank_ms: 0,
            total_ms,
        },
        rerank: None,
    };
    assert(r@.results =~= Seq::empty());
    assert(r@.pre_rerank_results =~= Seq::empty());
    r
}

/// The results that lie in a repository, in their order.
pub open spec fn results_in(results: Seq<ResultView>, repo: Seq<char>) -> Seq<ResultView>
    decreases results.len(),
{
    if results.len() == 0 {
        Seq::empty()
    } else if crate::paths::lies_in(results.last().file, repo) {
        results_in(results.drop_last(), repo).push(results.last())
    } else {
        results_in(results.drop_last(), repo)
    }
}

pub open spec fn filtered_results(
    results: Seq<ResultView>,
    repo: Option<Seq<char>>,
) -> Seq<ResultView> {
    match repo {
        Some(r) => results_in(results, r),
        None => results,
    }
}

fn filter_results(results: Vec<CodeResult>, repo_filter: &Option<String>) -> (r: Vec<CodeResult>)
    ensures
        result_views(r@) == filtered_results(
            result_views(results@),
            crate::text::opt_text(*repo_filter),
        ),
{
    let repo = match repo_filter {
        Some(repo) => repo,
        None => {
            return results;
        },
    };
    let ghost all = result_views(results@);
    let mut out: Vec<CodeResult> = Vec::new();
    let mut i: usize = 0;
    assert(all.take(0) =~= Seq::empty());
    assert(result_views(out@) =~= Seq::empty());
    while i < results.len()
        invariant
            all == result_views(results@),
            i <= results@.len(),
            result_views(out@) == results_in(all.take(i as int), repo@),
        decreases results@.len() - i,
    {
        assert(all.take(i + 1).drop_last() =~= all.take(i as int));
        assert(all.take(i + 1).last() == results@[i as int]@);
        if path_in_repo(results[i].file.as_str(), repo.as_str()) {
            let ghost before = result_views(out@);
            out.push(results[i].clone());
            assert(result_views(out@) =~= before.push(results@[i as int]@));
        }
        i = i + 1;
    }
    assert(all.take(i as int) =~= all);
    out
}

/// What the candidates were extended by where the model searched on its own.
pub struct Pool {
    pub chunks: Vec<MergeChunk>,
    pub numbered: Vec<Option<String>>,
}

/// The answer: the ranked results of the pool, or of the candidates where there
/// is no pool; the candidates before ranking; and how the ranking came about.
/// Only results of the repository that the query names are shown.
pub open spec fn answer_of(
    repo_filter: Option<Seq<char>>,
    merged: Seq<crate::query::merger::MergeView>,
    numbered: Seq<Option<Seq<char>>>,
    caller_stats: Seq<Option<(u32, u32)>>,
    extended_pool: Option<Pool>,
    output: crate::query::reranker::OutputView,
    timing: QueryTiming,
) -> AnswerView {
    let ranked = match extended_pool {
        Some(pool) => ranked_results(
            output.reranked_indices,
            output.line_selections,
            crate::query::merger::merge_views(pool.chunks@),
            opt_texts(pool.numbered@),
            caller_stats,
        ),
        None => ranked_results(
            output.reranked_indices,
            output.line_selections,
            merged,
            numbered,
            caller_stats,
        ),
    };
    AnswerView {
        results: filtered_results(ranked, repo_filter),
        pre_rerank_results: filtered_results(
            unranked_results(merged, numbered, caller_stats),
            repo_filter,
        ),
        timing,
        rerank: Some(
            RerankInfoView {
                raw_request: output.raw_request,
                raw_response: output.raw_response,
                fallback_used: output.fallback_used,
                skip_reason: output.skip_reason,
            },
        ),
    }
}

/// Puts the answer together. Reranked indices are resolved against the extended
/// pool where there is one, else against the candidates; caller stats are known
/// of candidates only. What lies outside of the repository that the query names
/// is left out.
pub fn build_answer(
    repo_filter: &Option<String>,
    merged: &Vec<MergeChunk>,
    numbered: &Vec<Option<String>>,
    caller_stats: &Vec<Option<(u32, u32)>>,
    extended_pool: &Option<Pool>,
    output: RerankOutput,
    timing: QueryTiming,
) -> (r: QueryResult)
    ensures
        r@ == answer_of(
            crate::text::opt_text(*repo_filter),
            crate::query::merger::merge_views(merged@),
            opt_texts(numbered@),
            caller_stats@,
            *extended_pool,
            output@,
            timing,
        ),
{
    let ranked = match extended_pool {
        Some(pool) => build_results(
            &output.reranked_indices,
            &output.line_selections,
            &pool.chunks,
            &pool.numbered,
            caller_stats,
        ),
        None => build_results(
            &output.reranked_indices,
            &output.line_selections,
            merged,
            numbered,
            caller_stats,
        ),
    };
    let results = filter_results(ranked, repo_filter);
    let pre_rerank_results = filter_results(
        build_unranked(merged, numbered, caller_stats),
        repo_filter,
    );
    QueryResult {
        results,
        pre_rerank_results,
        timing,
        rerank: Some(
            RerankInfo {
                raw_request: output.raw_request,
                raw_response: output.raw_response,
                fallback_used: output.fallback_used,
                skip_reason: output.skip_reason,
            },
        ),
    }
}

// ─── The laws ───

proof fn lemma_numbered_is_plain(n: nat, line: Seq<char>)
    requires
        forall|k: int| 0 <= k < line.len() ==> #[trigger] line[k] != '\n',
        line.len() > 0 ==> line.last() != '\r',
    ensures
        crate::text::is_plain_line(numbered_line(n, line)),
{
    reveal_strlit(": ");
    let s = numbered_line(n, line);
    let digits = crate::text::decimal_of(n);
    crate::text::lemma_decimal_digits(n);
    assert forall|i: int| 0 <= i < s.len() implies #[trigger] s[i] != '\n' by {
        if i < digits.len() {
            assert(s[i] == digits[i]);
        } else if i >= digits.len() + 2 {
            assert(s[i] == line[i - digits.len() - 2]);
        }
    }
    if line.len() > 0 {
        assert(s.last() == line.last());
    } else {
        assert(s.last() == ' ');
    }
}

/// Slicing numbered lines gives the numbered lines of the slice: a selection
/// shows exactly the lines, under their own numbers, that it names. Lines are
/// taken as they are read from a file, without a carriage return at the end.
pub proof fn law_slice_shows_the_selected_lines(
    all: Seq<Seq<char>>,
    chunk_start: u32,
    s: u32,
    e: u32,
)
    requires
        forall|i: int, k: int|
            0 <= i < all.len() && 0 <= k < all[i].len() ==> #[trigger] all[i][k] != '\n',
        forall|i: int|
            0 <= i < all.len() && (#[trigger] all[i]).len() > 0 ==> all[i].last() != '\r',
        chunk_start <= s <= e < chunk_start + all.len(),
    ensures
        sliced(
            crate::text::joined(numbered(all, chunk_start as nat), "\n"@),
            chunk_start,
            s,
            e,
        ) == crate::text::joined(
            numbered(all.subrange(s - chunk_start, e - chunk_start + 1), s as nat),
            "\n"@,
        ),
{
    let shown = numbered(all, chunk_start as nat);
    assert forall|i: int| 0 <= i < shown.len() implies crate::text::is_plain_line(
        #[trigger] shown[i],
    ) by {
        assert forall|k: int| 0 <= k < all[i].len() implies #[trigger] all[i][k] != '\n' by {}
        lemma_numbered_is_plain((chunk_start + i) as nat, all[i]);
    }
    crate::text::law_lines_of_joined(shown);
    assert(shown.subrange(s - chunk_start, e - chunk_start + 1) =~= numbered(
        all.subrange(s - chunk_start, e - chunk_start + 1),
        s as nat,
    ));
}

/// Slicing what was read of a file is reading the slice: the lines of a
/// selection are the file's own lines, under the file's own numbers, also where
/// the file ends before the selection does. A line that still ends in a carriage
/// return (`"a\r\r\n"`) would lose it.
pub proof fn law_slicing_is_reading_the_slice(
    content: Seq<char>,
    line_start: u32,
    line_end: u32,
    s: u32,
    e: u32,
)
    requires
        1 <= line_start <= s <= e <= line_end,
        s <= crate::text::lines_of(content).len(),
        forall|i: int|
            0 <= i < crate::text::lines_of(content).len() && (#[trigger] crate::text::lines_of(
                content,
            )[i]).len() > 0 ==> crate::text::lines_of(content)[i].last() != '\r',
    ensures
        sliced(
            numbered_range(crate::text::lines_of(content), line_start, line_end),
            line_start,
            s,
            e,
        ) == numbered_range(crate::text::lines_of(content), s, e),
{
    let lines = crate::text::lines_of(content);
    let to = smaller(line_end as int, lines.len() as int);
    let all = lines.subrange(line_start - 1, to);
    let shown = numbered(all, line_start as nat);
    crate::text::lemma_lines_hold_no_newline(content);
    assert forall|i: int, k: int| 0 <= i < all.len() && 0 <= k < all[i].len() implies
        #[trigger] all[i][k] != '\n' by {
        assert(all[i] == lines[line_start - 1 + i]);
        assert(lines[line_start - 1 + i][k] != '\n');
    }
    assert forall|i: int| 0 <= i < shown.len() implies crate::text::is_plain_line(
        #[trigger] shown[i],
    ) by {
        assert(all[i] == lines[line_start - 1 + i]);
        assert forall|k: int| 0 <= k < all[i].len() implies #[trigger] all[i][k] != '\n' by {}
        lemma_numbered_is_plain((line_start + i) as nat, all[i]);
    }
    crate::text::law_lines_of_joined(shown);
    let last = smaller(e as int, lines.len() as int);
    assert(shown.subrange(s - line_start, last - line_start + 1) =~= numbered(
        lines.subrange(s - 1, last),
        s as nat,
    ));
}

/// With nothing selected, every ranked position of the pool gives one result,
/// which shows the whole chunk.
pub proof fn law_unselected_positions_show_whole_chunks(
    indices: Seq<usize>,
    selections: Seq<Option<Seq<(u32, u32)>>>,
    chunks: Seq<crate::query::merger::MergeView>,
    numbered: Seq<Option<Seq<char>>>,
    stats: Seq<Option<(u32, u32)>>,
)
    requires
        forall|i: int| 0 <= i < indices.len() ==> (#[trigger] indices[i]) < chunks.len(),
        forall|i: int| 0 <= i < indices.len() ==> opt_at(selections, i) is None,
    ensures
        ranked_results(indices, selections, chunks, numbered, stats) == Seq::new(
            indices.len(),
            |i: int|
                whole_result(
                    chunks[indices[i] as int],
                    opt_at(numbered, indices[i] as int),
                    opt_at(stats, indices[i] as int),
                ),
        ),
    decreases indices.len(),
{
    if indices.len() > 0 {
        let front = indices.drop_last();
        assert forall|i: int| 0 <= i < front.len() implies (#[trigger] front[i])
            < chunks.len() by {
            assert(front[i] == indices[i]);
        }
        law_unselected_positions_show_whole_chunks(front, selections, chunks, numbered, stats);
        assert(indices[indices.len() - 1] == indices.last());
        assert(opt_at(selections, indices.len() - 1) is None);
    }
    assert(ranked_results(indices, selections, chunks, numbered, stats) =~= Seq::new(
        indices.len(),
        |i: int|
            whole_result(
                chunks[indices[i] as int],
                opt_at(numbered, indices[i] as int),
                opt_at(stats, indices[i] as int),
            ),
    ));
}

}
