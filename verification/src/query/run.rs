//! One query: from the embedding of its text to the answer, with everything that
//! has to be asked of the outside in between.
use vstd::prelude::*;

use crate::query::engine::{
    build_answer, candidates, check_embedding, empty_answer, filter_chunks, filter_hits, merge_pool,
    rerank_mode, search_width, Hit, Pool, QueryResult, QueryTiming, RerankMode, StoredChunk,
};
use crate::query::merger::MergeChunk;
use crate::query::reranker::RerankOutput;

verus! {

/// What a query waits for.
#[derive(Clone, Copy, Debug, PartialEq, Eq, Structural)]
pub enum QueryState {
    /// For the embedding of its text.
    Embedding,
    /// For the hits of the vector search.
    Searching,
    /// For what the store holds of the hits.
    Fetching,
    /// For what graph expansion adds.
    Expanding,
    /// For the numbered lines of the candidates, and how often they are called.
    Reading,
    /// For the ranking of the candidates.
    Ranking,
    /// For nothing: the query has ended.
    Ended,
}

/// What a query asks for.
#[derive(Debug)]
pub struct QueryRequest {
    pub top_k: usize,
    /// The repository that results have to lie in.
    pub repo_filter: Option<String>,
    /// Whether the model may search on its own.
    pub agentic_rag: bool,
    /// Whether there is a model.
    pub has_client: bool,
    /// Whether the query ends with its candidates, unranked.
    pub sub_query: bool,
}

/// What a [`QueryRequest`] says.
pub struct RequestView {
    pub top_k: usize,
    pub repo_filter: Option<Seq<char>>,
    pub agentic_rag: bool,
    pub has_client: bool,
    pub sub_query: bool,
}

impl View for QueryRequest {
    type V = RequestView;

    open spec fn view(&self) -> RequestView {
        RequestView {
            top_k: self.top_k,
            repo_filter: crate::text::opt_text(self.repo_filter),
            agentic_rag: self.agentic_rag,
            has_client: self.has_client,
            sub_query: self.sub_query,
        }
    }
}

/// A query on its way.
pub struct QueryRun {
    pub state: QueryState,
    pub wanted: QueryRequest,
    /// The hits that lie in the repository.
    pub hits: Vec<Hit>,
    /// The candidates; merged once graph expansion is done.
    pub chunks: Vec<MergeChunk>,
    pub numbered: Vec<Option<String>>,
    pub caller_stats: Vec<Option<(u32, u32)>>,
    pub timing: QueryTiming,
}

/// What a [`QueryRun`] says.
pub struct RunView {
    pub state: QueryState,
    pub wanted: RequestView,
    pub hits: Seq<crate::query::engine::HitView>,
    pub chunks: Seq<crate::query::merger::MergeView>,
    pub numbered: Seq<Option<Seq<char>>>,
    pub caller_stats: Seq<Option<(u32, u32)>>,
    pub timing: QueryTiming,
}

impl View for QueryRun {
    type V = RunView;

    open spec fn view(&self) -> RunView {
        RunView {
            state: self.state,
            wanted: self.wanted@,
            hits: crate::query::engine::hit_views(self.hits@),
            chunks: crate::query::merger::merge_views(self.chunks@),
            numbered: crate::query::engine::opt_texts(self.numbered@),
            caller_stats: self.caller_stats@,
            timing: self.timing,
        }
    }
}

/// What happened, and how long it took.
pub enum QueryEvent {
    /// An embedding with the given number of components came back.
    Embedded { len: usize, embed_ms: u64 },
    /// `total_ms` is the time since the query began.
    Searched { hits: Vec<Hit>, search_ms: u64, total_ms: u64 },
    /// What the store holds of each hit of the run.
    Fetched { stored: Vec<Option<StoredChunk>> },
    Expanded { chunks: Vec<MergeChunk>, graph_ms: u64 },
    /// Of each candidate of the run.
    Read { numbered: Vec<Option<String>>, caller_stats: Vec<Option<(u32, u32)>> },
    /// `merge_ms` is the time that the step after the expansion took.
    Ranked { output: RerankOutput, pool: Option<Pool>, merge_ms: u64, rerank_ms: u64, total_ms: u64 },
}

/// What the query does next.
pub enum QueryAction {
    /// Search for as many hits.
    Search { width: usize },
    /// Fetch what the store holds of the hits of the run.
    Fetch,
    /// Expand the candidates of the run along the call graph.
    Expand,
    /// Read the candidates of the run from disk, and count their callers.
    Read,
    /// Rank the candidates of the run.
    Rank { mode: RerankMode },
    /// End with an error.
    Fail { error: String },
    /// End with the answer.
    Answer { result: QueryResult },
    /// End with the candidates of the run.
    Candidates,
}

/// What a [`QueryAction`] says.
pub enum ActionView {
    Search(usize),
    Fetch,
    Expand,
    Read,
    Rank(RerankMode),
    Fail(Seq<char>),
    Answer(crate::query::engine::AnswerView),
    Candidates,
}

impl View for QueryAction {
    type V = ActionView;

    open spec fn view(&self) -> ActionView {
        match self {
            QueryAction::Search { width } => ActionView::Search(*width),
            QueryAction::Fetch => ActionView::Fetch,
            QueryAction::Expand => ActionView::Expand,
            QueryAction::Read => ActionView::Read,
            QueryAction::Rank { mode } => ActionView::Rank(*mode),
            QueryAction::Fail { error } => ActionView::Fail(error@),
            QueryAction::Answer { result } => ActionView::Answer(result@),
            QueryAction::Candidates => ActionView::Candidates,
        }
    }
}

/// A query that has just begun.
pub open spec fn begun(wanted: RequestView) -> RunView {
    RunView {
        state: QueryState::Embedding,
        wanted,
        hits: Seq::empty(),
        chunks: Seq::empty(),
        numbered: Seq::empty(),
        caller_stats: Seq::empty(),
        timing: QueryTiming {
            embed_ms: 0,
            search_ms: 0,
            graph_ms: 0,
            merge_ms: 0,
            rerank_ms: 0,
            total_ms: 0,
        },
    }
}

/// Begins a query, whose first action is to embed its text.
pub fn begin_query(wanted: QueryRequest) -> (r: QueryRun)
    ensures
        r@ == begun(wanted@),
{
    let r = QueryRun {
        state: QueryState::Embedding,
        wanted,
        hits: Vec::new(),
        chunks: Vec::new(),
        numbered: Vec::new(),
        caller_stats: Vec::new(),
        timing: QueryTiming {
            embed_ms: 0,
            search_ms: 0,
            graph_ms: 0,
            merge_ms: 0,
            rerank_ms: 0,
            total_ms: 0,
        },
    };
    assert(r@.hits =~= Seq::empty());
    assert(r@.chunks =~= Seq::empty());
    assert(r@.numbered =~= Seq::empty());
    r
}

/// The event is one that the query waits for.
pub open spec fn is_expected(state: QueryState, event: QueryEvent) -> bool {
    match event {
        QueryEvent::Embedded { .. } => state == QueryState::Embedding,
        QueryEvent::Searched { .. } => state == QueryState::Searching,
        QueryEvent::Fetched { .. } => state == QueryState::Fetching,
        QueryEvent::Expanded { .. } => state == QueryState::Expanding,
        QueryEvent::Read { .. } => state == QueryState::Reading,
        QueryEvent::Ranked { .. } => state == QueryState::Ranking,
    }
}

/// Whether the query waits for such an event.
pub fn expects(state: QueryState, event: &QueryEvent) -> (r: bool)
    ensures
        r == is_expected(state, *event),
{
    match event {
        QueryEvent::Embedded { .. } => state == QueryState::Embedding,
        QueryEvent::Searched { .. } => state == QueryState::Searching,
        QueryEvent::Fetched { .. } => state == QueryState::Fetching,
        QueryEvent::Expanded { .. } => state == QueryState::Expanding,
        QueryEvent::Read { .. } => state == QueryState::Reading,
        QueryEvent::Ranked { .. } => state == QueryState::Ranking,
    }
}

/// A query after an event, and what it does next. It fails without an embedding,
/// and ends early where the search finds nothing; a sub-query ends with its
/// merged candidates. What lies outside of the repository that it names is left
/// out wherever it comes from: the search, the call graph or the ranking.
pub open spec fn after(run: RunView, event: QueryEvent) -> (RunView, ActionView) {
    match event {
        QueryEvent::Embedded { len, embed_ms } => {
            let timing = QueryTiming { embed_ms, ..run.timing };
            if len == 0 {
                (
                    RunView { state: QueryState::Ended, timing, ..run },
                    ActionView::Fail("embed_query returned an empty vector"@),
                )
            } else {
                (
                    RunView { state: QueryState::Searching, timing, ..run },
                    ActionView::Search((run.wanted.top_k * 2) as usize),
                )
            }
        },
        QueryEvent::Searched { hits, search_ms, total_ms } => {
            let timing = QueryTiming { search_ms, ..run.timing };
            if hits@.len() > 0 {
                (
                    RunView {
                        state: QueryState::Fetching,
                        hits: crate::query::engine::filtered_hits(
                            crate::query::engine::hit_views(hits@),
                            run.wanted.repo_filter,
                        ),
                        timing,
                        ..run
                    },
                    ActionView::Fetch,
                )
            } else if run.wanted.sub_query {
                (RunView { state: QueryState::Ended, timing, ..run }, ActionView::Candidates)
            } else {
                (
                    RunView { state: QueryState::Ended, timing, ..run },
                    ActionView::Answer(
                        crate::query::engine::nothing_found(
                            run.timing.embed_ms,
                            search_ms,
                            total_ms,
                        ),
                    ),
                )
            }
        },
        QueryEvent::Fetched { stored } => (
            RunView {
                state: QueryState::Expanding,
                chunks: crate::query::engine::candidates_of(
                    run.hits,
                    crate::query::engine::stored_views(stored@),
                ),
                ..run
            },
            ActionView::Expand,
        ),
        QueryEvent::Expanded { chunks, graph_ms } => {
            let merged = RunView {
                chunks: crate::query::merger::at_most(
                    crate::query::merger::merged_all(
                        run.chunks + crate::query::engine::filtered_chunks(
                            crate::query::merger::merge_views(chunks@),
                            run.wanted.repo_filter,
                        ),
                    ),
                    run.wanted.top_k as int,
                ),
                timing: QueryTiming { graph_ms, ..run.timing },
                ..run
            };
            if run.wanted.sub_query {
                (RunView { state: QueryState::Ended, ..merged }, ActionView::Candidates)
            } else {
                (RunView { state: QueryState::Reading, ..merged }, ActionView::Read)
            }
        },
        QueryEvent::Read { numbered, caller_stats } => (
            RunView {
                state: QueryState::Ranking,
                numbered: crate::query::engine::opt_texts(numbered@),
                caller_stats: caller_stats@,
                ..run
            },
            ActionView::Rank(
                if run.wanted.agentic_rag && run.wanted.has_client && run.wanted.repo_filter is Some {
                    RerankMode::Agentic
                } else {
                    RerankMode::SingleShot
                },
            ),
        ),
        QueryEvent::Ranked { output, pool, merge_ms, rerank_ms, total_ms } => {
            let timing = QueryTiming { merge_ms, rerank_ms, total_ms, ..run.timing };
            (
                RunView { state: QueryState::Ended, timing, ..run },
                ActionView::Answer(
                    crate::query::engine::answer_of(
                        run.wanted.repo_filter,
                        run.chunks,
                        run.numbered,
                        run.caller_stats,
                        pool,
                        output@,
                        timing,
                    ),
                ),
            )
        },
    }
}

/// Takes an event and says what comes next.
pub fn query_step(run: &mut QueryRun, event: QueryEvent) -> (r: QueryAction)
    requires
        is_expected(old(run).state, event),
        old(run).wanted.top_k * 2 <= usize::MAX,
    ensures
        (final(run)@, r@) == after(old(run)@, event),
{
    match event {
        QueryEvent::Embedded { len, embed_ms } => {
            run.timing.embed_ms = embed_ms;
            match check_embedding(len) {
                Err(error) => {
                    run.state = QueryState::Ended;
                    QueryAction::Fail { error }
                },
                Ok(_) => {
                    run.state = QueryState::Searching;
                    QueryAction::Search { width: search_width(run.wanted.top_k) }
                },
            }
        },
        QueryEvent::Searched { hits, search_ms, total_ms } => {
            run.timing.search_ms = search_ms;
            if hits.len() > 0 {
                run.state = QueryState::Fetching;
                run.hits = filter_hits(hits, &run.wanted.repo_filter);
                QueryAction::Fetch
            } else {
                run.state = QueryState::Ended;
                if run.wanted.sub_query {
                    QueryAction::Candidates
                } else {
                    QueryAction::Answer {
                        result: empty_answer(run.timing.embed_ms, search_ms, total_ms),
                    }
                }
            }
        },
        QueryEvent::Fetched { stored } => {
            run.state = QueryState::Expanding;
            run.chunks = candidates(&run.hits, &stored);
            QueryAction::Expand
        },
        QueryEvent::Expanded { chunks, graph_ms } => {
            run.timing.graph_ms = graph_ms;
            let mut base: Vec<MergeChunk> = Vec::new();
            std::mem::swap(&mut base, &mut run.chunks);
            let more = filter_chunks(chunks, &run.wanted.repo_filter);
            run.chunks = merge_pool(base, more, run.wanted.top_k);
            if run.wanted.sub_query {
                run.state = QueryState::Ended;
                QueryAction::Candidates
            } else {
                run.state = QueryState::Reading;
                QueryAction::Read
            }
        },
        QueryEvent::Read { numbered, caller_stats } => {
            run.state = QueryState::Ranking;
            run.numbered = numbered;
            run.caller_stats = caller_stats;
            let mode = rerank_mode(
                run.wanted.agentic_rag,
                run.wanted.has_client,
                run.wanted.repo_filter.is_some(),
            );
            QueryAction::Rank { mode }
        },
        QueryEvent::Ranked { output, pool, merge_ms, rerank_ms, total_ms } => {
            run.state = QueryState::Ended;
            run.timing.merge_ms = merge_ms;
            run.timing.rerank_ms = rerank_ms;
            run.timing.total_ms = total_ms;
            let result = build_answer(
                &run.wanted.repo_filter,
                &run.chunks,
                &run.numbered,
                &run.caller_stats,
                &pool,
                output,
                run.timing,
            );
            QueryAction::Answer { result }
        },
    }
}

// ─── The laws ───

/// How far a query has come.
pub open spec fn stage(state: QueryState) -> int {
    match state {
        QueryState::Embedding => 0,
        QueryState::Searching => 1,
        QueryState::Fetching => 2,
        QueryState::Expanding => 3,
        QueryState::Reading => 4,
        QueryState::Ranking => 5,
        QueryState::Ended => 6,
    }
}

/// Every query ends: each event brings it on, and it ends exactly with an answer,
/// with its candidates or with an error.
pub proof fn law_every_query_ends(run: RunView, event: QueryEvent)
    requires
        is_expected(run.state, event),
    ensures
        stage(after(run, event).0.state) > stage(run.state),
        after(run, event).0.state == QueryState::Ended <==> after(run, event).1 is Answer || after(
            run,
            event,
        ).1 is Candidates || after(run, event).1 is Fail,
        after(run, event).0.wanted == run.wanted,
{
}

/// A sub-query is never ranked and never answered, so that ranking cannot begin
/// a ranking of its own; a full query never ends unranked with its candidates.
pub proof fn law_sub_queries_are_not_ranked(run: RunView, event: QueryEvent)
    requires
        is_expected(run.state, event),
        run.wanted.sub_query ==> run.state != QueryState::Reading && run.state
            != QueryState::Ranking,
    ensures
        run.wanted.sub_query ==> {
            &&& after(run, event).0.state != QueryState::Reading
            &&& after(run, event).0.state != QueryState::Ranking
            &&& !(after(run, event).1 is Read)
            &&& !(after(run, event).1 is Rank)
            &&& !(after(run, event).1 is Answer)
        },
        !run.wanted.sub_query ==> !(after(run, event).1 is Candidates),
{
}

proof fn lemma_hits_lie_in(hits: Seq<crate::query::engine::HitView>, repo: Seq<char>)
    ensures
        forall|i: int|
            0 <= i < crate::query::engine::hits_in(hits, repo).len() ==> crate::paths::lies_in(
                (#[trigger] crate::query::engine::hits_in(hits, repo)[i]).file,
                repo,
            ),
    decreases hits.len(),
{
    if hits.len() > 0 {
        lemma_hits_lie_in(hits.drop_last(), repo);
        let before = crate::query::engine::hits_in(hits.drop_last(), repo);
        let all = crate::query::engine::hits_in(hits, repo);
        assert forall|i: int| 0 <= i < all.len() implies crate::paths::lies_in(
            (#[trigger] all[i]).file,
            repo,
        ) by {
            if i < before.len() {
                assert(all[i] == before[i]);
            }
        }
    }
}

proof fn lemma_chunks_lie_in(chunks: Seq<crate::query::merger::MergeView>, repo: Seq<char>)
    ensures
        all_in(crate::query::engine::chunks_in(chunks, repo), repo),
    decreases chunks.len(),
{
    if chunks.len() > 0 {
        lemma_chunks_lie_in(chunks.drop_last(), repo);
        let before = crate::query::engine::chunks_in(chunks.drop_last(), repo);
        let all = crate::query::engine::chunks_in(chunks, repo);
        assert forall|i: int| 0 <= i < all.len() implies crate::paths::lies_in(
            (#[trigger] all[i]).file,
            repo,
        ) by {
            if i < before.len() {
                assert(all[i] == before[i]);
            }
        }
    }
}

proof fn lemma_results_lie_in(results: Seq<crate::query::engine::ResultView>, repo: Seq<char>)
    ensures
        shows_only(crate::query::engine::results_in(results, repo), repo),
    decreases results.len(),
{
    if results.len() > 0 {
        lemma_results_lie_in(results.drop_last(), repo);
        let before = crate::query::engine::results_in(results.drop_last(), repo);
        let all = crate::query::engine::results_in(results, repo);
        assert forall|i: int| 0 <= i < all.len() implies crate::paths::lies_in(
            (#[trigger] all[i]).file,
            repo,
        ) by {
            if i < before.len() {
                assert(all[i] == before[i]);
            }
        }
    }
}

/// All chunks lie in the repository.
pub open spec fn all_in(chunks: Seq<crate::query::merger::MergeView>, repo: Seq<char>) -> bool {
    forall|i: int|
        0 <= i < chunks.len() ==> crate::paths::lies_in((#[trigger] chunks[i]).file, repo)
}

/// All results lie in the repository.
pub open spec fn shows_only(
    results: Seq<crate::query::engine::ResultView>,
    repo: Seq<char>,
) -> bool {
    forall|i: int|
        0 <= i < results.len() ==> crate::paths::lies_in((#[trigger] results[i]).file, repo)
}

/// The hits and candidates of the query lie in the repository that it names.
pub open spec fn keeps_filter(run: RunView) -> bool {
    run.wanted.repo_filter matches Some(repo) ==> {
        &&& forall|i: int|
            0 <= i < run.hits.len() ==> crate::paths::lies_in((#[trigger] run.hits[i]).file, repo)
        &&& all_in(run.chunks, repo)
    }
}

/// A query that names a repository is answered with results of that repository
/// only, after ranking and before it.
pub proof fn law_answers_lie_in_the_repository(run: RunView, event: QueryEvent, repo: Seq<char>)
    requires
        is_expected(run.state, event),
        run.wanted.repo_filter == Some(repo),
    ensures
        after(run, event).1 matches ActionView::Answer(answer) ==> shows_only(
            answer.results,
            repo,
        ) && shows_only(answer.pre_rerank_results, repo),
{
    match event {
        QueryEvent::Ranked { output, pool, merge_ms, rerank_ms, total_ms } => {
            let ranked = match pool {
                Some(p) => crate::query::engine::ranked_results(
                    output@.reranked_indices,
                    output@.line_selections,
                    crate::query::merger::merge_views(p.chunks@),
                    crate::query::engine::opt_texts(p.numbered@),
                    run.caller_stats,
                ),
                None => crate::query::engine::ranked_results(
                    output@.reranked_indices,
                    output@.line_selections,
                    run.chunks,
                    run.numbered,
                    run.caller_stats,
                ),
            };
            lemma_results_lie_in(ranked, repo);
            lemma_results_lie_in(
                crate::query::engine::unranked_results(
                    run.chunks,
                    run.numbered,
                    run.caller_stats,
                ),
                repo,
            );
        },
        _ => {},
    }
}

/// The filter holds on the way too: a query begins with nothing outside of the
/// repository that it names, and no event brings anything from outside among
/// its hits or candidates, merged ones included.
pub proof fn law_filter_is_kept(run: RunView, event: QueryEvent)
    requires
        is_expected(run.state, event),
        keeps_filter(run),
    ensures
        keeps_filter(after(run, event).0),
        keeps_filter(begun(run.wanted)),
{
    if run.wanted.repo_filter is Some {
        let repo = run.wanted.repo_filter->0;
        match event {
            QueryEvent::Searched { hits, .. } => {
                lemma_hits_lie_in(crate::query::engine::hit_views(hits@), repo);
            },
            QueryEvent::Fetched { stored } => {
                let made = after(run, event).0.chunks;
                assert forall|i: int| 0 <= i < made.len() implies crate::paths::lies_in(
                    (#[trigger] made[i]).file,
                    repo,
                ) by {
                    assert(made[i].file == run.hits[i].file);
                }
            },
            QueryEvent::Expanded { chunks, .. } => {
                let more = crate::query::engine::filtered_chunks(
                    crate::query::merger::merge_views(chunks@),
                    run.wanted.repo_filter,
                );
                let all = run.chunks + more;
                lemma_chunks_lie_in(crate::query::merger::merge_views(chunks@), repo);
                crate::query::merger_laws::law_merge_keeps_to_the_files(
                    all,
                    run.wanted.top_k as nat,
                );
                let made = after(run, event).0.chunks;
                assert forall|i: int| 0 <= i < made.len() implies crate::paths::lies_in(
                    (#[trigger] made[i]).file,
                    repo,
                ) by {
                    assert(crate::query::merger_laws::mentions(all, made[i].file));
                    let n = choose|n: int|
                        0 <= n < all.len() && (#[trigger] all[n]).file == made[i].file;
                    if n < run.chunks.len() {
                        assert(all[n] == run.chunks[n]);
                    } else {
                        assert(all[n] == more[n - run.chunks.len()]);
                    }
                }
            },
            _ => {},
        }
    }
}

}
