//! What holds of every answer, and of the way to it.
use vstd::prelude::*;

use crate::query::engine::{HitView, Pool, QueryTiming, RerankMode, ResultView};
use crate::query::merger::MergeView;
use crate::query::reranker::OutputView;
use crate::query::run::{ActionView, QueryEvent, QueryState, RunView};
use crate::query::{engine, merger, merger_groups, merger_laws, run};

verus! {

// ─── Lines ───

/// The text is the number, a colon, a blank and the whole line, character by
/// character.
pub open spec fn shows_line(text: Seq<char>, n: nat, line: Seq<char>) -> bool {
    let d = crate::text::decimal_of(n).len() as int;
    &&& text.len() == d + 2 + line.len()
    &&& text.take(d) == crate::text::decimal_of(n)
    &&& text[d] == ':'
    &&& text[d + 1] == ' '
    &&& text.skip(d + 2) == line
}

/// The texts are the lines of the file from the first to the last, each under its
/// own number; those beyond the end of the file are not there.
pub open spec fn show_lines(
    texts: Seq<Seq<char>>,
    all: Seq<Seq<char>>,
    line_start: int,
    line_end: int,
) -> bool {
    let last = if line_end <= all.len() {
        line_end
    } else {
        all.len() as int
    };
    &&& texts.len() == last - line_start + 1
    &&& forall|k: int|
        0 <= k < texts.len() ==> shows_line(
            #[trigger] texts[k],
            (line_start + k) as nat,
            all[line_start + k - 1],
        )
}

/// What is shown of a range of a file is every line of it, whole, under its own
/// number, and nothing else.
pub proof fn law_lines_are_shown_whole(all: Seq<Seq<char>>, line_start: u32, line_end: u32)
    requires
        1 <= line_start <= all.len(),
        line_start <= line_end,
    ensures
        exists|texts: Seq<Seq<char>>|
            engine::numbered_range(all, line_start, line_end) == crate::text::joined(texts, "\n"@)
                && #[trigger] show_lines(texts, all, line_start as int, line_end as int),
        engine::numbered_range(all, 0, line_end) == engine::numbered_range(all, 1, line_end),
{
    let last = if line_end <= all.len() {
        line_end as int
    } else {
        all.len() as int
    };
    let from = line_start - 1;
    let texts = engine::numbered(all.subrange(from, last), line_start as nat);
    assert(texts.len() == last - line_start + 1);
    assert forall|k: int| 0 <= k < texts.len() implies shows_line(
        #[trigger] texts[k],
        (line_start + k) as nat,
        all[line_start + k - 1],
    ) by {
        law_numbered_line_shows_the_line((line_start + k) as nat, all[from + k]);
        assert(all.subrange(from, last)[k] == all[from + k]);
    }
    assert(show_lines(texts, all, line_start as int, line_end as int));
}

/// A numbered line without its number is the line.
pub proof fn law_numbered_line_shows_the_line(n: nat, line: Seq<char>)
    ensures
        shows_line(engine::numbered_line(n, line), n, line),
{
    reveal_strlit(": ");
    let text = engine::numbered_line(n, line);
    let d = crate::text::decimal_of(n).len() as int;
    assert(text.take(d) =~= crate::text::decimal_of(n));
    assert(text.skip(d + 2) =~= line);
}

/// Where the file has no carriage returns left, the shown lines can be read back
/// one by one: the `k`th line of what is shown is the `k`th line of the range.
pub proof fn law_shown_lines_are_read_back(content: Seq<char>, line_start: u32, line_end: u32)
    requires
        1 <= line_start <= crate::text::lines_of(content).len(),
        line_start <= line_end,
        forall|i: int|
            0 <= i < crate::text::lines_of(content).len() && (#[trigger] crate::text::lines_of(
                content,
            )[i]).len() > 0 ==> crate::text::lines_of(content)[i].last() != '\r',
    ensures
        show_lines(
            crate::text::lines_of(
                engine::numbered_range(crate::text::lines_of(content), line_start, line_end),
            ),
            crate::text::lines_of(content),
            line_start as int,
            line_end as int,
        ),
{
    let all = crate::text::lines_of(content);
    law_lines_are_shown_whole(all, line_start, line_end);
    let texts = choose|texts: Seq<Seq<char>>|
        engine::numbered_range(all, line_start, line_end) == crate::text::joined(texts, "\n"@)
            && #[trigger] show_lines(texts, all, line_start as int, line_end as int);
    crate::text::lemma_lines_hold_no_newline(content);
    assert forall|i: int| 0 <= i < texts.len() implies crate::text::is_plain_line(
        #[trigger] texts[i],
    ) by {
        let n = (line_start + i) as nat;
        let line = all[line_start + i - 1];
        let d = crate::text::decimal_of(n).len() as int;
        let text = texts[i];
        assert(shows_line(text, n, line));
        crate::text::lemma_decimal_digits(n);
        assert forall|k: int| 0 <= k < text.len() implies #[trigger] text[k] != '\n' by {
            if k < d {
                assert(text.take(d)[k] == text[k]);
            } else if k >= d + 2 {
                assert(text.skip(d + 2)[k - d - 2] == text[k]);
                assert(line[k - d - 2] != '\n');
            }
        }
        if line.len() > 0 {
            assert(text.skip(d + 2).last() == text.last());
        } else {
            assert(text.last() == ' ');
        }
    }
    crate::text::law_lines_of_joined(texts);
}

// ─── The repository ───

/// The hits of a repository are all that lie in it, in their order.
pub proof fn law_hits_of_the_repository(hits: Seq<HitView>, repo: Seq<char>)
    ensures
        engine::filtered_hits(hits, Some(repo)) == hits.filter(
            |h: HitView| crate::paths::lies_in(h.file, repo),
        ),
        engine::filtered_hits(hits, None) == hits,
    decreases hits.len(),
{
    reveal(Seq::filter);
    if hits.len() > 0 {
        law_hits_of_the_repository(hits.drop_last(), repo);
    } else {
        assert(engine::hits_in(hits, repo) =~= hits.filter(
            |h: HitView| crate::paths::lies_in(h.file, repo),
        ));
    }
}

/// The chunks of a repository are all that lie in it, in their order.
pub proof fn law_chunks_of_the_repository(chunks: Seq<MergeView>, repo: Seq<char>)
    ensures
        engine::filtered_chunks(chunks, Some(repo)) == chunks.filter(
            |c: MergeView| crate::paths::lies_in(c.file, repo),
        ),
        engine::filtered_chunks(chunks, None) == chunks,
    decreases chunks.len(),
{
    reveal(Seq::filter);
    if chunks.len() > 0 {
        law_chunks_of_the_repository(chunks.drop_last(), repo);
    } else {
        assert(engine::chunks_in(chunks, repo) =~= chunks.filter(
            |c: MergeView| crate::paths::lies_in(c.file, repo),
        ));
    }
}

/// The results of a repository are all that lie in it, in their order.
pub proof fn law_results_of_the_repository(results: Seq<ResultView>, repo: Seq<char>)
    ensures
        engine::filtered_results(results, Some(repo)) == results.filter(
            |r: ResultView| crate::paths::lies_in(r.file, repo),
        ),
        engine::filtered_results(results, None) == results,
    decreases results.len(),
{
    reveal(Seq::filter);
    if results.len() > 0 {
        law_results_of_the_repository(results.drop_last(), repo);
    } else {
        assert(engine::results_in(results, repo) =~= results.filter(
            |r: ResultView| crate::paths::lies_in(r.file, repo),
        ));
    }
}

// ─── Candidates ───

/// Every hit becomes one candidate, in its place, with its file, its lines and its
/// score, the content that the store holds of it, and the symbol that the store
/// refers to; without a reference it has no symbol, and without a stored chunk
/// no content either.
pub proof fn law_candidates_stand_for_their_hits(
    hits: Seq<HitView>,
    stored: Seq<Option<(Seq<char>, Option<Seq<char>>)>>,
    i: int,
    content: Seq<char>,
    fqn: Seq<char>,
)
    requires
        0 <= i < hits.len(),
    ensures
        ({
            let all = engine::candidates_of(hits, stored);
            let c = all[i];
            &&& all.len() == hits.len()
            &&& c.file == hits[i].file
            &&& c.line_start == hits[i].line_start
            &&& c.line_end == hits[i].line_end
            &&& c.score == hits[i].score
            &&& i < stored.len() && stored[i] == Some(
                (content, Some(crate::store::symbol_ref_of(fqn))),
            ) ==> {
                &&& c.content == content
                &&& c.symbol_fqn == Some(fqn)
                &&& c.symbol == Some(crate::store::short_name_of(fqn))
            }
            &&& i < stored.len() && stored[i] == Some((content, None::<Seq<char>>)) ==> {
                &&& c.content == content
                &&& c.symbol_fqn is None
                &&& c.symbol is None
            }
            &&& i >= stored.len() || stored[i] is None ==> {
                &&& c.content.len() == 0
                &&& c.symbol_fqn is None
                &&& c.symbol is None
            }
        }),
{
    crate::store::law_symbol_ref_round_trip(fqn);
}

// ─── Results ───

/// The result shows these lines of the chunk: it has its file, its score, its
/// symbol, and how often it is called.
pub open spec fn is_part_of(
    r: ResultView,
    chunk: MergeView,
    stats: Option<(u32, u32)>,
    line_start: u32,
    line_end: u32,
) -> bool {
    &&& r.file == chunk.file
    &&& r.score == chunk.score
    &&& r.symbol == chunk.symbol
    &&& r.line_start == line_start
    &&& r.line_end == line_end
    &&& stats matches Some(s) ==> r.callers == Some(s.0) && r.caller_files == Some(s.1)
    &&& stats is None ==> r.callers is None && r.caller_files is None
}

/// Of a chunk without a selection, or of one whose file could not be read, there is
/// one result that shows it whole: the numbered lines, or what was stored.
pub proof fn law_chunks_are_shown_whole(
    chunk: MergeView,
    numbered: Option<Seq<char>>,
    selection: Option<Seq<(u32, u32)>>,
    stats: Option<(u32, u32)>,
)
    requires
        numbered is None || selection is None || selection->0.len() == 0,
    ensures
        ({
            let all = engine::chunk_results(chunk, numbered, selection, stats);
            &&& all.len() == 1
            &&& is_part_of(all[0], chunk, stats, chunk.line_start, chunk.line_end)
            &&& numbered matches Some(text) ==> all[0].content == text
            &&& numbered is None ==> all[0].content == chunk.content
        }),
{
}

/// Of a chunk with a selection there is one result for each of its ranges, in
/// their order, which shows exactly these lines of the file.
pub proof fn law_selections_are_shown(
    chunk: MergeView,
    content: Seq<char>,
    selection: Seq<(u32, u32)>,
    stats: Option<(u32, u32)>,
)
    requires
        selection.len() > 0,
        1 <= chunk.line_start,
        forall|i: int|
            0 <= i < selection.len() ==> chunk.line_start <= (#[trigger] selection[i]).0
                <= selection[i].1 <= chunk.line_end,
        forall|i: int|
            0 <= i < selection.len() ==> (#[trigger] selection[i]).0 <= crate::text::lines_of(
                content,
            ).len(),
        forall|i: int|
            0 <= i < crate::text::lines_of(content).len() && (#[trigger] crate::text::lines_of(
                content,
            )[i]).len() > 0 ==> crate::text::lines_of(content)[i].last() != '\r',
    ensures
        ({
            let lines = crate::text::lines_of(content);
            let text = engine::numbered_range(lines, chunk.line_start, chunk.line_end);
            let all = engine::chunk_results(chunk, Some(text), Some(selection), stats);
            &&& all.len() == selection.len()
            &&& forall|i: int|
                0 <= i < all.len() ==> {
                    &&& is_part_of(#[trigger] all[i], chunk, stats, selection[i].0, selection[i].1)
                    &&& show_lines(
                        crate::text::lines_of(all[i].content),
                        lines,
                        selection[i].0 as int,
                        selection[i].1 as int,
                    )
                }
        }),
{
    let lines = crate::text::lines_of(content);
    let text = engine::numbered_range(lines, chunk.line_start, chunk.line_end);
    let all = engine::chunk_results(chunk, Some(text), Some(selection), stats);
    assert forall|i: int| 0 <= i < all.len() implies {
        &&& is_part_of(#[trigger] all[i], chunk, stats, selection[i].0, selection[i].1)
        &&& show_lines(
            crate::text::lines_of(all[i].content),
            lines,
            selection[i].0 as int,
            selection[i].1 as int,
        )
    } by {
        let (s, e) = selection[i];
        engine::law_slicing_is_reading_the_slice(
            content,
            chunk.line_start,
            chunk.line_end,
            s,
            e,
        );
        law_shown_lines_are_read_back(content, s, e);
    }
}

/// The results of the position of a ranking: those of the chunk that it names.
pub open spec fn results_at(
    k: int,
    at: usize,
    selections: Seq<Option<Seq<(u32, u32)>>>,
    chunks: Seq<MergeView>,
    numbered: Seq<Option<Seq<char>>>,
    stats: Seq<Option<(u32, u32)>>,
) -> Seq<ResultView> {
    let i = at as int;
    if i < chunks.len() {
        engine::chunk_results(
            chunks[i],
            if i < numbered.len() {
                numbered[i]
            } else {
                None
            },
            if k < selections.len() {
                selections[k]
            } else {
                None
            },
            if i < stats.len() {
                stats[i]
            } else {
                None
            },
        )
    } else {
        Seq::empty()
    }
}

/// The results follow the ranking: those of its first position come first, then
/// those of the second, and so on to the last, each position with its own
/// selection and each chunk with its own lines and counts.
pub proof fn law_results_follow_the_ranking(
    indices: Seq<usize>,
    selections: Seq<Option<Seq<(u32, u32)>>>,
    chunks: Seq<MergeView>,
    numbered: Seq<Option<Seq<char>>>,
    stats: Seq<Option<(u32, u32)>>,
)
    ensures
        engine::ranked_results(indices, selections, chunks, numbered, stats) == Seq::new(
            indices.len(),
            |k: int| results_at(k, indices[k], selections, chunks, numbered, stats),
        ).flatten(),
    decreases indices.len(),
{
    let parts = Seq::new(
        indices.len(),
        |k: int| results_at(k, indices[k], selections, chunks, numbered, stats),
    );
    parts.lemma_flatten_and_flatten_alt_are_equivalent();
    let all = engine::ranked_results(indices, selections, chunks, numbered, stats);
    if indices.len() > 0 {
        let front = indices.drop_last();
        law_results_follow_the_ranking(front, selections, chunks, numbered, stats);
        let before = Seq::new(
            front.len(),
            |k: int| results_at(k, front[k], selections, chunks, numbered, stats),
        );
        before.lemma_flatten_and_flatten_alt_are_equivalent();
        assert(parts.drop_last() =~= before);
        assert(all =~= before.flatten() + parts.last());
    } else {
        assert(all =~= parts.flatten_alt());
    }
}

/// Before ranking, every candidate is shown whole, in its place.
pub proof fn law_unranked_results_show_every_candidate(
    chunks: Seq<MergeView>,
    numbered: Seq<Option<Seq<char>>>,
    stats: Seq<Option<(u32, u32)>>,
    i: int,
)
    requires
        0 <= i < chunks.len(),
        numbered.len() == chunks.len(),
        stats.len() == chunks.len(),
    ensures
        ({
            let all = engine::unranked_results(chunks, numbered, stats);
            &&& all.len() == chunks.len()
            &&& is_part_of(all[i], chunks[i], stats[i], chunks[i].line_start, chunks[i].line_end)
            &&& numbered[i] matches Some(text) ==> all[i].content == text
            &&& numbered[i] is None ==> all[i].content == chunks[i].content
        }),
{
}

/// The answer tells how the ranking went and how long everything took; without a
/// filter it shows every result of the ranking and every candidate.
pub proof fn law_answers_pass_everything_on(
    chunks: Seq<MergeView>,
    numbered: Seq<Option<Seq<char>>>,
    stats: Seq<Option<(u32, u32)>>,
    output: OutputView,
    timing: QueryTiming,
    repo: Option<Seq<char>>,
    pool: Option<Pool>,
)
    ensures
        ({
            let a = engine::answer_of(repo, chunks, numbered, stats, pool, output, timing);
            &&& a.timing == timing
            &&& a.rerank matches Some(info) && info.raw_request == output.raw_request
                && info.raw_response == output.raw_response && info.fallback_used
                == output.fallback_used && info.skip_reason == output.skip_reason
        }),
        ({
            let a = engine::answer_of(None, chunks, numbered, stats, None, output, timing);
            &&& a.results == Seq::new(
                output.reranked_indices.len(),
                |k: int|
                    results_at(
                        k,
                        output.reranked_indices[k],
                        output.line_selections,
                        chunks,
                        numbered,
                        stats,
                    ),
            ).flatten()
            &&& a.pre_rerank_results.len() == chunks.len()
        }),
        pool matches Some(p) ==> {
            let a = engine::answer_of(None, chunks, numbered, stats, pool, output, timing);
            &&& a.results == Seq::new(
                output.reranked_indices.len(),
                |k: int|
                    results_at(
                        k,
                        output.reranked_indices[k],
                        output.line_selections,
                        merger::merge_views(p.chunks@),
                        engine::opt_texts(p.numbered@),
                        stats,
                    ),
            ).flatten()
            &&& a.pre_rerank_results.len() == chunks.len()
        },
{
    law_results_follow_the_ranking(
        output.reranked_indices,
        output.line_selections,
        chunks,
        numbered,
        stats,
    );
    if let Some(p) = pool {
        law_results_follow_the_ranking(
            output.reranked_indices,
            output.line_selections,
            merger::merge_views(p.chunks@),
            engine::opt_texts(p.numbered@),
            stats,
        );
    }
}

/// A filter takes nothing from an answer but what lies elsewhere.
pub proof fn law_filter_takes_only_what_lies_elsewhere(
    chunks: Seq<MergeView>,
    numbered: Seq<Option<Seq<char>>>,
    stats: Seq<Option<(u32, u32)>>,
    output: OutputView,
    timing: QueryTiming,
    repo: Seq<char>,
    pool: Option<Pool>,
)
    ensures
        ({
            let all = engine::answer_of(None, chunks, numbered, stats, pool, output, timing);
            let a = engine::answer_of(Some(repo), chunks, numbered, stats, pool, output, timing);
            &&& a.results == all.results.filter(
                |r: ResultView| crate::paths::lies_in(r.file, repo),
            )
            &&& a.pre_rerank_results == all.pre_rerank_results.filter(
                |r: ResultView| crate::paths::lies_in(r.file, repo),
            )
        }),
{
    let all = engine::answer_of(None, chunks, numbered, stats, pool, output, timing);
    law_results_of_the_repository(all.results, repo);
    law_results_of_the_repository(all.pre_rerank_results, repo);
}

// ─── The way to the answer ───

/// A query searches for twice as many hits as are wanted, and stops only without
/// an embedding.
pub proof fn law_search_is_twice_as_wide(state: RunView, len: usize, embed_ms: u64)
    requires
        state.state == QueryState::Embedding,
        state.wanted.top_k * 2 <= usize::MAX,
    ensures
        ({
            let (next, action) = run::after(state, QueryEvent::Embedded { len, embed_ms });
            &&& len == 0 <==> action is Fail
            &&& len > 0 ==> (action matches ActionView::Search(width) && width == state.wanted.top_k
                + state.wanted.top_k) && next.state == QueryState::Searching
            &&& next.timing.embed_ms == embed_ms
        }),
{
}

/// No hit of the repository is lost: all that were found there are fetched, and
/// all are made candidates.
pub proof fn law_every_hit_becomes_a_candidate(state: RunView, event: QueryEvent)
    requires
        run::is_expected(state.state, event),
    ensures
        event matches QueryEvent::Searched { hits, search_ms, total_ms } ==> {
            let (next, action) = run::after(state, event);
            let found = engine::hit_views(hits@);
            &&& found.len() > 0 <==> action is Fetch
            &&& found.len() > 0 ==> next.hits == match state.wanted.repo_filter {
                Some(repo) => found.filter(|h: HitView| crate::paths::lies_in(h.file, repo)),
                None => found,
            }
            &&& next.timing.search_ms == search_ms
        },
        event matches QueryEvent::Fetched { stored } ==> {
            let (next, action) = run::after(state, event);
            &&& action is Expand
            &&& next.chunks.len() == state.hits.len()
            &&& forall|i: int|
                0 <= i < state.hits.len() ==> {
                    &&& (#[trigger] next.chunks[i]).file == state.hits[i].file
                    &&& next.chunks[i].line_start == state.hits[i].line_start
                    &&& next.chunks[i].line_end == state.hits[i].line_end
                    &&& next.chunks[i].score == state.hits[i].score
                }
        },
{
    if let QueryEvent::Searched { hits, search_ms, total_ms } = event {
        let found = engine::hit_views(hits@);
        if let Some(repo) = state.wanted.repo_filter {
            law_hits_of_the_repository(found, repo);
        }
    }
}

proof fn lemma_filter_within(s: Seq<MergeView>, p: spec_fn(MergeView) -> bool, i: int)
    requires
        0 <= i < s.filter(p).len(),
    ensures
        s.contains(s.filter(p)[i]),
    decreases s.len(),
{
    reveal(Seq::filter);
    let front = s.drop_last();
    let before = front.filter(p);
    if i < before.len() {
        lemma_filter_within(front, p, i);
        let k = choose|k: int| 0 <= k < front.len() && front[k] == before[i];
        assert(s[k] == before[i]);
    } else {
        assert(s[s.len() - 1] == s.filter(p)[i]);
    }
}

/// Merging hides no candidate and nothing that the call graph added in the
/// repository: as long as fewer are left than are wanted, each is covered by one
/// of those that are ranked.
pub proof fn law_every_candidate_is_covered(state: RunView, event: QueryEvent, c: MergeView)
    requires
        run::is_expected(state.state, event),
        event matches QueryEvent::Expanded { chunks, graph_ms } && {
            let added = merger::merge_views(chunks@);
            &&& merger_laws::all_ranges(state.chunks)
            &&& merger_laws::all_ranges(added)
            &&& state.chunks.contains(c) || (added.contains(c) && (
            state.wanted.repo_filter matches Some(repo) ==> crate::paths::lies_in(c.file, repo)))
        },
        run::after(state, event).0.chunks.len() < state.wanted.top_k,
    ensures
        merger::covered_by_any(run::after(state, event).0.chunks, c),
{
    if let QueryEvent::Expanded { chunks, graph_ms } = event {
        let added = merger::merge_views(chunks@);
        let more = engine::filtered_chunks(added, state.wanted.repo_filter);
        let all = state.chunks + more;
        let repo = state.wanted.repo_filter;
        let p = |m: MergeView| crate::paths::lies_in(m.file, repo->0);
        if repo is Some {
            law_chunks_of_the_repository(added, repo->0);
            assert(more == added.filter(p));
        }
        assert(merger_laws::all_ranges(all)) by {
            assert forall|i: int| 0 <= i < all.len() implies merger_laws::is_range(
                #[trigger] all[i],
            ) by {
                if i < state.chunks.len() {
                    assert(all[i] == state.chunks[i]);
                } else {
                    let m = more[i - state.chunks.len()];
                    assert(all[i] == m);
                    assert(more.contains(m));
                    if repo is Some {
                        lemma_filter_within(added, p, i - state.chunks.len());
                    }
                    let k = choose|k: int| 0 <= k < added.len() && added[k] == m;
                    assert(merger_laws::is_range(added[k]));
                }
            }
        }
        merger_laws::law_merge_covers_every_hit(all);
        assert(all.contains(c)) by {
            if state.chunks.contains(c) {
                let k = choose|k: int| 0 <= k < state.chunks.len() && state.chunks[k] == c;
                assert(all[k] == c);
            } else {
                let k = choose|k: int| 0 <= k < added.len() && added[k] == c;
                if repo is Some {
                    added.lemma_filter_contains(p, k);
                }
                assert(more.contains(c));
                let n = choose|n: int| 0 <= n < more.len() && more[n] == c;
                assert(all[state.chunks.len() + n] == c);
            }
        }
        let n = choose|n: int| 0 <= n < all.len() && all[n] == c;
        assert(merger::covered_by_any(merger::merged_all(all), all[n]));
        merger_groups::law_cap_keeps_the_first(merger::merged_all(all), state.wanted.top_k as nat);
    }
}

/// The model may search on its own exactly where that is wanted, there is a model,
/// and the query names a repository; what was read is kept for the answer.
pub proof fn law_ranking_mode(state: RunView, event: QueryEvent)
    requires
        run::is_expected(state.state, event),
    ensures
        event matches QueryEvent::Read { numbered, caller_stats } ==> {
            let (next, action) = run::after(state, event);
            &&& action is Rank
            &&& action == ActionView::Rank(RerankMode::Agentic) <==> state.wanted.agentic_rag
                && state.wanted.has_client && state.wanted.repo_filter is Some
            &&& next.numbered == engine::opt_texts(numbered@)
            &&& next.caller_stats == caller_stats@
            &&& next.chunks == state.chunks
            &&& next.timing == state.timing
        },
{
}

/// The answer to a ranked query is made of what the run holds, with all times.
pub proof fn law_ranked_queries_are_answered(state: RunView, event: QueryEvent)
    requires
        run::is_expected(state.state, event),
    ensures
        event matches QueryEvent::Ranked { output, pool, merge_ms, rerank_ms, total_ms } ==> (
        run::after(state, event).1 matches ActionView::Answer(a) && {
            &&& a.timing.embed_ms == state.timing.embed_ms
            &&& a.timing.search_ms == state.timing.search_ms
            &&& a.timing.graph_ms == state.timing.graph_ms
            &&& a.timing.merge_ms == merge_ms
            &&& a.timing.rerank_ms == rerank_ms
            &&& a.timing.total_ms == total_ms
            &&& a == engine::answer_of(
                state.wanted.repo_filter,
                state.chunks,
                state.numbered,
                state.caller_stats,
                pool,
                output@,
                a.timing,
            )
        }),
{
}

/// Stores of the first schema list callees by their short names, later ones by
/// their qualified names.
pub proof fn law_callees_are_looked_up_by_name(head: Seq<char>, name: Seq<char>, version: u32)
    requires
        forall|i: int| 0 <= i < name.len() ==> #[trigger] name[i] != ':',
    ensures
        version >= 2 ==> engine::callee_key_of(head + seq![':', ':'] + name, version) == head
            + seq![':', ':'] + name,
        version < 2 ==> engine::callee_key_of(head + seq![':', ':'] + name, version) == name,
{
    crate::parsing::tree_laws::law_short_name_follows_the_last_scope(head, name);
}

/// A range that begins behind the end of a file is told with its number and file.
pub proof fn law_missing_lines_are_told(line_start: u32, file: Seq<char>)
    ensures
        ({
            let text = engine::out_of_range_message(line_start, file);
            &&& crate::text::shows(text, crate::text::decimal_of(line_start as nat))
            &&& file.is_suffix_of(text)
        }),
{
    let text = engine::out_of_range_message(line_start, file);
    let n = crate::text::decimal_of(line_start as nat);
    let after = " out of range for file "@ + file;
    assert(text =~= "line_start "@ + n + after);
    crate::text::lemma_shows("line_start "@, n, after);
    assert(file =~= text.subrange(text.len() - file.len(), text.len() as int));
}

/// Where the search finds nothing a query ends: a sub-query without candidates, any
/// other with an empty answer that tells how long it took.
pub proof fn law_nothing_found_is_answered(
    state: RunView,
    search_ms: u64,
    total_ms: u64,
    hits: Vec<engine::Hit>,
)
    requires
        state.state == QueryState::Searching,
        hits@.len() == 0,
    ensures
        ({
            let (next, action) = run::after(
                state,
                QueryEvent::Searched { hits, search_ms, total_ms },
            );
            &&& next.state == QueryState::Ended
            &&& next.chunks == state.chunks
            &&& state.wanted.sub_query ==> action is Candidates
            &&& !state.wanted.sub_query ==> (action matches ActionView::Answer(a) && a.results.len()
                == 0 && a.pre_rerank_results.len() == 0 && a.rerank is None && a.timing.embed_ms
                == state.timing.embed_ms && a.timing.search_ms == search_ms && a.timing.total_ms
                == total_ms && a.timing.graph_ms == 0 && a.timing.merge_ms == 0
                && a.timing.rerank_ms == 0)
        }),
{
}

/// A query begins with nothing found.
pub proof fn law_queries_begin_empty(wanted: run::RequestView)
    ensures
        ({
            let r = run::begun(wanted);
            &&& r.state == QueryState::Embedding
            &&& r.wanted == wanted
            &&& r.hits.len() == 0
            &&& r.chunks.len() == 0
            &&& r.numbered.len() == 0
            &&& r.caller_stats.len() == 0
            &&& r.timing == (QueryTiming {
                embed_ms: 0,
                search_ms: 0,
                graph_ms: 0,
                merge_ms: 0,
                rerank_ms: 0,
                total_ms: 0,
            })
        }),
{
}

/// What graph expansion took is told, and a sub-query ends with the merged
/// candidates; any other reads them.
pub proof fn law_merged_candidates_are_read(state: RunView, event: QueryEvent)
    requires
        run::is_expected(state.state, event),
    ensures
        event matches QueryEvent::Expanded { chunks, graph_ms } ==> {
            let (next, action) = run::after(state, event);
            &&& next.timing.graph_ms == graph_ms
            &&& state.wanted.sub_query <==> action is Candidates
            &&& !state.wanted.sub_query ==> action is Read && next.state == QueryState::Reading
        },
{
}

/// Counts that fit are told as they are.
pub proof fn law_counts_are_told_as_they_are(n: nat)
    requires
        n <= u32::MAX,
    ensures
        engine::low_count(n) == n,
{
}

/// A selection of which nothing is shown takes nothing away: where it begins behind
/// the last shown line, or ends before it begins, all lines stay.
pub proof fn law_empty_selections_show_everything(
    text: Seq<char>,
    chunk_start: u32,
    s: u32,
    e: u32,
)
    requires
        s >= chunk_start,
        s - chunk_start >= crate::text::lines_of(text).len() || (e >= chunk_start && e < s),
    ensures
        engine::sliced(text, chunk_start, s, e) == text,
{
}

/// Of what is shown a selection keeps the lines from its first to its last.
pub proof fn law_selections_keep_their_lines(text: Seq<char>, chunk_start: u32, s: u32, e: u32)
    requires
        chunk_start <= s <= e,
        s - chunk_start < crate::text::lines_of(text).len(),
    ensures
        ({
            let all = crate::text::lines_of(text);
            let last = if e - chunk_start < all.len() {
                e - chunk_start + 1
            } else {
                all.len() as int
            };
            engine::sliced(text, chunk_start, s, e) == crate::text::joined(
                Seq::new((last - (s - chunk_start)) as nat, |i: int| all[s - chunk_start + i]),
                "\n"@,
            )
        }),
{
    let all = crate::text::lines_of(text);
    let last = if e - chunk_start < all.len() {
        e - chunk_start + 1
    } else {
        all.len() as int
    };
    assert(all.subrange(s - chunk_start, last) =~= Seq::new(
        (last - (s - chunk_start)) as nat,
        |i: int| all[s - chunk_start + i],
    ));
}

/// Each event changes its own part of a query and leaves the others as they are.
pub proof fn law_events_change_their_own_part(state: RunView, event: QueryEvent)
    requires
        run::is_expected(state.state, event),
    ensures
        ({
            let next = run::after(state, event).0;
            &&& !(event is Searched) ==> next.hits == state.hits
            &&& !(event is Fetched || event is Expanded) ==> next.chunks == state.chunks
            &&& !(event is Read) ==> next.numbered == state.numbered && next.caller_stats
                == state.caller_stats
            &&& !(event is Embedded) ==> next.timing.embed_ms == state.timing.embed_ms
            &&& !(event is Searched) ==> next.timing.search_ms == state.timing.search_ms
            &&& !(event is Expanded) ==> next.timing.graph_ms == state.timing.graph_ms
            &&& !(event is Ranked) ==> next.timing.merge_ms == state.timing.merge_ms
                && next.timing.rerank_ms == state.timing.rerank_ms && next.timing.total_ms
                == state.timing.total_ms
        }),
{
}

/// One more caller counts as one more, and as one more file exactly where it is the
/// first in its file.
pub proof fn law_each_caller_counts(files: Seq<Seq<char>>, file: Seq<char>)
    requires
        files.len() < u32::MAX,
    ensures
        engine::callers_in(Seq::empty()) == (0u32, 0u32),
        engine::callers_in(files.push(file)).0 == engine::callers_in(files).0 + 1,
        files.contains(file) ==> engine::callers_in(files.push(file)).1 == engine::callers_in(
            files,
        ).1,
        !files.contains(file) ==> engine::callers_in(files.push(file)).1 == engine::callers_in(
            files,
        ).1 + 1,
{
    let none = Seq::<Seq<char>>::empty();
    let more = files.push(file);
    none.lemma_cardinality_of_set();
    files.lemma_cardinality_of_set();
    more.lemma_cardinality_of_set();
    assert(more.to_set() =~= files.to_set().insert(file)) by {
        assert forall|x: Seq<char>| more.contains(x) <==> files.contains(x) || x == file by {
            if files.contains(x) {
                let i = choose|i: int| 0 <= i < files.len() && files[i] == x;
                assert(more[i] == x);
            }
            assert(more[files.len() as int] == file);
            if more.contains(x) && x != file {
                let i = choose|i: int| 0 <= i < more.len() && more[i] == x;
                assert(files[i] == x);
            }
        }
    }
    assert(files.to_set().contains(file) == files.contains(file));
    vstd::seq_lib::seq_to_set_is_finite(files);
}

/// Callers are looked up exactly where there is a symbol and a store.
pub proof fn law_lookups_need_a_symbol_and_a_store(
    fqn: Seq<char>,
    has_store: bool,
    version: u32,
)
    ensures
        engine::lookup_of(Some(fqn), true, version) == Some(engine::callee_key_of(fqn, version)),
        engine::lookup_of(Some(fqn), false, version) is None,
        engine::lookup_of(None, has_store, version) is None,
{
}

}
