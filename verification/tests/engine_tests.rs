use context_engine::query::engine::{
    build_answer, build_results, build_unranked, callee_key, caller_lookup, candidate,
    candidates, check_embedding, count_callers, empty_answer, filter_chunks, filter_hits, merge_pool, number_lines,
    rerank_mode, schema_version_or_first, search_width, slice_numbered, Hit, Pool, QueryTiming,
    RerankMode, StoredChunk,
};
use context_engine::query::merger::MergeChunk;
use context_engine::query::reranker::RerankOutput;
use context_engine::query::run::{
    begin_query, expects, query_step, QueryAction, QueryEvent, QueryRequest, QueryRun, QueryState,
};

// chunk_start=100, text holds absolute lines 100..=104 (5 lines).
fn sample() -> String {
    "100: a\n101: b\n102: c\n103: d\n104: e".to_owned()
}

#[test]
fn slice_normal_in_bounds() {
    // Keep absolute 101..=103 → middle three lines.
    let out = slice_numbered(&sample(), 100, 101, 103);
    assert_eq!(out, "101: b\n102: c\n103: d");
}

#[test]
fn slice_end_past_text_truncates_to_len() {
    // File shrank: text only has 5 lines but range asks up to 110.
    let out = slice_numbered(&sample(), 100, 102, 110);
    assert_eq!(out, "102: c\n103: d\n104: e");
}

#[test]
fn slice_from_past_text_returns_whole() {
    // Start beyond the available text → bail to whole numbered text.
    let out = slice_numbered(&sample(), 100, 130, 140);
    assert_eq!(out, sample());
}

#[test]
fn slices_before_the_chunk_and_backwards() {
    assert_eq!(slice_numbered(&sample(), 100, 90, 95), "100: a");
    assert_eq!(slice_numbered(&sample(), 100, 104, 101), sample());
    assert_eq!(slice_numbered("", 100, 100, 100), "");
}

#[test]
fn lines_are_numbered() {
    let content = "a\nb\r\nc\nd";
    assert_eq!(number_lines("f", content, 2, 3), Ok("2: b\n3: c".to_string()));
    assert_eq!(number_lines("f", content, 3, 9), Ok("3: c\n4: d".to_string()));
    assert_eq!(number_lines("f", content, 0, 1), Ok("1: a".to_string()));
    assert_eq!(
        number_lines("f", content, 5, 6),
        Err("line_start 5 out of range for file f".to_string())
    );
}

#[test]
fn slices_of_numbered_lines_are_numbered_lines() {
    let content: String = (1..=50).map(|i| format!("line {i}\n")).collect();
    let whole = number_lines("f", &content, 10, 40).unwrap();
    assert_eq!(
        slice_numbered(&whole, 10, 17, 23),
        number_lines("f", &content, 17, 23).unwrap()
    );
}

fn chunk(file: &str, line_start: u32, line_end: u32, score: i32) -> MergeChunk {
    MergeChunk {
        file: file.to_string(),
        line_start,
        line_end,
        score,
        content: "stored".to_string(),
        symbol: Some("s".to_string()),
        symbol_fqn: Some("f::m::s".to_string()),
    }
}

#[test]
fn results_follow_the_ranking() {
    let chunks = vec![chunk("a", 1, 30, 5), chunk("b", 1, 2, 9), chunk("c", 1, 2, 1)];
    let text: String = (1..=30).map(|i| format!("{i}: x\n")).collect();
    let numbered = vec![Some(text.clone()), None, Some("1: c".to_string())];
    let stats = vec![Some((4, 2)), None];
    let out = build_results(
        &vec![1, 0, 7, 2],
        &vec![Some(vec![(1, 1)]), Some(vec![(3, 4), (9, 9)]), None, Some(vec![])],
        &chunks,
        &numbered,
        &stats,
    );
    let shape: Vec<(&str, u32, u32, &str)> = out
        .iter()
        .map(|r| (r.file.as_str(), r.line_start, r.line_end, r.content.as_str()))
        .collect();
    assert_eq!(
        shape,
        vec![
            ("b", 1, 2, "stored"),
            ("a", 3, 4, "3: x\n4: x"),
            ("a", 9, 9, "9: x"),
            ("c", 1, 2, "1: c"),
        ]
    );
    assert_eq!((out[1].callers, out[1].caller_files), (Some(4), Some(2)));
    assert_eq!((out[0].callers, out[3].callers), (None, None));
    assert_eq!(out[1].score, 5);
    let before = build_unranked(&chunks, &numbered, &stats);
    assert_eq!(before.len(), 3);
    assert_eq!(before[0].content, text);
    assert_eq!(before[1].content, "stored");
    assert_eq!(before[0].callers, Some(4));
}

fn timing() -> QueryTiming {
    QueryTiming { embed_ms: 1, search_ms: 2, graph_ms: 3, merge_ms: 4, rerank_ms: 5, total_ms: 15 }
}

fn output(indices: Vec<usize>) -> RerankOutput {
    RerankOutput {
        line_selections: vec![None; indices.len()],
        reranked_indices: indices,
        raw_request: "req".to_string(),
        raw_response: "res".to_string(),
        elapsed_ms: 5,
        fallback_used: true,
        skip_reason: Some("why".to_string()),
    }
}

#[test]
fn answers_use_the_extended_pool() {
    let merged = vec![chunk("a", 1, 2, 1)];
    let pool = Pool {
        chunks: vec![chunk("a", 1, 2, 1), chunk("z", 5, 6, 7)],
        numbered: vec![None, Some("5: z".to_string())],
    };
    let stats = vec![Some((1, 1))];
    let with = build_answer(&None, &merged, &vec![None], &stats, &Some(pool), output(vec![1, 0]), timing());
    assert_eq!(with.results.len(), 2);
    assert_eq!(with.results[0].content, "5: z");
    assert_eq!(with.results[0].callers, None);
    assert_eq!(with.results[1].callers, Some(1));
    assert_eq!(with.pre_rerank_results.len(), 1);
    let without = build_answer(&None, &merged, &vec![None], &stats, &None, output(vec![1, 0]), timing());
    assert_eq!(without.results.len(), 1);
    let info = without.rerank.unwrap();
    assert_eq!((info.raw_request.as_str(), info.raw_response.as_str()), ("req", "res"));
    assert!(info.fallback_used);
    assert_eq!(info.skip_reason.as_deref(), Some("why"));
    assert_eq!(without.timing, timing());
}

#[test]
fn nothing_found() {
    let none = empty_answer(1, 2, 3);
    assert!(none.results.is_empty() && none.pre_rerank_results.is_empty());
    assert!(none.rerank.is_none());
    assert_eq!((none.timing.embed_ms, none.timing.total_ms, none.timing.graph_ms), (1, 3, 0));
    assert_eq!(
        check_embedding(0),
        Err("embed_query returned an empty vector".to_string())
    );
    assert_eq!(check_embedding(4), Ok(()));
    assert_eq!(search_width(30), 60);
}

fn hit(file: &str) -> Hit {
    Hit { file: file.to_string(), line_start: 1, line_end: 2, score: 3 }
}

#[test]
fn hits_of_other_repositories_are_left_out() {
    let hits = vec![hit("/r/a.rs"), hit("/rest/b.rs"), hit("/r/s/c.rs")];
    let kept = filter_hits(hits.clone(), &Some("/r".to_string()));
    let files: Vec<&str> = kept.iter().map(|h| h.file.as_str()).collect();
    assert_eq!(files, vec!["/r/a.rs", "/r/s/c.rs"]);
    assert_eq!(filter_hits(hits, &None).len(), 3);
}

#[test]
fn candidates_know_their_symbols() {
    let stored = StoredChunk {
        content: "text".to_string(),
        symbol_ref: Some("symbol:⟨src/a.rs::M::f⟩".to_string()),
    };
    let c = candidate(&hit("/r/a.rs"), &Some(stored));
    assert_eq!(c.content, "text");
    assert_eq!(c.symbol.as_deref(), Some("f"));
    assert_eq!(c.symbol_fqn.as_deref(), Some("src/a.rs::M::f"));
    assert_eq!(c.score, 3);
    let unknown = candidate(&hit("/r/a.rs"), &None);
    assert_eq!((unknown.content.as_str(), unknown.symbol, unknown.symbol_fqn), ("", None, None));
    let odd = StoredChunk { content: "t".to_string(), symbol_ref: Some("f".to_string()) };
    assert_eq!(candidate(&hit("a"), &Some(odd)).symbol_fqn, None);
}

#[test]
fn pools_are_merged() {
    let out = merge_pool(vec![chunk("a", 1, 5, 1)], vec![chunk("a", 6, 9, 4), chunk("b", 1, 1, 2)], 1);
    assert_eq!(out.len(), 1);
    assert_eq!((out[0].line_start, out[0].line_end, out[0].score), (1, 9, 4));
}

#[test]
fn callers_are_counted() {
    let files = vec!["a".to_string(), "b".to_string(), "a".to_string(), "a".to_string()];
    assert_eq!(count_callers(&files), (4, 2));
    assert_eq!(count_callers(&vec![]), (0, 0));
    assert_eq!(callee_key("f::m::s", 2), "f::m::s");
    assert_eq!(callee_key("f::m::s", 1), "s");
    let c = chunk("a", 1, 2, 3);
    assert_eq!(caller_lookup(&c, true, 3), Some("f::m::s".to_string()));
    assert_eq!(caller_lookup(&c, false, 3), None);
    assert_eq!(schema_version_or_first(None), 1);
    assert_eq!(schema_version_or_first(Some(6)), 6);
}

#[test]
fn the_model_searches_only_with_everything_at_hand() {
    assert_eq!(rerank_mode(true, true, true), RerankMode::Agentic);
    assert_eq!(rerank_mode(false, true, true), RerankMode::SingleShot);
    assert_eq!(rerank_mode(true, false, true), RerankMode::SingleShot);
    assert_eq!(rerank_mode(true, true, false), RerankMode::SingleShot);
}

// ─── Whole queries ───

fn query(sub_query: bool) -> QueryRun {
    begin_query(QueryRequest {
        top_k: 2,
        repo_filter: Some("/r".to_string()),
        agentic_rag: true,
        has_client: true,
        sub_query,
    })
}

fn step(run: &mut QueryRun, event: QueryEvent) -> QueryAction {
    assert!(expects(run.state, &event));
    query_step(run, event)
}

fn searched(run: &mut QueryRun, hits: Vec<Hit>) -> QueryAction {
    let next = step(run, QueryEvent::Embedded { len: 4, embed_ms: 1 });
    assert!(matches!(next, QueryAction::Search { width: 4 }));
    step(run, QueryEvent::Searched { hits, search_ms: 2, total_ms: 3 })
}

#[test]
fn a_query_without_an_embedding_fails() {
    let mut run = query(false);
    match step(&mut run, QueryEvent::Embedded { len: 0, embed_ms: 1 }) {
        QueryAction::Fail { error } => assert_eq!(error, "embed_query returned an empty vector"),
        _ => panic!("must fail"),
    }
    assert_eq!(run.state, QueryState::Ended);
}

#[test]
fn a_query_without_hits_ends_early() {
    match searched(&mut query(false), vec![]) {
        QueryAction::Answer { result } => {
            assert!(result.results.is_empty() && result.rerank.is_none());
            assert_eq!(
                (result.timing.embed_ms, result.timing.search_ms, result.timing.total_ms),
                (1, 2, 3)
            );
        }
        _ => panic!("must be answered"),
    }
    assert!(matches!(searched(&mut query(true), vec![]), QueryAction::Candidates));
}

#[test]
fn a_query_goes_from_hits_to_results() {
    let mut run = query(false);
    assert!(matches!(
        searched(&mut run, vec![hit("/r/a.rs"), hit("/s/b.rs")]),
        QueryAction::Fetch
    ));
    assert_eq!(run.hits.len(), 1);
    let stored = vec![Some(StoredChunk { content: "c".to_string(), symbol_ref: None })];
    assert!(matches!(step(&mut run, QueryEvent::Fetched { stored }), QueryAction::Expand));
    assert_eq!(run.chunks[0].content, "c");
    let more = vec![chunk("/r/z.rs", 1, 1, 9), chunk("/r/y.rs", 1, 1, 1)];
    let expanded = QueryEvent::Expanded { chunks: more, graph_ms: 4 };
    assert!(matches!(step(&mut run, expanded), QueryAction::Read));
    let files: Vec<&str> = run.chunks.iter().map(|c| c.file.as_str()).collect();
    assert_eq!(files, vec!["/r/z.rs", "/r/a.rs"]);
    let read = QueryEvent::Read { numbered: vec![None, None], caller_stats: vec![Some((1, 1)), None] };
    assert!(matches!(
        step(&mut run, read),
        QueryAction::Rank { mode: RerankMode::Agentic }
    ));
    let ranked = QueryEvent::Ranked {
        output: output(vec![1]),
        pool: None,
        merge_ms: 5,
        rerank_ms: 6,
        total_ms: 7,
    };
    match step(&mut run, ranked) {
        QueryAction::Answer { result } => {
            assert_eq!(result.results.len(), 1);
            assert_eq!(result.results[0].file, "/r/a.rs");
            assert_eq!(result.pre_rerank_results.len(), 2);
            let t = result.timing;
            assert_eq!(
                (t.embed_ms, t.search_ms, t.graph_ms, t.merge_ms, t.rerank_ms, t.total_ms),
                (1, 2, 4, 5, 6, 7)
            );
        }
        _ => panic!("must be answered"),
    }
}

#[test]
fn a_sub_query_ends_with_its_candidates() {
    let mut run = query(true);
    searched(&mut run, vec![hit("/r/a.rs")]);
    step(&mut run, QueryEvent::Fetched { stored: vec![] });
    let expanded = QueryEvent::Expanded { chunks: vec![], graph_ms: 0 };
    assert!(matches!(step(&mut run, expanded), QueryAction::Candidates));
    assert_eq!((run.chunks.len(), run.state), (1, QueryState::Ended));
    assert!(candidates(&vec![], &vec![None]).is_empty());
}

#[test]
fn answers_keep_to_the_repository() {
    let kept = filter_chunks(vec![chunk("/r/a.rs", 1, 1, 1), chunk("/s/a.rs", 1, 1, 2)], &Some("/r".to_string()));
    assert_eq!(kept.len(), 1);
    let mut run = query(false);
    searched(&mut run, vec![hit("/r/a.rs")]);
    step(&mut run, QueryEvent::Fetched { stored: vec![None] });
    // What the graph adds of another repository does not come in.
    let more = vec![chunk("/s/x.rs", 1, 1, 9), chunk("/r/z.rs", 1, 1, 8)];
    step(&mut run, QueryEvent::Expanded { chunks: more, graph_ms: 4 });
    let files: Vec<&str> = run.chunks.iter().map(|c| c.file.as_str()).collect();
    assert_eq!(files, vec!["/r/z.rs", "/r/a.rs"]);
    step(&mut run, QueryEvent::Read { numbered: vec![None, None], caller_stats: vec![] });
    // Nor does what a model found there.
    let pool = Pool {
        chunks: vec![chunk("/s/y.rs", 1, 1, 7), chunk("/r/a.rs", 1, 2, 3)],
        numbered: vec![None, None],
    };
    let ranked = QueryEvent::Ranked {
        output: output(vec![0, 1]),
        pool: Some(pool),
        merge_ms: 5,
        rerank_ms: 6,
        total_ms: 7,
    };
    match step(&mut run, ranked) {
        QueryAction::Answer { result } => {
            let files: Vec<&str> = result.results.iter().map(|r| r.file.as_str()).collect();
            assert_eq!(files, vec!["/r/a.rs"]);
            assert_eq!(result.pre_rerank_results.len(), 2);
        }
        _ => panic!("must be answered"),
    }
}
