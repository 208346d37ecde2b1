use context_engine::query::json::{parse_json, Json};
use context_engine::query::merger::MergeChunk;
use context_engine::query::prompt::{
    build_question, finish_rerank, plan_rerank, system_prompt, truncate_content, RerankPlan, Shown,
};
use context_engine::query::ranges::sanitize_ranges;
use context_engine::query::reranker::{
    interpret_reply, parse_rerank_response, payload_text, rank_entries, RerankOutput,
    RANKING_PATTERN,
};
use context_engine::query::score::score_key;

fn chunk(line_start: u32, line_end: u32) -> MergeChunk {
    MergeChunk {
        file: "/x.rs".to_owned(),
        line_start,
        line_end,
        score: score_key(1.0f32.to_bits()),
        content: "stored".to_owned(),
        symbol: None,
        symbol_fqn: None,
    }
}

fn pair(s: u64, e: u64) -> Json {
    Json::Array(vec![Json::Unsigned(s), Json::Unsigned(e)])
}

// ── sanitize_ranges ──────────────────────────────────────────────────

#[test]
fn sanitize_merges_overlapping_and_adjacent() {
    // Chunk 100..200. Ranges [110,120] and [121,130] are gap==1 → merge.
    // With pad ±2: [108,122] and [119,132] overlap → one [108,132].
    let arr = vec![pair(110, 120), pair(121, 130)];
    let out = sanitize_ranges(&arr, 100, 200).expect("some");
    assert_eq!(out, vec![(108, 132)]);
}

#[test]
fn sanitize_drops_start_gt_end() {
    let arr = vec![pair(150, 140)];
    assert_eq!(sanitize_ranges(&arr, 100, 200), None);
}

#[test]
fn sanitize_range_fully_outside_chunk_is_none() {
    let arr = vec![pair(10, 20)]; // entirely below chunk_start=100
    assert_eq!(sanitize_ranges(&arr, 100, 200), None);
}

#[test]
fn sanitize_pads_and_clamps_to_bounds() {
    // Range [101,199] padded ±2 → [99,201], clamped to [100,200].
    let arr = vec![pair(101, 199)];
    let out = sanitize_ranges(&arr, 100, 200).expect("some");
    assert_eq!(out, vec![(100, 200)]);
}

#[test]
fn sanitize_all_malformed_is_none() {
    let arr = vec![
        Json::Array(vec![Json::Unsigned(1), Json::Unsigned(2), Json::Unsigned(3)]),
        Json::Array(vec![Json::Other, Json::Other]),
        Json::Unsigned(5),
        pair(9, 4),
    ];
    assert_eq!(sanitize_ranges(&arr, 100, 200), None);
}

#[test]
fn selections_are_sorted_and_separate() {
    let arr = vec![pair(180, 181), pair(110, 111), pair(150, 150), pair(112, 113)];
    assert_eq!(
        sanitize_ranges(&arr, 100, 200),
        Some(vec![(108, 115), (148, 152), (178, 183)])
    );
    // 104 and 105 touch: no line lies between them.
    let touching = vec![pair(100, 102), pair(107, 108)];
    assert_eq!(sanitize_ranges(&touching, 100, 200), Some(vec![(100, 110)]));
    let apart = vec![pair(100, 102), pair(108, 109)];
    assert_eq!(sanitize_ranges(&apart, 100, 200), Some(vec![(100, 104), (106, 111)]));
}

#[test]
fn selections_at_the_end_of_the_numbers() {
    let max = u32::MAX;
    let arr = vec![pair(max as u64, max as u64), pair(max as u64 - 1, max as u64)];
    assert_eq!(sanitize_ranges(&arr, max - 10, max), Some(vec![(max - 3, max)]));
    // Numbers past those of any line are clamped like the others.
    let past = (1u64 << 32) + 5;
    assert_eq!(sanitize_ranges(&vec![pair(110, past)], 100, 200), Some(vec![(108, 200)]));
    assert_eq!(sanitize_ranges(&vec![pair(110, u64::MAX)], 100, 200), Some(vec![(108, 200)]));
    assert_eq!(sanitize_ranges(&vec![pair(past, past + 3)], 1, 200), None);
    assert_eq!(sanitize_ranges(&vec![pair(past, past)], max - 1, max), None);
}

// ── parse_rerank_response ────────────────────────────────────────────

fn parse(resp: &str, chunks: &Vec<MergeChunk>) -> RerankOutput {
    // 16 = default rerank_min_prune_lines. XML mode (structured = false).
    parse_rerank_response(resp, chunks, 16, 0, false)
}

fn parse_structured(resp: &str, chunks: &Vec<MergeChunk>) -> RerankOutput {
    // 16 = default rerank_min_prune_lines. JSON object-root mode.
    parse_rerank_response(resp, chunks, 16, 0, true)
}

#[test]
fn parse_bare_int_is_whole_chunk() {
    let chunks = vec![chunk(1, 10), chunk(1, 10)];
    let out = parse("<ranked_indices>[1, 0]</ranked_indices>", &chunks);
    assert_eq!(out.reranked_indices, vec![1, 0]);
    assert_eq!(out.line_selections, vec![None, None]);
    assert!(!out.fallback_used);
}

#[test]
fn parse_object_with_lines_yields_ranges() {
    // Chunk 100..200 is large (>30 lines) so pruning applies.
    let chunks = vec![chunk(100, 200)];
    let out = parse(
        "<ranked_indices>[{\"chunk_index\":0,\"lines\":[[110,120]]}]</ranked_indices>",
        &chunks,
    );
    assert_eq!(out.reranked_indices, vec![0]);
    // [110,120] padded ±2 → [108,122], within bounds.
    assert_eq!(out.line_selections, vec![Some(vec![(108, 122)])]);
}

#[test]
fn parse_object_without_chunk_index_is_skipped() {
    let chunks = vec![chunk(1, 10)];
    let out = parse("<ranked_indices>[{\"lines\":[[1,2]]}, 0]</ranked_indices>", &chunks);
    assert_eq!(out.reranked_indices, vec![0]);
    assert_eq!(out.line_selections, vec![None]);
}

#[test]
fn parse_out_of_range_index_dropped() {
    let chunks = vec![chunk(1, 10)];
    let out = parse("<ranked_indices>[5, 0]</ranked_indices>", &chunks);
    assert_eq!(out.reranked_indices, vec![0]);
}

#[test]
fn parse_legacy_i_alias_still_accepted() {
    let chunks = vec![chunk(100, 200)];
    let out = parse(
        "<ranked_indices>[{\"i\":0,\"lines\":[[110,120]]}]</ranked_indices>",
        &chunks,
    );
    assert_eq!(out.reranked_indices, vec![0]);
    assert_eq!(out.line_selections, vec![Some(vec![(108, 122)])]);
}

#[test]
fn parse_keep_full_is_whole_chunk() {
    // Canonical "keep whole chunk" form: {"chunk_index":idx,"keep":"full"} — no `lines` field.
    let chunks = vec![chunk(100, 200)];
    let out = parse(
        "<ranked_indices>[{\"chunk_index\":0,\"keep\":\"full\"}]</ranked_indices>",
        &chunks,
    );
    assert_eq!(out.reranked_indices, vec![0]);
    assert_eq!(out.line_selections, vec![None]);
}

#[test]
fn parse_empty_lines_is_whole_chunk() {
    // Safety net: a stray empty `lines` array still degrades to whole chunk.
    let chunks = vec![chunk(100, 200)];
    let out = parse(
        "<ranked_indices>[{\"chunk_index\":0,\"lines\":[]}]</ranked_indices>",
        &chunks,
    );
    assert_eq!(out.reranked_indices, vec![0]);
    assert_eq!(out.line_selections, vec![None]);
}

#[test]
fn parse_small_chunk_never_pruned() {
    // Chunk span 9 < min_prune_lines (16) → selection forced to None.
    let chunks = vec![chunk(1, 10)];
    let out = parse(
        "<ranked_indices>[{\"chunk_index\":0,\"lines\":[[3,5]]}]</ranked_indices>",
        &chunks,
    );
    assert_eq!(out.line_selections, vec![None]);
}

#[test]
fn parse_broken_json_falls_back_to_all_indices() {
    let chunks = vec![chunk(1, 10), chunk(1, 10), chunk(1, 10)];
    let out = parse("<ranked_indices>not json</ranked_indices>", &chunks);
    assert!(out.fallback_used);
    assert_eq!(out.reranked_indices, vec![0, 1, 2]);
    assert_eq!(out.line_selections, vec![None, None, None]);
    assert_eq!(out.skip_reason.as_deref(), Some("failed to parse LLM response"));
}

// ── parse_rerank_response (structured object-root mode) ──────────────

#[test]
fn parse_structured_object_root_ranks_chunks() {
    // {"ranked_indices":[...]} object root, reusing the same element forms.
    let chunks = vec![chunk(1, 10), chunk(100, 200)];
    let out = parse_structured(
        "{\"ranked_indices\":[{\"chunk_index\":1,\"lines\":[[110,120]]},{\"chunk_index\":0,\"keep\":\"full\"}]}",
        &chunks,
    );
    assert!(!out.fallback_used);
    assert_eq!(out.reranked_indices, vec![1, 0]);
    // Chunk 1 (100..200) is large → [110,120] padded ±2 → [108,122].
    // Chunk 0 keep:full → None.
    assert_eq!(out.line_selections, vec![Some(vec![(108, 122)]), None]);
}

#[test]
fn parse_structured_missing_key_falls_back_to_all_indices() {
    // Valid JSON object, but no `ranked_indices` key → original-order fallback.
    let chunks = vec![chunk(1, 10), chunk(1, 10)];
    let out = parse_structured("{\"something_else\":[0,1]}", &chunks);
    assert!(out.fallback_used);
    assert_eq!(out.reranked_indices, vec![0, 1]);
    assert_eq!(out.line_selections, vec![None, None]);
    assert_eq!(
        out.skip_reason.as_deref(),
        Some("structured response missing ranked_indices")
    );
}

#[test]
fn parse_structured_key_not_array_falls_back() {
    // `ranked_indices` present but not an array → original-order fallback.
    let chunks = vec![chunk(1, 10), chunk(1, 10)];
    let out = parse_structured("{\"ranked_indices\":\"oops\"}", &chunks);
    assert!(out.fallback_used);
    assert_eq!(out.reranked_indices, vec![0, 1]);
}

#[test]
fn parse_structured_non_object_root_falls_back() {
    // A bare array (not the expected object root) in structured mode → fallback.
    let chunks = vec![chunk(1, 10), chunk(1, 10)];
    let out = parse_structured("[0, 1]", &chunks);
    assert!(out.fallback_used);
    assert_eq!(out.reranked_indices, vec![0, 1]);
    assert_eq!(out.skip_reason.as_deref(), Some("failed to parse structured response"));
}

#[test]
fn parse_structured_unknown_entry_keys_skipped() {
    // Element-level tolerance: an object without `chunk_index` or `i` is skipped,
    // the valid one is kept. (Same loop as XML mode.)
    let chunks = vec![chunk(1, 10), chunk(1, 10)];
    let out = parse_structured(
        "{\"ranked_indices\":[{\"lines\":[[1,2]]},{\"chunk_index\":1,\"keep\":\"full\"}]}",
        &chunks,
    );
    assert!(!out.fallback_used);
    assert_eq!(out.reranked_indices, vec![1]);
    assert_eq!(out.line_selections, vec![None]);
}

#[test]
fn replies_in_other_wrappings() {
    let chunks = vec![chunk(1, 10), chunk(1, 10)];
    for reply in [
        "[1, 0]",
        "  [1, 0]\n",
        "```json\n[1, 0]\n```",
        "```\n[1,\n0]\n```\n",
        "Sure:\n<ranked_indices>\n  [1, 0]\n</ranked_indices> done <ranked_indices>[]</ranked_indices>",
    ] {
        let out = parse(reply, &chunks);
        assert!(!out.fallback_used, "{reply}");
        assert_eq!(out.reranked_indices, vec![1, 0], "{reply}");
        assert_eq!(out.raw_response, reply);
    }
    let out = parse_structured(" {\"ranked_indices\": []} ", &chunks);
    assert!(!out.fallback_used);
    assert!(out.reranked_indices.is_empty() && out.line_selections.is_empty());
    assert_eq!(out.skip_reason, None);
}

#[test]
fn a_bad_chunk_index_hides_the_alias() {
    let chunks = vec![chunk(1, 10)];
    for entry in ["{\"chunk_index\":\"0\",\"i\":0}", "{\"chunk_index\":-1}", "0.0", "null", "true"] {
        let out = parse(&format!("<ranked_indices>[{entry}]</ranked_indices>"), &chunks);
        assert!(!out.fallback_used);
        assert!(out.reranked_indices.is_empty(), "{entry}");
    }
}

#[test]
fn payloads_of_replies() {
    assert_eq!(payload_text(" x ", &None, false), "x");
    assert_eq!(payload_text(" x ", &None, true), "x");
    assert_eq!(payload_text("a", &Some("b".to_string()), false), "b");
    assert_eq!(payload_text("a", &Some("b".to_string()), true), "a");
    assert_eq!(payload_text("```json\n{\n}\n```", &None, false), "{\n}");
}

#[test]
fn json_values_are_read() {
    match parse_json("{\"a\": [1, -1, 2.5, \"x\"], \"b\": {}}") {
        Some(Json::Object(fields)) => {
            assert_eq!(fields.len(), 2);
            assert_eq!(fields[0].0, "a");
            match &fields[0].1 {
                Json::Array(items) => {
                    assert!(matches!(items[0], Json::Unsigned(1)));
                    assert!(matches!(items[1], Json::Other));
                    assert!(matches!(items[2], Json::Other));
                    assert!(matches!(items[3], Json::Other));
                }
                _ => panic!("an array"),
            }
            assert!(matches!(&fields[1].1, Json::Object(f) if f.is_empty()));
        }
        _ => panic!("an object"),
    }
    assert!(parse_json("{").is_none());
    assert!(matches!(parse_json("18446744073709551615"), Some(Json::Unsigned(u64::MAX))));
}

#[test]
fn entries_on_plain_values() {
    let chunks = vec![chunk(100, 200), chunk(1, 5)];
    let entries = vec![
        Json::Unsigned(1),
        Json::Unsigned(9),
        Json::Object(vec![
            ("chunk_index".to_string(), Json::Unsigned(0)),
            ("lines".to_string(), Json::Array(vec![pair(150, 160)])),
        ]),
        Json::Other,
    ];
    let (indices, selections) = rank_entries(&entries, &chunks, 16);
    assert_eq!(indices, vec![1, 0]);
    assert_eq!(selections, vec![None, Some(vec![(148, 162)])]);
    let out = interpret_reply("raw", &Some(Json::Array(entries)), &chunks, 16, 7, false);
    assert_eq!(out.reranked_indices, vec![1, 0]);
    assert_eq!((out.raw_response.as_str(), out.elapsed_ms), ("raw", 7));
    let none = interpret_reply("raw", &None, &chunks, 16, 7, false);
    assert!(none.fallback_used);
    assert_eq!(none.reranked_indices, vec![0, 1]);
}

// ── Prompts ──────────────────────────────────────────────────────────

#[test]
fn long_content_is_truncated_in_the_middle() {
    let all: Vec<String> = (1..=10).map(|i| format!("l{i}")).collect();
    let text = all.join("\n");
    assert_eq!(truncate_content(&text, 10), text);
    assert_eq!(
        truncate_content(&text, 4),
        "l1\nl2\n... (6 lines truncated) ...\nl9\nl10"
    );
    assert_eq!(
        truncate_content(&text, 5),
        "l1\nl2\n... (5 lines truncated) ...\nl9\nl10"
    );
    assert_eq!(truncate_content(&text, 0), "\n... (10 lines truncated) ...\n");
}

fn shown(n: usize) -> Shown {
    Shown {
        scores: vec!["1.00".to_string(); n],
        caller_stats: vec![Some((3, 2))],
        numbered: vec![None, Some("5: y".to_string())],
    }
}

#[test]
fn the_question_lists_the_chunks() {
    let mut second = chunk(5, 5);
    second.symbol = Some("sym".to_string());
    let chunks = vec![chunk(1, 2), second];
    let q = build_question("where?", &chunks, &shown(2), false);
    assert!(q.user.starts_with(
        "Query: where?\n\nChunks:\n[0] score=1.00 callers=3 files=2 | /x.rs:1-2 (no symbol)\n<content chunk-index=\"0\">\nstored\n</content>\n---\n[1] score=1.00 | /x.rs:5-5 (sym)\n<content chunk-index=\"1\">\n5: y\n</content>\n\nNow rank the chunks by relevance. Write the opening tag <ranked_indices>,"
    ));
    assert!(q.user.ends_with("then the closing tag </ranked_indices>."));
    assert_eq!(q.raw_request, format!("[System]\n{}\n\n[User]\n{}", q.system, q.user));
    let json = build_question("where?", &chunks, &shown(2), true);
    assert!(json.user.contains("Respond with a JSON object {\"ranked_indices\": [ ... ]} whose array holds objects — {\"chunk_index\":index,\"lines\":[[start,end]]} to narrow,"));
}

#[test]
fn the_instructions_depend_on_the_mode() {
    let xml = system_prompt(false);
    let json = system_prompt(true);
    assert!(xml.starts_with("You are a code search relevance ranker. Given a query and numbered code chunks with metadata (relevance score, callers count, callees count, flow membership), your job"));
    assert!(xml.contains("absolute line number (\"123: code\"). Your output MUST contain a pair of XML tags"));
    assert!(xml.ends_with("relevant to the query. Do not include any other text between the tags, only the JSON array."));
    assert!(json.contains("(\"123: code\"). Respond with a single JSON object with exactly one key, `ranked_indices`, whose value is a JSON array of objects ordered from most relevant to least relevant. Each element MUST be an object"));
    assert!(json.ends_with("relevant to the query. Output only the JSON object — no prose, no code fences."));
}

#[test]
fn without_a_model_the_order_stays() {
    let chunks = vec![chunk(1, 2), chunk(3, 4)];
    match plan_rerank("q", &chunks, &shown(2), None) {
        RerankPlan::Done(out) => {
            assert_eq!(out.reranked_indices, vec![0, 1]);
            assert_eq!(out.line_selections, vec![None, None]);
            assert!(!out.fallback_used);
            assert_eq!(out.skip_reason.as_deref(), Some("no LLM API key configured"));
        }
        RerankPlan::Ask(_) => panic!("no model to ask"),
    }
    match plan_rerank("q", &vec![], &shown(0), Some(true)) {
        RerankPlan::Done(out) => {
            assert!(out.reranked_indices.is_empty());
            assert_eq!(out.skip_reason, None);
        }
        RerankPlan::Ask(_) => panic!("nothing to ask about"),
    }
    assert!(matches!(plan_rerank("q", &chunks, &shown(2), Some(true)), RerankPlan::Ask(_)));
}

#[test]
fn a_failed_call_keeps_the_order() {
    let chunks = vec![chunk(1, 2), chunk(3, 4)];
    let out = finish_rerank("req".to_string(), Err("timeout".to_string()), &chunks, 16, 9, true);
    assert!(out.fallback_used);
    assert_eq!(out.reranked_indices, vec![0, 1]);
    assert_eq!(out.raw_request, "req");
    assert_eq!(out.skip_reason.as_deref(), Some("LLM request failed: timeout"));
    assert_eq!(out.elapsed_ms, 9);
    let ok = finish_rerank("req".to_string(), Ok("[1]".to_string()), &chunks, 16, 9, false);
    assert_eq!(ok.reranked_indices, vec![1]);
    assert_eq!((ok.raw_request.as_str(), ok.raw_response.as_str()), ("req", "[1]"));
}

#[test]
fn the_first_pair_of_tags_counts() {
    let chunks = vec![chunk(1, 10), chunk(1, 10)];
    let ranked = |reply: &str| {
        let out = parse(reply, &chunks);
        (out.reranked_indices, out.fallback_used)
    };
    let all = (vec![0, 1], true);
    assert_eq!(
        ranked("x <ranked_indices>\n [1] \u{3000}</ranked_indices> <ranked_indices>[0]</ranked_indices>"),
        (vec![1], false)
    );
    // A closing tag before the opening one is passed over.
    assert_eq!(ranked("</ranked_indices><ranked_indices>[1]</ranked_indices>"), (vec![1], false));
    // An opening tag within the ranking is part of it.
    assert_eq!(ranked("<ranked_indices><ranked_indices>[1]</ranked_indices>"), all);
    // Tags that do not close enclose nothing.
    assert_eq!(ranked("[1]"), (vec![1], false));
    assert_eq!(ranked("<ranked_indices>[1]"), all);
    assert_eq!(ranked("<ranked_indices>[1]<ranked_indices>"), all);
}

/// What the pattern captures, against the text between the tags.
#[test]
fn the_pattern_captures_what_the_tags_enclose() {
    let pattern = regex::Regex::new(RANKING_PATTERN).unwrap();
    let parts = ["<ranked_indices>", "</ranked_indices>", " ", "\u{2009}\n", "[0]", "<", "</ranked"];
    let mut texts: Vec<String> = vec![String::new()];
    for _ in 0..5 {
        let longer: Vec<String> =
            texts.iter().flat_map(|t| parts.iter().map(move |p| format!("{t}{p}"))).collect();
        for text in &longer {
            let captured = pattern.captures(text).map(|c| c.get(1).unwrap().as_str());
            let enclosed = text.split_once("<ranked_indices>").and_then(|(_, rest)| {
                rest.split_once("</ranked_indices>").map(|(inner, _)| inner.trim())
            });
            assert_eq!(captured, enclosed, "{text}");
        }
        texts = longer;
    }
}
