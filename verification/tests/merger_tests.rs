use context_engine::query::merger::{merge_chunks, MergeChunk};
use context_engine::query::score::{score_bits, score_key};

fn chunk(file: &str, line_start: u32, line_end: u32, score: f32, content: &str) -> MergeChunk {
    MergeChunk {
        file: file.to_string(),
        line_start,
        line_end,
        score: score_key(score.to_bits()),
        content: content.to_string(),
        symbol: None,
        symbol_fqn: None,
    }
}

fn shape(v: &[MergeChunk]) -> Vec<(String, u32, u32, f32)> {
    v.iter()
        .map(|c| (c.file.clone(), c.line_start, c.line_end, f32::from_bits(score_bits(c.score))))
        .collect()
}

#[test]
fn nothing_merges_to_nothing() {
    assert!(merge_chunks(vec![], 5).is_empty());
}

#[test]
fn duplicates_keep_the_highest_score() {
    let out = merge_chunks(
        vec![
            chunk("a", 1, 5, 0.2, "low"),
            chunk("a", 1, 5, 0.9, "high"),
            chunk("a", 1, 5, 0.5, "middle"),
        ],
        10,
    );
    assert_eq!(shape(&out), vec![("a".to_string(), 1, 5, 0.9)]);
    assert_eq!(out[0].content, "high");
}

#[test]
fn neighbours_are_joined_over_a_gap_of_one_line() {
    let out = merge_chunks(
        vec![chunk("a", 7, 9, 0.8, "g\nh\ni"), chunk("a", 1, 5, 0.3, "a\nb\nc\nd\ne")],
        10,
    );
    assert_eq!(shape(&out), vec![("a".to_string(), 1, 9, 0.8)]);
    assert_eq!(out[0].content, "a\nb\nc\nd\ne\ng\nh\ni");
    let apart = merge_chunks(vec![chunk("a", 1, 5, 0.3, ""), chunk("a", 8, 9, 0.8, "")], 10);
    assert_eq!(apart.len(), 2);
}

#[test]
fn overlapping_lines_are_not_repeated() {
    let out = merge_chunks(
        vec![chunk("a", 1, 3, 0.5, "a\nb\nc"), chunk("a", 2, 4, 0.5, "b\nc\nd")],
        10,
    );
    assert_eq!(out.len(), 1);
    assert_eq!(out[0].content, "a\nb\nc\nd");
}

#[test]
fn merged_chunks_have_at_most_sixty_lines() {
    let exactly = merge_chunks(vec![chunk("a", 1, 30, 0.1, ""), chunk("a", 31, 60, 0.2, "")], 10);
    assert_eq!(shape(&exactly), vec![("a".to_string(), 1, 60, 0.2)]);
    let longer = merge_chunks(vec![chunk("a", 1, 30, 0.1, ""), chunk("a", 31, 61, 0.2, "")], 10);
    assert_eq!(longer.len(), 2);
}

#[test]
fn contained_chunks_are_dropped() {
    let out = merge_chunks(
        vec![chunk("a", 1, 100, 0.1, "wide"), chunk("a", 40, 50, 0.9, "inside"), chunk("b", 45, 46, 0.5, "")],
        10,
    );
    assert_eq!(
        shape(&out),
        vec![("b".to_string(), 45, 46, 0.5), ("a".to_string(), 1, 100, 0.1)]
    );
}

#[test]
fn results_are_ordered_and_capped() {
    let hits: Vec<MergeChunk> = (0..10u32)
        .map(|i| chunk("a", 1000 * i + 1, 1000 * i + 5, i as f32 / 10.0, ""))
        .collect();
    let out = merge_chunks(hits, 3);
    let scores: Vec<f32> = shape(&out).iter().map(|c| c.3).collect();
    assert_eq!(scores, vec![0.9, 0.8, 0.7]);
}

#[test]
fn symbols_of_merged_chunks() {
    let mut a = chunk("a", 1, 3, 0.5, "");
    let mut b = chunk("a", 4, 6, 0.5, "");
    a.symbol = None;
    b.symbol = Some("b".to_string());
    b.symbol_fqn = Some("a::b".to_string());
    let out = merge_chunks(vec![a, b], 10);
    assert_eq!(out[0].symbol.as_deref(), Some("b"));
    assert_eq!(out[0].symbol_fqn.as_deref(), Some("a::b"));
}

#[test]
fn extreme_line_numbers_do_not_overflow() {
    let out = merge_chunks(
        vec![chunk("a", u32::MAX - 1, u32::MAX, 0.5, ""), chunk("a", u32::MAX, u32::MAX, 0.6, "")],
        10,
    );
    assert_eq!(shape(&out), vec![("a".to_string(), u32::MAX - 1, u32::MAX, 0.6)]);
}

#[test]
fn score_keys_are_ordered_as_scores() {
    let scores = [
        f32::NEG_INFINITY, -2.5, -1.0, -1.0e-30, 0.0, 1.0e-30, 0.25, 0.5, 1.0, 3.0e10, f32::INFINITY,
    ];
    for a in scores {
        for b in scores {
            let (ka, kb) = (score_key(a.to_bits()), score_key(b.to_bits()));
            assert_eq!(a < b, ka < kb);
            assert_eq!(a == b, ka == kb);
        }
        assert_eq!(f32::from_bits(score_bits(score_key(a.to_bits()))), a);
    }
    assert_eq!(score_key((-0.0f32).to_bits()), score_key(0.0f32.to_bits()));
}

/// Hits that differ in their scores and in where they begin.
fn hits() -> Vec<MergeChunk> {
    vec![
        chunk("a", 1, 5, 0.31, "1\n2\n3\n4\n5"),
        chunk("a", 6, 9, 0.92, "6\n7\n8\n9"),
        chunk("a", 40, 140, 0.53, "long"),
        chunk("a", 50, 60, 0.74, "inside"),
        chunk("a", 141, 150, 0.45, "behind"),
        chunk("b", 3, 4, 0.66, "3\n4"),
        chunk("b", 90, 99, 0.17, "end"),
    ]
}

fn whole(v: &[MergeChunk]) -> Vec<(String, u32, u32, i32, String)> {
    v.iter()
        .map(|c| (c.file.clone(), c.line_start, c.line_end, c.score, c.content.clone()))
        .collect()
}

#[test]
fn the_order_of_the_hits_is_irrelevant() {
    let best = whole(&merge_chunks(hits(), 7));
    assert_eq!(best.len(), 5);
    for turn in 0..7 {
        let mut turned = hits();
        turned.rotate_left(turn);
        assert_eq!(whole(&merge_chunks(turned, 7)), best);
        let mut reversed = hits();
        reversed.reverse();
        reversed.rotate_left(turn);
        assert_eq!(whole(&merge_chunks(reversed, 7)), best);
    }
}

#[test]
fn the_cap_keeps_the_best() {
    let best = whole(&merge_chunks(hits(), 7));
    for cap in 0..9 {
        let kept = whole(&merge_chunks(hits(), cap));
        assert_eq!(kept, best[..cap.min(best.len())]);
    }
}

#[test]
fn merging_again_changes_nothing() {
    let once = merge_chunks(hits(), 7);
    let before = whole(&once);
    assert_eq!(whole(&merge_chunks(once, 7)), before);
}

#[test]
fn results_bridge_single_lines_only() {
    let out = merge_chunks(hits(), 7);
    for c in &out {
        for line in c.line_start..=c.line_end {
            let held = |n: u32| {
                hits().iter().any(|h| {
                    h.file == c.file
                        && h.line_start >= c.line_start
                        && h.line_end <= c.line_end
                        && h.line_start <= n
                        && n <= h.line_end
                })
            };
            assert!(held(line) || (held(line - 1) && held(line + 1)));
        }
    }
    let gap = merge_chunks(vec![chunk("a", 1, 2, 0.1, "x"), chunk("a", 4, 5, 0.2, "y")], 2);
    assert_eq!(shape(&gap), vec![("a".to_string(), 1, 5, 0.2)]);
}

#[test]
fn hits_over_the_limit_stay_as_they_are() {
    let out = merge_chunks(hits(), 7);
    let long: Vec<&MergeChunk> =
        out.iter().filter(|c| c.line_end - c.line_start + 1 > 60).collect();
    assert_eq!(long.len(), 1);
    assert_eq!((long[0].line_start, long[0].line_end, long[0].content.as_str()), (40, 140, "long"));
}
