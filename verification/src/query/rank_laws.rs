//! What holds of every question to the model and of every ranking read from it.
use vstd::prelude::*;

use crate::query::json::JsonView;
use crate::query::merger::MergeView;
use crate::query::{json, prompt, ranges, reranker};

verus! {

// ─── Fields ───

/// The value of a field is that of the first with the key, wherever it stands
/// among the others.
pub proof fn law_field_is_found(fields: Seq<(Seq<char>, JsonView)>, key: Seq<char>, k: int)
    requires
        0 <= k < fields.len(),
        fields[k].0 == key,
        forall|i: int| 0 <= i < k ==> (#[trigger] fields[i]).0 != key,
    ensures
        json::field_of(fields, key) == Some(fields[k].1),
    decreases k,
{
    if k > 0 {
        let rest = fields.drop_first();
        assert(fields[0].0 != key);
        assert forall|i: int| 0 <= i < k - 1 implies (#[trigger] rest[i]).0 != key by {
            assert(rest[i] == fields[i + 1]);
        }
        law_field_is_found(rest, key, k - 1);
    }
}

/// Without a field of the key there is no value.
pub proof fn law_missing_field_is_not_found(fields: Seq<(Seq<char>, JsonView)>, key: Seq<char>)
    requires
        forall|i: int| 0 <= i < fields.len() ==> (#[trigger] fields[i]).0 != key,
    ensures
        json::field_of(fields, key) is None,
    decreases fields.len(),
{
    if fields.len() > 0 {
        let rest = fields.drop_first();
        assert(fields[0].0 != key);
        assert forall|i: int| 0 <= i < rest.len() implies (#[trigger] rest[i]).0 != key by {
            assert(rest[i] == fields[i + 1]);
        }
        law_missing_field_is_not_found(rest, key);
    }
}

// ─── Entries ───

/// The entry names the chunk with the number: it is the number, or an object that
/// has it under `chunk_index`, or under `i` where there is no `chunk_index`.
pub open spec fn names_chunk(entry: JsonView, n: u64) -> bool {
    match entry {
        JsonView::Unsigned(m) => m == n,
        JsonView::Object(fields) => exists|k: int|
            0 <= k < fields.len() && (#[trigger] fields[k]).1 == JsonView::Unsigned(n) && (
            first_with(fields, k, "chunk_index"@) || (first_with(fields, k, "i"@) && lacks(
                fields,
                "chunk_index"@,
            ))),
        _ => false,
    }
}

pub open spec fn first_with(fields: Seq<(Seq<char>, JsonView)>, k: int, key: Seq<char>) -> bool {
    fields[k].0 == key && forall|i: int| 0 <= i < k ==> (#[trigger] fields[i]).0 != key
}

pub open spec fn lacks(fields: Seq<(Seq<char>, JsonView)>, key: Seq<char>) -> bool {
    forall|i: int| 0 <= i < fields.len() ==> (#[trigger] fields[i]).0 != key
}

proof fn lemma_field_position(fields: Seq<(Seq<char>, JsonView)>, key: Seq<char>) -> (k: int)
    requires
        json::field_of(fields, key) is Some,
    ensures
        0 <= k < fields.len(),
        first_with(fields, k, key),
        json::field_of(fields, key) == Some(fields[k].1),
    decreases fields.len(),
{
    if fields[0].0 == key {
        0
    } else {
        let rest = fields.drop_first();
        let j = lemma_field_position(rest, key);
        assert forall|i: int| 0 <= i < j + 1 implies (#[trigger] fields[i]).0 != key by {
            if i > 0 {
                assert(fields[i] == rest[i - 1]);
            }
        }
        j + 1
    }
}

/// An entry is read as the chunk that it names, and as none where it names none.
pub proof fn law_entries_are_read_by_their_number(entry: JsonView, n: u64)
    ensures
        reranker::entry_index(entry) == Some(n) <==> names_chunk(entry, n),
{
    if let JsonView::Object(fields) = entry {
        let by_name = json::field_of(fields, "chunk_index"@);
        if names_chunk(entry, n) {
            let k = choose|k: int|
                0 <= k < fields.len() && (#[trigger] fields[k]).1 == JsonView::Unsigned(n) && (
                first_with(fields, k, "chunk_index"@) || (first_with(fields, k, "i"@) && lacks(
                    fields,
                    "chunk_index"@,
                )));
            if first_with(fields, k, "chunk_index"@) {
                law_field_is_found(fields, "chunk_index"@, k);
            } else {
                law_missing_field_is_not_found(fields, "chunk_index"@);
                law_field_is_found(fields, "i"@, k);
            }
        }
        if reranker::entry_index(entry) == Some(n) {
            if by_name is Some {
                let k = lemma_field_position(fields, "chunk_index"@);
                assert(fields[k].1 == JsonView::Unsigned(n));
            } else {
                let k = lemma_field_position(fields, "i"@);
                assert(fields[k].1 == JsonView::Unsigned(n));
                assert(lacks(fields, "chunk_index"@)) by {
                    assert forall|i: int| 0 <= i < fields.len() implies (#[trigger] fields[i]).0
                        != "chunk_index"@ by {
                        if fields[i].0 == "chunk_index"@ {
                            lemma_some_field(fields, "chunk_index"@, i);
                        }
                    }
                }
            }
        }
    }
}

proof fn lemma_some_field(fields: Seq<(Seq<char>, JsonView)>, key: Seq<char>, k: int)
    requires
        0 <= k < fields.len(),
        fields[k].0 == key,
    ensures
        json::field_of(fields, key) is Some,
    decreases k,
{
    if fields[0].0 != key {
        let rest = fields.drop_first();
        assert(rest[k - 1] == fields[k]);
        lemma_some_field(rest, key, k - 1);
    }
}

/// The entry names one of so many chunks.
pub open spec fn is_valid(entry: JsonView, n: nat) -> bool {
    exists|m: u64| #[trigger] names_chunk(entry, m) && m < n
}

// ─── The ranking ───

/// The ranking is the entries that name a candidate, all of them and in the order
/// of the reply: the `k`th position is the `k`th such entry, with what that entry
/// selects.
pub proof fn law_ranking_is_the_valid_entries(
    entries: Seq<JsonView>,
    chunks: Seq<MergeView>,
    min_prune_lines: u32,
)
    requires
        chunks.len() <= usize::MAX,
    ensures
        ({
            let ranking = reranker::ranking_of(entries, chunks, min_prune_lines);
            let valid = entries.filter(|e: JsonView| is_valid(e, chunks.len()));
            &&& ranking.indices.len() == valid.len()
            &&& ranking.selections.len() == valid.len()
            &&& forall|k: int|
                0 <= k < valid.len() ==> {
                    &&& names_chunk(#[trigger] valid[k], ranking.indices[k] as u64)
                    &&& ranking.indices[k] < chunks.len()
                    &&& ranking.selections[k] == reranker::selection_of(
                        valid[k],
                        chunks[ranking.indices[k] as int],
                        min_prune_lines,
                    )
                }
        }),
    decreases entries.len(),
{
    reveal(Seq::filter);
    let n = chunks.len();
    let valid = entries.filter(|e: JsonView| is_valid(e, n));
    let ranking = reranker::ranking_of(entries, chunks, min_prune_lines);
    if entries.len() > 0 {
        let front = entries.drop_last();
        let e = entries.last();
        let before = reranker::ranking_of(front, chunks, min_prune_lines);
        law_ranking_is_the_valid_entries(front, chunks, min_prune_lines);
        let had = front.filter(|e: JsonView| is_valid(e, n));
        match reranker::entry_index(e) {
            Some(m) => {
                law_entries_are_read_by_their_number(e, m);
                if m < n {
                    assert(is_valid(e, n));
                    assert(valid == had.push(e));
                } else {
                    assert(!is_valid(e, n)) by {
                        if is_valid(e, n) {
                            let o = choose|o: u64| #[trigger] names_chunk(e, o) && o < n;
                            law_entries_are_read_by_their_number(e, o);
                        }
                    }
                }
            },
            None => {
                assert(!is_valid(e, n)) by {
                    if is_valid(e, n) {
                        let o = choose|o: u64| #[trigger] names_chunk(e, o) && o < n;
                        law_entries_are_read_by_their_number(e, o);
                    }
                }
            },
        }
        assert forall|k: int| 0 <= k < valid.len() implies {
            &&& names_chunk(#[trigger] valid[k], ranking.indices[k] as u64)
            &&& ranking.indices[k] < n
            &&& ranking.selections[k] == reranker::selection_of(
                valid[k],
                chunks[ranking.indices[k] as int],
                min_prune_lines,
            )
        } by {
            if k < had.len() {
                assert(valid[k] == had[k]);
                assert(ranking.indices[k] == before.indices[k]);
            }
        }
    }
}

/// A reply that is a list of candidates' numbers is honoured to the letter: these
/// chunks, in this order, each whole, however many there are.
pub proof fn law_numbers_are_the_ranking(
    response: Seq<char>,
    numbers: Seq<u64>,
    chunks: Seq<MergeView>,
    min_prune_lines: u32,
    elapsed_ms: u64,
)
    requires
        chunks.len() <= usize::MAX,
        forall|i: int| 0 <= i < numbers.len() ==> (#[trigger] numbers[i]) < chunks.len(),
    ensures
        ({
            let items = Seq::new(numbers.len(), |i: int| JsonView::Unsigned(numbers[i]));
            let out = reranker::outcome_of(
                response,
                Some(JsonView::Array(items)),
                chunks,
                min_prune_lines,
                elapsed_ms,
                false,
            );
            let same = reranker::outcome_of(
                response,
                Some(JsonView::Object(seq![("ranked_indices"@, JsonView::Array(items))])),
                chunks,
                min_prune_lines,
                elapsed_ms,
                true,
            );
            &&& out.reranked_indices.len() == numbers.len()
            &&& out.line_selections.len() == numbers.len()
            &&& forall|i: int|
                0 <= i < numbers.len() ==> (#[trigger] out.reranked_indices[i]) == numbers[i]
            &&& forall|i: int|
                0 <= i < numbers.len() ==> (#[trigger] out.line_selections[i]) is None
            &&& !out.fallback_used
            &&& out.skip_reason is None
            &&& out.raw_response == response
            &&& out.elapsed_ms == elapsed_ms
            &&& same == out
        }),
{
    let items = Seq::new(numbers.len(), |i: int| JsonView::Unsigned(numbers[i]));
    lemma_numbers(numbers, chunks, min_prune_lines);
    let fields = seq![("ranked_indices"@, JsonView::Array(items))];
    law_field_is_found(fields, "ranked_indices"@, 0);
}

proof fn lemma_numbers(numbers: Seq<u64>, chunks: Seq<MergeView>, min_prune_lines: u32)
    requires
        chunks.len() <= usize::MAX,
        forall|i: int| 0 <= i < numbers.len() ==> (#[trigger] numbers[i]) < chunks.len(),
    ensures
        ({
            let items = Seq::new(numbers.len(), |i: int| JsonView::Unsigned(numbers[i]));
            let ranking = reranker::ranking_of(items, chunks, min_prune_lines);
            &&& ranking.indices == Seq::new(numbers.len(), |i: int| numbers[i] as usize)
            &&& ranking.selections == Seq::new(numbers.len(), |i: int| None::<Seq<(u32, u32)>>)
        }),
    decreases numbers.len(),
{
    let items = Seq::new(numbers.len(), |i: int| JsonView::Unsigned(numbers[i]));
    let ranking = reranker::ranking_of(items, chunks, min_prune_lines);
    if numbers.len() > 0 {
        let front = numbers.drop_last();
        assert forall|i: int| 0 <= i < front.len() implies (#[trigger] front[i])
            < chunks.len() by {
            assert(front[i] == numbers[i]);
        }
        lemma_numbers(front, chunks, min_prune_lines);
        assert(items.drop_last() =~= Seq::new(front.len(), |i: int| JsonView::Unsigned(front[i])));
        assert(items.last() == JsonView::Unsigned(numbers[numbers.len() - 1]));
    }
    assert(ranking.indices =~= Seq::new(numbers.len(), |i: int| numbers[i] as usize));
    assert(ranking.selections =~= Seq::new(numbers.len(), |i: int| None::<Seq<(u32, u32)>>));
}

/// A reply that cannot be used keeps every chunk, whole, in the order in which
/// they came, and is marked; one that is an array in XML mode, or an object with
/// the array in JSON mode, can be used.
pub proof fn law_unusable_replies_keep_the_order(
    response: Seq<char>,
    value: Option<JsonView>,
    chunks: Seq<MergeView>,
    min_prune_lines: u32,
    elapsed_ms: u64,
    structured: bool,
)
    requires
        chunks.len() <= usize::MAX,
    ensures
        ({
            let out = reranker::outcome_of(
                response,
                value,
                chunks,
                min_prune_lines,
                elapsed_ms,
                structured,
            );
            let usable = match value {
                Some(JsonView::Array(_)) => !structured,
                Some(JsonView::Object(fields)) => structured && exists|k: int|
                    0 <= k < fields.len() && (#[trigger] fields[k]).1 is Array && first_with(
                        fields,
                        k,
                        "ranked_indices"@,
                    ),
                _ => false,
            };
            &&& out.fallback_used <==> !usable
            &&& out.raw_response == response
            &&& out.elapsed_ms == elapsed_ms
            &&& out.raw_request.len() == 0
            &&& !usable ==> {
                &&& out.skip_reason is Some
                &&& out.reranked_indices.len() == chunks.len()
                &&& out.line_selections.len() == chunks.len()
                &&& forall|i: int|
                    0 <= i < chunks.len() ==> (#[trigger] out.reranked_indices[i]) == i
                &&& forall|i: int|
                    0 <= i < chunks.len() ==> (#[trigger] out.line_selections[i]) is None
            }
        }),
{
    if let Some(JsonView::Object(fields)) = value {
        if structured {
            if json::field_of(fields, "ranked_indices"@) is Some {
                let k = lemma_field_position(fields, "ranked_indices"@);
                assert(json::field_of(fields, "ranked_indices"@) == Some(fields[k].1));
            }
            if exists|k: int|
                0 <= k < fields.len() && (#[trigger] fields[k]).1 is Array && first_with(
                    fields,
                    k,
                    "ranked_indices"@,
                ) {
                let k = choose|k: int|
                    0 <= k < fields.len() && (#[trigger] fields[k]).1 is Array && first_with(
                        fields,
                        k,
                        "ranked_indices"@,
                    );
                law_field_is_found(fields, "ranked_indices"@, k);
            }
        }
    }
}

// ─── Selections ───

/// The item is a pair of numbers, the first not greater, that comes within two
/// lines of the given one.
pub open spec fn asks_near(item: JsonView, line: int) -> bool {
    &&& item matches JsonView::Array(pair)
    &&& pair.len() == 2
    &&& pair[0] matches JsonView::Unsigned(s)
    &&& pair[1] matches JsonView::Unsigned(e)
    &&& s <= e
    &&& s - 2 <= line <= e + 2
}

/// The lines that a list of ranges selects from a chunk are exactly those of the
/// chunk that stand within two lines of a well-formed pair; where there is none,
/// nothing is selected.
pub proof fn law_selection_is_what_is_asked_for(
    list: Seq<JsonView>,
    chunk_start: u32,
    chunk_end: u32,
    line: int,
)
    requires
        chunk_start <= line <= chunk_end,
    ensures
        (exists|i: int| 0 <= i < list.len() && asks_near(#[trigger] list[i], line)) <==> (
        ranges::sanitized(list, chunk_start, chunk_end) matches Some(r) && ranges::selects(
            r,
            line,
        )),
{
    ranges::law_selection_holds_the_ranges(list, chunk_start, chunk_end, line);
    lemma_ranges_in(list, chunk_start, chunk_end, line);
    let all = ranges::ranges_in(list, chunk_start, chunk_end);
    if ranges::selects(all, line) {
        assert(all.len() > 0);
    }
}

proof fn lemma_ranges_in(list: Seq<JsonView>, chunk_start: u32, chunk_end: u32, line: int)
    requires
        chunk_start <= line <= chunk_end,
    ensures
        ranges::selects(ranges::ranges_in(list, chunk_start, chunk_end), line) <==> exists|i: int|
            0 <= i < list.len() && asks_near(#[trigger] list[i], line),
    decreases list.len(),
{
    let all = ranges::ranges_in(list, chunk_start, chunk_end);
    if list.len() > 0 {
        let front = list.drop_last();
        let before = ranges::ranges_in(front, chunk_start, chunk_end);
        lemma_ranges_in(front, chunk_start, chunk_end, line);
        let last = list.last();
        assert(list[list.len() - 1] == last);
        if exists|i: int| 0 <= i < front.len() && asks_near(#[trigger] front[i], line) {
            let i = choose|i: int| 0 <= i < front.len() && asks_near(#[trigger] front[i], line);
            assert(asks_near(list[i], line));
            let k = choose|k: int|
                0 <= k < before.len() && ranges::holds_line(#[trigger] before[k], line);
            assert(ranges::holds_line(all[k], line));
        }
        if asks_near(last, line) {
            let p = ranges::pair_of(last)->0;
            let r = ranges::clamped(p, chunk_start, chunk_end);
            assert(ranges::pair_of(last) == Some(p));
            assert(r is Some);
            assert(ranges::holds_line(r->0, line));
            assert(all == before.push(r->0));
            assert(ranges::holds_line(all[before.len() as int], line));
        }
        if ranges::selects(all, line) {
            let k = choose|k: int|
                0 <= k < all.len() && ranges::holds_line(#[trigger] all[k], line);
            if k < before.len() {
                assert(ranges::holds_line(before[k], line));
                let i = choose|i: int|
                    0 <= i < front.len() && asks_near(#[trigger] front[i], line);
                assert(asks_near(list[i], line));
            } else {
                let p = ranges::pair_of(last)->0;
                let r = ranges::clamped(p, chunk_start, chunk_end);
                assert(ranges::pair_of(last) == Some(p));
                assert(r is Some && all[k] == r->0);
                assert(asks_near(last, line));
            }
        }
        if exists|i: int| 0 <= i < list.len() && asks_near(#[trigger] list[i], line) {
            let i = choose|i: int| 0 <= i < list.len() && asks_near(#[trigger] list[i], line);
            if i < front.len() {
                assert(asks_near(front[i], line));
            }
        }
    }
}

/// A chunk that is large enough is narrowed to what its entry asks for; a smaller
/// one, and one whose entry lists no ranges, stays whole.
pub proof fn law_large_chunks_are_narrowed(
    fields: Seq<(Seq<char>, JsonView)>,
    k: int,
    items: Seq<JsonView>,
    chunk: MergeView,
    min_prune_lines: u32,
)
    requires
        0 <= k < fields.len(),
        first_with(fields, k, "lines"@),
        fields[k].1 == JsonView::Array(items),
        chunk.line_start <= chunk.line_end,
    ensures
        chunk.line_end - chunk.line_start < min_prune_lines || items.len() == 0
            ==> reranker::selection_of(JsonView::Object(fields), chunk, min_prune_lines) is None,
        chunk.line_end - chunk.line_start >= min_prune_lines && items.len() > 0
            ==> reranker::selection_of(JsonView::Object(fields), chunk, min_prune_lines)
            == ranges::sanitized(items, chunk.line_start, chunk.line_end),
{
    law_field_is_found(fields, "lines"@, k);
}

/// Without an array under `lines` an entry selects nothing.
pub proof fn law_entries_without_lines_select_nothing(
    entry: JsonView,
    chunk: MergeView,
    min_prune_lines: u32,
)
    requires
        entry matches JsonView::Object(fields) ==> lacks(fields, "lines"@),
    ensures
        reranker::selection_of(entry, chunk, min_prune_lines) is None,
{
    if let JsonView::Object(fields) = entry {
        law_missing_field_is_not_found(fields, "lines"@);
    }
}

// ─── The text of a reply ───

/// The line begins with three backticks.
pub open spec fn begins_fence(line: Seq<char>) -> bool {
    line.len() >= 3 && line[0] == '`' && line[1] == '`' && line[2] == '`'
}

proof fn lemma_fence(line: Seq<char>)
    ensures
        reranker::is_fence(line) <==> begins_fence(line),
{
    reveal_strlit("```");
    if begins_fence(line) {
        assert("```"@ =~= line.subrange(0, 3));
    }
    if reranker::is_fence(line) {
        assert(line.subrange(0, 3)[0] == line[0]);
        assert(line.subrange(0, 3)[1] == line[1]);
        assert(line.subrange(0, 3)[2] == line[2]);
    }
}

/// Of a reply in code fences all lines are read that are not fences, in their
/// order; one without fences is read whole.
pub proof fn law_fences_are_taken_off(s: Seq<char>)
    ensures
        !begins_fence(s) ==> reranker::unfenced(s) == s,
        begins_fence(s) ==> reranker::unfenced(s) == crate::text::trimmed(
            crate::text::joined(
                crate::text::lines_of(s).filter(|line: Seq<char>| !begins_fence(line)),
                "\n"@,
            ),
            crate::text::TrimSet::Whitespace,
        ),
{
    lemma_fence(s);
    lemma_outside_fences(crate::text::lines_of(s));
}

proof fn lemma_outside_fences(all: Seq<Seq<char>>)
    ensures
        reranker::outside_fences(all) == all.filter(|line: Seq<char>| !begins_fence(line)),
    decreases all.len(),
{
    reveal(Seq::filter);
    if all.len() > 0 {
        lemma_outside_fences(all.drop_last());
        lemma_fence(all.last());
    } else {
        assert(reranker::outside_fences(all) =~= all.filter(
            |line: Seq<char>| !begins_fence(line),
        ));
    }
}

/// What is read as JSON: what the tags enclose, where they count; else the reply
/// without fences and the whitespace around it. In JSON mode neither tags nor
/// fences count.
pub proof fn law_payload_is_the_enclosed(response: Seq<char>, inner: Seq<char>)
    ensures
        reranker::json_text(response, Some(inner), false) == inner,
        reranker::json_text(response, Some(inner), true) == reranker::json_text(
            response,
            None,
            true,
        ),
        reranker::json_text(response, None, true) == crate::text::trimmed(
            response,
            crate::text::TrimSet::Whitespace,
        ),
        !begins_fence(
            crate::text::trimmed(response, crate::text::TrimSet::Whitespace),
        ) ==> reranker::json_text(response, None, false) == crate::text::trimmed(
            response,
            crate::text::TrimSet::Whitespace,
        ),
{
    law_fences_are_taken_off(crate::text::trimmed(response, crate::text::TrimSet::Whitespace));
}

// ─── The question ───

/// A content that is not too long is shown whole; of a longer one the first lines
/// and the last ones are shown, half of the limit each.
pub proof fn law_long_contents_keep_both_ends(content: Seq<char>, max_lines: nat)
    ensures
        ({
            let all = crate::text::lines_of(content);
            let half = (max_lines / 2) as int;
            let shown = prompt::truncated(content, max_lines);
            &&& all.len() <= max_lines ==> shown == content
            &&& all.len() > max_lines ==> {
                &&& crate::text::joined(all.take(half), "\n"@).is_prefix_of(shown)
                &&& crate::text::joined(all.skip(all.len() - half), "\n"@).is_suffix_of(shown)
                &&& crate::text::shows(
                    shown,
                    crate::text::decimal_of((all.len() - max_lines) as nat),
                )
                &&& shown.len() == crate::text::joined(all.take(half), "\n"@).len()
                    + crate::text::joined(all.skip(all.len() - half), "\n"@).len()
                    + crate::text::decimal_of((all.len() - max_lines) as nat).len() + 28
            }
        }),
{
    reveal_strlit("\n... (");
    reveal_strlit(" lines truncated) ...\n");
    assert("\n... ("@.len() == 6);
    assert(" lines truncated) ...\n"@.len() == 22);
    let all = crate::text::lines_of(content);
    let half = (max_lines / 2) as int;
    let shown = prompt::truncated(content, max_lines);
    if all.len() > max_lines {
        let head = crate::text::joined(all.take(half), "\n"@);
        let tail = crate::text::joined(all.skip(all.len() - half), "\n"@);
        let n = crate::text::decimal_of((all.len() - max_lines) as nat);
        assert(head =~= shown.subrange(0, head.len() as int));
        assert(tail =~= shown.subrange(shown.len() - tail.len(), shown.len() as int));
        let before = head + "\n... ("@;
        let after = " lines truncated) ...\n"@ + tail;
        assert(shown =~= before + n + after);
        crate::text::lemma_shows(before, n, after);
    }
}

/// The model is shown of a chunk its number, its score, how often it is called,
/// its place, its symbol and its content.
pub proof fn law_entries_show_the_chunk(
    i: nat,
    chunk: MergeView,
    score: Seq<char>,
    stats: Option<(u32, u32)>,
    numbered: Option<Seq<char>>,
)
    ensures
        ({
            let entry = prompt::entry_of(i, chunk, score, stats, numbered);
            let content = match numbered {
                Some(text) => text,
                None => chunk.content,
            };
            &&& ("["@ + crate::text::decimal_of(i) + "] score="@ + score).is_prefix_of(entry)
            &&& crate::text::shows(
                entry,
                " | "@ + chunk.file + ":"@ + crate::text::decimal_of(chunk.line_start as nat)
                    + "-"@ + crate::text::decimal_of(chunk.line_end as nat) + " ("@,
            )
            &&& crate::text::shows(entry, prompt::truncated(content, 100))
            &&& chunk.symbol matches Some(name) ==> crate::text::shows(entry, "("@ + name + ")"@)
            &&& chunk.symbol is None ==> crate::text::shows(entry, "("@ + "no symbol"@ + ")"@)
            &&& crate::text::shows(
                entry,
                ")\n<content chunk-index=\""@ + crate::text::decimal_of(i) + "\">\n"@,
            )
            &&& (prompt::truncated(content, 100) + "\n</content>"@).is_suffix_of(entry)
            &&& stats matches Some(s) ==> crate::text::shows(
                entry,
                " callers="@ + crate::text::decimal_of(s.0 as nat) + " files="@
                    + crate::text::decimal_of(s.1 as nat) + " | "@,
            )
            &&& "\n</content>"@.is_suffix_of(entry)
        }),
{
    reveal_strlit("[");
    reveal_strlit("] ");
    reveal_strlit("score=");
    reveal_strlit("] score=");
    reveal_strlit(" (");
    reveal_strlit("(");
    reveal_strlit(")");
    reveal_strlit(")\n<content chunk-index=\"");
    reveal_strlit(" | ");
    let entry = prompt::entry_of(i, chunk, score, stats, numbered);
    let content = match numbered {
        Some(text) => text,
        None => chunk.content,
    };
    let symbol = match chunk.symbol {
        Some(name) => name,
        None => "no symbol"@,
    };
    let shown = prompt::truncated(content, 100);
    let n = crate::text::decimal_of(i);
    let first = "["@ + n + "] score="@ + score;
    let calls = match stats {
        Some(s) => " callers="@ + crate::text::decimal_of(s.0 as nat) + " files="@
            + crate::text::decimal_of(s.1 as nat),
        None => Seq::empty(),
    };
    let place = " | "@ + chunk.file + ":"@ + crate::text::decimal_of(chunk.line_start as nat)
        + "-"@ + crate::text::decimal_of(chunk.line_end as nat) + " ("@;
    let mid = ")\n<content chunk-index=\""@ + n + "\">\n"@;
    let last = "\n</content>"@;
    let meta = prompt::metadata(score, stats);
    assert(meta == "score="@ + score + calls) by {
        if let Some(s) = stats {
            lemma_two(
                "score="@ + score,
                " callers="@ + crate::text::decimal_of(s.0 as nat),
                " files="@ + crate::text::decimal_of(s.1 as nat),
            );
            lemma_two(
                "score="@ + score,
                " callers="@,
                crate::text::decimal_of(s.0 as nat),
            );
            lemma_two(
                "score="@ + score + (" callers="@ + crate::text::decimal_of(s.0 as nat)),
                " files="@,
                crate::text::decimal_of(s.1 as nat),
            );
            lemma_two(
                " callers="@ + crate::text::decimal_of(s.0 as nat),
                " files="@,
                crate::text::decimal_of(s.1 as nat),
            );
        } else {
            assert(meta =~= "score="@ + score + calls);
        }
    }
    let head = "["@ + n + "] "@ + meta;
    assert("] score="@ =~= "] "@ + "score="@);
    assert(head == first + calls) by {
        lemma_two("["@ + n + "] "@, "score="@ + score, calls);
        lemma_two("["@ + n + "] "@, "score="@, score);
        lemma_two("["@ + n, "] "@, "score="@);
    }
    let (from, to) = (
        crate::text::decimal_of(chunk.line_start as nat),
        crate::text::decimal_of(chunk.line_end as nat),
    );
    lemma_put_on(head, " | "@, chunk.file, ":"@, from, "-"@, to, " ("@);
    let whole = head + place + symbol;
    lemma_put_on(
        whole,
        ")\n<content chunk-index=\""@,
        n,
        "\">\n"@,
        Seq::empty(),
        Seq::empty(),
        Seq::empty(),
        Seq::empty(),
    );
    let none = Seq::<char>::empty();
    assert(mid + none + none + none + none =~= mid);
    let all = whole + ")\n<content chunk-index=\""@ + n + "\">\n"@;
    assert(all + none + none + none + none =~= all);
    lemma_seven(first, calls, place, symbol, mid, shown, last);
}

proof fn lemma_two(x: Seq<char>, a: Seq<char>, b: Seq<char>)
    ensures
        x + a + b == x + (a + b),
{
    assert(x + a + b =~= x + (a + b));
}

proof fn lemma_put_on(
    x: Seq<char>,
    a: Seq<char>,
    b: Seq<char>,
    c: Seq<char>,
    d: Seq<char>,
    e: Seq<char>,
    f: Seq<char>,
    g: Seq<char>,
)
    ensures
        x + a + b + c + d + e + f + g == x + (a + b + c + d + e + f + g),
{
    lemma_two(x, a, b);
    lemma_two(x, a + b, c);
    lemma_two(x, a + b + c, d);
    lemma_two(x, a + b + c + d, e);
    lemma_two(x, a + b + c + d + e, f);
    lemma_two(x, a + b + c + d + e + f, g);
}

proof fn lemma_seven(
    first: Seq<char>,
    calls: Seq<char>,
    place: Seq<char>,
    symbol: Seq<char>,
    mid: Seq<char>,
    shown: Seq<char>,
    last: Seq<char>,
)
    requires
        place.len() > 0,
        place.last() == '(',
        place.len() >= 3,
        place[0] == ' ',
        place[1] == '|',
        place[2] == ' ',
        mid.len() > 0,
        mid[0] == ')',
    ensures
        ({
            let entry = first + calls + place + symbol + mid + shown + last;
            &&& first.is_prefix_of(entry)
            &&& crate::text::shows(entry, place)
            &&& crate::text::shows(entry, shown)
            &&& crate::text::shows(entry, "("@ + symbol + ")"@)
            &&& crate::text::shows(entry, calls + " | "@)
            &&& crate::text::shows(entry, mid)
            &&& (shown + last).is_suffix_of(entry)
            &&& last.is_suffix_of(entry)
        }),
{
    let entry = first + calls + place + symbol + mid + shown + last;
    lemma_four_on(first, calls, place, symbol, mid, shown, last);
    lemma_whole(first, calls + place + symbol + mid + shown + last, entry);
    assert(last =~= entry.subrange(entry.len() - last.len(), entry.len() as int));
    crate::text::lemma_shows(first + calls, place, symbol + mid + shown + last);
    crate::text::lemma_shows(first + calls + place + symbol + mid, shown, last);
    assert(crate::text::shows(entry, mid)) by {
        lemma_two(first + calls + place + symbol + mid, shown, last);
        crate::text::lemma_shows(first + calls + place + symbol, mid, shown + last);
    }
    assert((shown + last).is_suffix_of(entry)) by {
        lemma_two(first + calls + place + symbol + mid, shown, last);
        let tail = shown + last;
        assert(tail =~= entry.subrange(entry.len() - tail.len(), entry.len() as int));
    }
    assert(crate::text::shows(entry, "("@ + symbol + ")"@)) by {
        lemma_brackets(first + calls, place, symbol, mid, shown + last);
        lemma_two(first + calls + place + symbol + mid, shown, last);
    }
    assert(crate::text::shows(entry, calls + " | "@)) by {
        lemma_bar(first, calls, place, symbol + mid + shown + last);
        lemma_two(first + calls + place, symbol + mid + shown, last);
    }
}

proof fn lemma_whole(first: Seq<char>, rest: Seq<char>, all: Seq<char>)
    requires
        all == first + rest,
    ensures
        first.is_prefix_of(all),
{
    assert(first =~= all.subrange(0, first.len() as int));
}

proof fn lemma_four_on(
    first: Seq<char>,
    calls: Seq<char>,
    place: Seq<char>,
    symbol: Seq<char>,
    mid: Seq<char>,
    shown: Seq<char>,
    last: Seq<char>,
)
    ensures
        first + calls + place + symbol + mid + shown + last == first + (calls + place + symbol
            + mid + shown + last),
        first + calls + place + symbol + mid + shown + last == (first + calls) + place + (symbol
            + mid + shown + last),
{
    lemma_two(first, calls, place);
    lemma_two(first, calls + place, symbol);
    lemma_two(first, calls + place + symbol, mid);
    lemma_two(first, calls + place + symbol + mid, shown);
    lemma_two(first, calls + place + symbol + mid + shown, last);
    lemma_two(first + calls + place, symbol, mid);
    lemma_two(first + calls + place, symbol + mid, shown);
    lemma_two(first + calls + place, symbol + mid + shown, last);
}

/// The brackets around the symbol are those of its neighbours.
proof fn lemma_brackets(
    head: Seq<char>,
    place: Seq<char>,
    symbol: Seq<char>,
    mid: Seq<char>,
    tail: Seq<char>,
)
    requires
        place.len() > 0,
        place.last() == '(',
        mid.len() > 0,
        mid[0] == ')',
    ensures
        crate::text::shows(head + place + symbol + mid + tail, "("@ + symbol + ")"@),
{
    reveal_strlit("(");
    reveal_strlit(")");
    let named = "("@ + symbol + ")"@;
    let all = head + place + symbol + mid + tail;
    let a = (head.len() + place.len() - 1) as int;
    assert(all.subrange(a, a + named.len()) =~= named);
}

/// The bar behind the counts is that of the place.
proof fn lemma_bar(first: Seq<char>, calls: Seq<char>, place: Seq<char>, tail: Seq<char>)
    requires
        place.len() >= 3,
        place[0] == ' ',
        place[1] == '|',
        place[2] == ' ',
    ensures
        crate::text::shows(first + calls + place + tail, calls + " | "@),
{
    reveal_strlit(" | ");
    let told = calls + " | "@;
    let all = first + calls + place + tail;
    let a = first.len() as int;
    assert(all.subrange(a, a + told.len()) =~= told);
}

/// The question holds the query and an entry for every chunk, under its number.
pub proof fn law_question_shows_every_chunk(
    query: Seq<char>,
    chunks: Seq<MergeView>,
    shown: prompt::Shown,
    structured: bool,
    i: int,
)
    requires
        0 <= i < chunks.len(),
    ensures
        ({
            let user = prompt::user_prompt_of(
                query,
                prompt::entries_of(chunks, shown, chunks.len()),
                structured,
            );
            let stats = if i < shown.caller_stats@.len() {
                shown.caller_stats@[i]
            } else {
                None
            };
            let numbered = if i < shown.numbered@.len() {
                crate::text::opt_text(shown.numbered@[i])
            } else {
                None
            };
            &&& ("Query: "@ + query + "\n"@).is_prefix_of(user)
            &&& crate::text::shows(
                user,
                prompt::entry_of(i as nat, chunks[i], shown.scores@[i]@, stats, numbered),
            )
        }),
{
    reveal_strlit("\n");
    reveal_strlit("\n\nChunks:\n");
    let entries = prompt::entries_of(chunks, shown, chunks.len());
    let user = prompt::user_prompt_of(query, entries, structured);
    let first = "Query: "@ + query + "\n"@;
    assert(first =~= user.subrange(0, first.len() as int));
    let task = if structured {
        prompt::JSON_TASK@
    } else {
        prompt::XML_TASK@
    };
    let all = crate::text::joined(entries, "\n---\n"@);
    let before = "Query: "@ + query + "\n\nChunks:\n"@;
    let after = "\n\n"@ + task;
    assert(user =~= before + all + after);
    crate::text::lemma_shows(before, all, after);
    crate::text::lemma_joined_shows(entries, "\n---\n"@, i);
    crate::text::lemma_shows_trans(user, all, entries[i]);
}

/// What was asked is recorded in full: the instructions, then the question.
pub proof fn law_requests_are_recorded(system: Seq<char>, user: Seq<char>)
    ensures
        ({
            let raw = prompt::raw_request_of(system, user);
            &&& crate::text::shows(raw, system)
            &&& user.is_suffix_of(raw)
            &&& raw.len() >= system.len() + user.len()
        }),
{
    let raw = prompt::raw_request_of(system, user);
    let after = "\n\n[User]\n"@ + user;
    assert(raw =~= "[System]\n"@ + system + after);
    crate::text::lemma_shows("[System]\n"@, system, after);
    assert(user =~= raw.subrange(raw.len() - user.len(), raw.len() as int));
}

/// The question ends with what the model has to do, and its instructions say in
/// which form: each form has its own.
pub proof fn law_questions_name_the_form(query: Seq<char>, entries: Seq<Seq<char>>)
    ensures
        prompt::JSON_TASK@.is_suffix_of(prompt::user_prompt_of(query, entries, true)),
        prompt::XML_TASK@.is_suffix_of(prompt::user_prompt_of(query, entries, false)),
        crate::text::shows(prompt::system_prompt_of(true), prompt::JSON_RULES@),
        crate::text::shows(prompt::system_prompt_of(false), prompt::XML_RULES@),
        crate::text::shows(prompt::system_prompt_of(true), prompt::ELEMENT_SPEC@),
        crate::text::shows(prompt::system_prompt_of(false), prompt::ELEMENT_SPEC@),
        prompt::COMMON_INTRO@.is_prefix_of(prompt::system_prompt_of(true)),
        prompt::COMMON_INTRO@.is_prefix_of(prompt::system_prompt_of(false)),
{
    let a = prompt::user_prompt_of(query, entries, true);
    let b = prompt::user_prompt_of(query, entries, false);
    let (x, y) = (prompt::JSON_TASK@, prompt::XML_TASK@);
    assert(x =~= a.subrange(a.len() - x.len(), a.len() as int));
    assert(y =~= b.subrange(b.len() - y.len(), b.len() as int));
    lemma_four(
        prompt::COMMON_INTRO@,
        prompt::JSON_RULES@,
        prompt::ELEMENT_SPEC@,
        prompt::JSON_END@,
    );
    lemma_four(prompt::COMMON_INTRO@, prompt::XML_RULES@, prompt::ELEMENT_SPEC@, prompt::XML_END@);
}

proof fn lemma_four(a: Seq<char>, b: Seq<char>, c: Seq<char>, d: Seq<char>)
    ensures
        a.is_prefix_of(a + b + c + d),
        crate::text::shows(a + b + c + d, b),
        crate::text::shows(a + b + c + d, c),
{
    let all = a + b + c + d;
    assert(a =~= all.subrange(0, a.len() as int));
    assert(all =~= a + b + (c + d));
    crate::text::lemma_shows(a, b, c + d);
    crate::text::lemma_shows(a + b, c, d);
}

/// Where no model is asked, or asking fails, every chunk stays, whole and in its
/// place; a failure is marked and told in full, and the request is recorded.
pub proof fn law_without_a_reply_the_order_stays(
    n: nat,
    raw_request: Seq<char>,
    error: Seq<char>,
    elapsed_ms: u64,
)
    requires
        n <= usize::MAX,
    ensures
        ({
            let none = prompt::no_client_outcome(n);
            let failed = prompt::failed_outcome(n, raw_request, error, elapsed_ms);
            &&& none.reranked_indices.len() == n
            &&& none.line_selections.len() == n
            &&& failed.reranked_indices.len() == n
            &&& failed.line_selections.len() == n
            &&& forall|i: int|
                0 <= i < n ==> #[trigger] none.reranked_indices[i] == i
            &&& forall|i: int|
                0 <= i < n ==> #[trigger] failed.reranked_indices[i] == i
            &&& forall|i: int| 0 <= i < n ==> (#[trigger] none.line_selections[i]) is None
            &&& forall|i: int| 0 <= i < n ==> (#[trigger] failed.line_selections[i]) is None
            &&& !none.fallback_used
            &&& none.skip_reason is Some
            &&& failed.fallback_used
            &&& failed.skip_reason matches Some(why) && error.is_suffix_of(why)
            &&& failed.raw_request == raw_request
            &&& failed.elapsed_ms == elapsed_ms
        }),
{
    let why = "LLM request failed: "@ + error;
    assert(error =~= why.subrange(why.len() - error.len(), why.len() as int));
}

/// A reply changes nothing of the record of what was asked.
pub proof fn law_replies_keep_the_request(
    raw_request: Seq<char>,
    response: Seq<char>,
    value: Option<JsonView>,
    chunks: Seq<MergeView>,
    min_prune_lines: u32,
    elapsed_ms: u64,
    structured: bool,
)
    ensures
        ({
            let out = prompt::replied_outcome(
                raw_request,
                response,
                value,
                chunks,
                min_prune_lines,
                elapsed_ms,
                structured,
            );
            let read = reranker::outcome_of(
                response,
                value,
                chunks,
                min_prune_lines,
                elapsed_ms,
                structured,
            );
            &&& out.raw_request == raw_request
            &&& out.raw_response == response
            &&& out.reranked_indices == read.reranked_indices
            &&& out.line_selections == read.line_selections
            &&& out.fallback_used == read.fallback_used
            &&& out.skip_reason == read.skip_reason
            &&& out.elapsed_ms == elapsed_ms
        }),
{
}

/// A reply that can be used is ranked by its own entries, all of them: in XML mode
/// those of the array, in JSON mode those of the array under `ranked_indices`.
pub proof fn law_usable_replies_are_ranked(
    response: Seq<char>,
    items: Seq<JsonView>,
    fields: Seq<(Seq<char>, JsonView)>,
    k: int,
    chunks: Seq<MergeView>,
    min_prune_lines: u32,
    elapsed_ms: u64,
)
    requires
        0 <= k < fields.len(),
        first_with(fields, k, "ranked_indices"@),
        fields[k].1 == JsonView::Array(items),
    ensures
        ({
            let ranking = reranker::ranking_of(items, chunks, min_prune_lines);
            let a = reranker::outcome_of(
                response,
                Some(JsonView::Array(items)),
                chunks,
                min_prune_lines,
                elapsed_ms,
                false,
            );
            let b = reranker::outcome_of(
                response,
                Some(JsonView::Object(fields)),
                chunks,
                min_prune_lines,
                elapsed_ms,
                true,
            );
            &&& a.reranked_indices == ranking.indices
            &&& a.line_selections == ranking.selections
            &&& a.skip_reason is None
            &&& b == a
        }),
{
    law_field_is_found(fields, "ranked_indices"@, k);
}

/// The entries stand in the question in their order, with a rule between each two.
pub proof fn law_entries_stand_in_order(
    query: Seq<char>,
    a: Seq<Seq<char>>,
    b: Seq<Seq<char>>,
    structured: bool,
)
    requires
        a.len() > 0,
        b.len() > 0,
    ensures
        crate::text::shows(
            prompt::user_prompt_of(query, a + b, structured),
            "\n\nChunks:\n"@ + (crate::text::joined(a, "\n---\n"@) + "\n---\n"@
                + crate::text::joined(b, "\n---\n"@)) + "\n\n"@,
        ),
{
    let user = prompt::user_prompt_of(query, a + b, structured);
    let all = crate::text::joined(a + b, "\n---\n"@);
    crate::text::law_joined_is_put_together(a, b, "\n---\n"@);
    let part = "\n\nChunks:\n"@ + all + "\n\n"@;
    let task = if structured {
        prompt::JSON_TASK@
    } else {
        prompt::XML_TASK@
    };
    let before = "Query: "@ + query;
    lemma_two(before, "\n\nChunks:\n"@, all);
    lemma_two(before, "\n\nChunks:\n"@ + all, "\n\n"@);
    crate::text::lemma_shows(before, part, task);
}

}
