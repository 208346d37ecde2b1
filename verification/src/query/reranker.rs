//! Reading the ranking that a language model returns.
use vstd::prelude::*;

use crate::query::json::{field, parse_json, Json};
use crate::query::merger::MergeChunk;
use crate::query::ranges::sanitize_ranges;
use crate::text::{chars_of, join, lines, trim, TrimSet};

verus! {

#[derive(Debug)]
pub struct RerankOutput {
    pub reranked_indices: Vec<usize>,
    /// Per-position line selections, aligned 1:1 with `reranked_indices`.
    /// `Some(ranges)` = LLM chose absolute line ranges to keep for that chunk
    /// (sorted, merged, clamped to chunk bounds); `None` = keep whole chunk.
    pub line_selections: Vec<Option<Vec<(u32, u32)>>>,
    pub raw_request: String,
    pub raw_response: String,
    pub elapsed_ms: u64,
    pub fallback_used: bool,
    pub skip_reason: Option<String>,
}

/// What a [`RerankOutput`] says.
#[verifier::ext_equal]
pub struct OutputView {
    pub reranked_indices: Seq<usize>,
    pub line_selections: Seq<Option<Seq<(u32, u32)>>>,
    pub raw_request: Seq<char>,
    pub raw_response: Seq<char>,
    pub elapsed_ms: u64,
    pub fallback_used: bool,
    pub skip_reason: Option<Seq<char>>,
}

pub open spec fn selection_views(v: Seq<Option<Vec<(u32, u32)>>>) -> Seq<
    Option<Seq<(u32, u32)>>,
> {
    Seq::new(v.len(), |i: int| crate::query::ranges::opt_ranges(v[i]))
}

impl View for RerankOutput {
    type V = OutputView;

    open spec fn view(&self) -> OutputView {
        OutputView {
            reranked_indices: self.reranked_indices@,
            line_selections: selection_views(self.line_selections@),
            raw_request: self.raw_request@,
            raw_response: self.raw_response@,
            elapsed_ms: self.elapsed_ms,
            fallback_used: self.fallback_used,
            skip_reason: crate::text::opt_text(self.skip_reason),
        }
    }
}

// ─── Outcomes without a ranking ───

/// The numbers below `n`, in order.
pub open spec fn first_numbers(n: nat) -> Seq<usize> {
    Seq::new(n, |i: int| i as usize)
}

/// Nothing selected for any of `n` chunks.
pub open spec fn no_selections(n: nat) -> Seq<Option<Seq<(u32, u32)>>> {
    Seq::new(n, |i: int| None)
}

/// All chunks whole and in the order in which they came.
pub open spec fn unranked(
    n: nat,
    response: Seq<char>,
    elapsed_ms: u64,
    fallback_used: bool,
    skip_reason: Option<Seq<char>>,
) -> OutputView {
    OutputView {
        reranked_indices: first_numbers(n),
        line_selections: no_selections(n),
        raw_request: Seq::empty(),
        raw_response: response,
        elapsed_ms,
        fallback_used,
        skip_reason,
    }
}

pub(crate) fn keep_order(
    n: usize,
    response: &str,
    elapsed_ms: u64,
    fallback_used: bool,
    skip_reason: Option<String>,
) -> (r: RerankOutput)
    ensures
        r@ == unranked(
            n as nat,
            response@,
            elapsed_ms,
            fallback_used,
            crate::text::opt_text(skip_reason),
        ),
{
    let mut indices: Vec<usize> = Vec::new();
    let mut selections: Vec<Option<Vec<(u32, u32)>>> = Vec::new();
    let mut i: usize = 0;
    while i < n
        invariant
            i <= n,
            indices@ == first_numbers(i as nat),
            selections@.len() == i,
            forall|k: int| 0 <= k < i ==> (#[trigger] selections@[k]) is None,
        decreases n - i,
    {
        indices.push(i);
        selections.push(None);
        assert(indices@ =~= first_numbers((i + 1) as nat));
        i = i + 1;
    }
    assert(selection_views(selections@) =~= no_selections(n as nat));
    let r = RerankOutput {
        reranked_indices: indices,
        line_selections: selections,
        raw_request: String::new(),
        raw_response: response.to_owned(),
        elapsed_ms,
        fallback_used,
        skip_reason,
    };
    assert(r@ =~= unranked(
        n as nat,
        response@,
        elapsed_ms,
        fallback_used,
        crate::text::opt_text(skip_reason),
    ));
    r
}

// ─── Entries of a ranking ───

/// The chunk that an entry names: a bare number, or the `chunk_index` of an
/// object, or its `i` where it has no `chunk_index`.
pub open spec fn entry_index(entry: crate::query::json::JsonView) -> Option<u64> {
    match entry {
        crate::query::json::JsonView::Unsigned(n) => Some(n),
        crate::query::json::JsonView::Object(fields) => {
            let by_name = crate::query::json::field_of(fields, "chunk_index"@);
            let value = if by_name is Some {
                by_name
            } else {
                crate::query::json::field_of(fields, "i"@)
            };
            match value {
                Some(crate::query::json::JsonView::Unsigned(n)) => Some(n),
                _ => None,
            }
        },
        _ => None,
    }
}

fn read_index(entry: &Json) -> (r: Option<u64>)
    ensures
        r == entry_index(entry.view()),
{
    proof {
        crate::query::json::lemma_view(*entry);
    }
    match entry {
        Json::Unsigned(n) => Some(*n),
        Json::Object(fields) => {
            let value = match field(fields, "chunk_index") {
                Some(value) => Some(value),
                None => field(fields, "i"),
            };
            match value {
                Some(Json::Unsigned(n)) => Some(*n),
                _ => None,
            }
        },
        _ => None,
    }
}

/// The ranges that an entry lists: the `lines` array of an object.
pub open spec fn entry_lines(entry: crate::query::json::JsonView) -> Option<
    Seq<crate::query::json::JsonView>,
> {
    match entry {
        crate::query::json::JsonView::Object(fields) => match crate::query::json::field_of(
            fields,
            "lines"@,
        ) {
            Some(crate::query::json::JsonView::Array(items)) => Some(items),
            _ => None,
        },
        _ => None,
    }
}

fn read_lines<'a>(entry: &'a Json) -> (r: Option<&'a Vec<Json>>)
    ensures
        match r {
            Some(items) => entry_lines(entry.view()) == Some(
                crate::query::json::json_views(items@),
            ),
            None => entry_lines(entry.view()) is None,
        },
{
    proof {
        crate::query::json::lemma_view(*entry);
    }
    if let Json::Object(fields) = entry {
        if let Some(value) = field(fields, "lines") {
            proof {
                crate::query::json::lemma_view(*value);
            }
            if let Json::Array(items) = value {
                return Some(items);
            }
        }
    }
    None
}

/// What an entry selects from a chunk. Nothing is selected where it lists no
/// ranges, where the chunk is too small to be narrowed, and where no range is
/// usable: then the whole chunk is kept.
pub open spec fn selection_of(
    entry: crate::query::json::JsonView,
    chunk: crate::query::merger::MergeView,
    min_prune_lines: u32,
) -> Option<Seq<(u32, u32)>> {
    match entry_lines(entry) {
        Some(items) => if items.len() == 0 || crate::query::merger::width_of(chunk)
            < min_prune_lines {
            None
        } else {
            crate::query::ranges::sanitized(items, chunk.line_start, chunk.line_end)
        },
        None => None,
    }
}

fn read_selection(entry: &Json, chunk: &MergeChunk, min_prune_lines: u32) -> (r: Option<
    Vec<(u32, u32)>,
>)
    ensures
        crate::query::ranges::opt_ranges(r) == selection_of(entry.view(), chunk@, min_prune_lines),
{
    match read_lines(entry) {
        Some(items) => {
            if items.len() == 0 || chunk.line_end.saturating_sub(chunk.line_start)
                < min_prune_lines {
                None
            } else {
                sanitize_ranges(items, chunk.line_start, chunk.line_end)
            }
        },
        None => None,
    }
}

/// Chunks in order of relevance, each with what is selected from it.
#[verifier::ext_equal]
pub struct Ranking {
    pub indices: Seq<usize>,
    pub selections: Seq<Option<Seq<(u32, u32)>>>,
}

/// The ranking that a list of entries gives. Entries that name no chunk, or none
/// of the candidates, are left out.
pub open spec fn ranking_of(
    entries: Seq<crate::query::json::JsonView>,
    chunks: Seq<crate::query::merger::MergeView>,
    min_prune_lines: u32,
) -> Ranking
    decreases entries.len(),
{
    if entries.len() == 0 {
        Ranking { indices: Seq::empty(), selections: Seq::empty() }
    } else {
        let before = ranking_of(entries.drop_last(), chunks, min_prune_lines);
        let entry = entries.last();
        match entry_index(entry) {
            Some(n) => if n < chunks.len() {
                Ranking {
                    indices: before.indices.push(n as usize),
                    selections: before.selections.push(
                        selection_of(entry, chunks[n as int], min_prune_lines),
                    ),
                }
            } else {
                before
            },
            None => before,
        }
    }
}

/// Reads a list of ranking entries.
pub fn rank_entries(
    entries: &Vec<Json>,
    chunks: &Vec<MergeChunk>,
    min_prune_lines: u32,
) -> (r: (Vec<usize>, Vec<Option<Vec<(u32, u32)>>>))
    ensures
        ({
            let ranking = ranking_of(
                crate::query::json::json_views(entries@),
                crate::query::merger::merge_views(chunks@),
                min_prune_lines,
            );
            &&& r.0@ == ranking.indices
            &&& selection_views(r.1@) == ranking.selections
        }),
{
    let ghost all = crate::query::json::json_views(entries@);
    let ghost views = crate::query::merger::merge_views(chunks@);
    let n: usize = chunks.len();
    let mut indices: Vec<usize> = Vec::new();
    let mut selections: Vec<Option<Vec<(u32, u32)>>> = Vec::new();
    let mut i: usize = 0;
    assert(all.take(0) =~= Seq::empty());
    assert(selection_views(selections@) =~= Seq::empty());
    while i < entries.len()
        invariant
            all == crate::query::json::json_views(entries@),
            views == crate::query::merger::merge_views(chunks@),
            n == chunks@.len(),
            i <= entries@.len(),
            indices@ == ranking_of(all.take(i as int), views, min_prune_lines).indices,
            selection_views(selections@) == ranking_of(
                all.take(i as int),
                views,
                min_prune_lines,
            ).selections,
        decreases entries@.len() - i,
    {
        assert(all.take(i + 1).drop_last() =~= all.take(i as int));
        assert(all.take(i + 1).last() == entries@[i as int].view());
        if let Some(index) = read_index(&entries[i]) {
            if index < n as u64 {
                let at: usize = index as usize;
                let ghost before = selection_views(selections@);
                let selection = read_selection(&entries[i], &chunks[at], min_prune_lines);
                let ghost added = crate::query::ranges::opt_ranges(selection);
                indices.push(at);
                selections.push(selection);
                assert(selection_views(selections@) =~= before.push(added));
            }
        }
        i = i + 1;
    }
    assert(all.take(i as int) =~= all);
    (indices, selections)
}

// ─── The payload of a response ───

/// The array of entries inside the reply, or why there is none.
pub enum Payload {
    Entries(Seq<crate::query::json::JsonView>),
    Missing(Seq<char>),
}

/// Where the entries of a reply are: in JSON mode under `ranked_indices` of the
/// object that the reply is, in XML mode the array between the tags.
pub open spec fn payload_in(
    json: Option<crate::query::json::JsonView>,
    structured: bool,
) -> Payload {
    if structured {
        match json {
            Some(crate::query::json::JsonView::Object(fields)) => match crate::query::json::field_of(
                fields,
                "ranked_indices"@,
            ) {
                Some(crate::query::json::JsonView::Array(items)) => Payload::Entries(items),
                _ => Payload::Missing("structured response missing ranked_indices"@),
            },
            _ => Payload::Missing("failed to parse structured response"@),
        }
    } else {
        match json {
            Some(crate::query::json::JsonView::Array(items)) => Payload::Entries(items),
            _ => Payload::Missing("failed to parse LLM response"@),
        }
    }
}

/// The outcome of a reply whose JSON has been read.
pub open spec fn outcome_of(
    response: Seq<char>,
    json: Option<crate::query::json::JsonView>,
    chunks: Seq<crate::query::merger::MergeView>,
    min_prune_lines: u32,
    elapsed_ms: u64,
    structured: bool,
) -> OutputView {
    match payload_in(json, structured) {
        Payload::Entries(entries) => {
            let ranking = ranking_of(entries, chunks, min_prune_lines);
            OutputView {
                reranked_indices: ranking.indices,
                line_selections: ranking.selections,
                raw_request: Seq::empty(),
                raw_response: response,
                elapsed_ms,
                fallback_used: false,
                skip_reason: None,
            }
        },
        Payload::Missing(reason) => unranked(
            chunks.len(),
            response,
            elapsed_ms,
            true,
            Some(reason),
        ),
    }
}

fn ranked(
    response: &str,
    entries: &Vec<Json>,
    chunks: &Vec<MergeChunk>,
    min_prune_lines: u32,
    elapsed_ms: u64,
) -> (r: RerankOutput)
    ensures
        ({
            let ranking = ranking_of(
                crate::query::json::json_views(entries@),
                crate::query::merger::merge_views(chunks@),
                min_prune_lines,
            );
            r@ == (OutputView {
                reranked_indices: ranking.indices,
                line_selections: ranking.selections,
                raw_request: Seq::empty(),
                raw_response: response@,
                elapsed_ms,
                fallback_used: false,
                skip_reason: None,
            })
        }),
{
    let (reranked_indices, line_selections) = rank_entries(entries, chunks, min_prune_lines);
    let r = RerankOutput {
        reranked_indices,
        line_selections,
        raw_request: String::new(),
        raw_response: response.to_owned(),
        elapsed_ms,
        fallback_used: false,
        skip_reason: None,
    };
    assert(r.raw_request@ =~= Seq::<char>::empty());
    r
}

/// Turns a reply whose JSON has been read (`None`: it could not be) into an
/// outcome. A missing, non-array or unparseable payload keeps the given order
/// and marks the fallback; an empty ranking is honoured.
pub fn interpret_reply(
    response: &str,
    json: &Option<Json>,
    chunks: &Vec<MergeChunk>,
    min_prune_lines: u32,
    elapsed_ms: u64,
    structured: bool,
) -> (r: RerankOutput)
    ensures
        r@ == outcome_of(
            response@,
            crate::query::json::opt_json(*json),
            crate::query::merger::merge_views(chunks@),
            min_prune_lines,
            elapsed_ms,
            structured,
        ),
{
    let n: usize = chunks.len();
    proof {
        if json is Some {
            crate::query::json::lemma_view(json->0);
        }
    }
    if structured {
        if let Some(Json::Object(fields)) = json {
            if let Some(value) = field(fields, "ranked_indices") {
                proof {
                    crate::query::json::lemma_view(*value);
                }
                if let Json::Array(entries) = value {
                    return ranked(response, entries, chunks, min_prune_lines, elapsed_ms);
                }
            }
            keep_order(
                n,
                response,
                elapsed_ms,
                true,
                Some("structured response missing ranked_indices".to_owned()),
            )
        } else {
            keep_order(
                n,
                response,
                elapsed_ms,
                true,
                Some("failed to parse structured response".to_owned()),
            )
        }
    } else {
        if let Some(Json::Array(entries)) = json {
            ranked(response, entries, chunks, min_prune_lines, elapsed_ms)
        } else {
            keep_order(
                n,
                response,
                elapsed_ms,
                true,
                Some("failed to parse LLM response".to_owned()),
            )
        }
    }
}

// ─── The text of a response ───

/// What encloses the ranking in XML mode.
pub const RANKING_PATTERN: &'static str =
    "(?s)<ranked_indices>\\s*(.*?)\\s*</ranked_indices>";

pub const OPENING_TAG: &'static str = "<ranked_indices>";

pub const CLOSING_TAG: &'static str = "</ranked_indices>";

/// The part stands in the text at the given position.
pub open spec fn stands_at(text: Seq<char>, part: Seq<char>, i: int) -> bool {
    0 <= i && i + part.len() <= text.len() && text.subrange(i, i + part.len()) == part
}

/// The first position, from the given one on, at which the part stands.
pub open spec fn first_from(text: Seq<char>, part: Seq<char>, from: int) -> Option<int>
    decreases text.len() + 1 - from,
{
    if from + part.len() > text.len() {
        None
    } else if stands_at(text, part, from) {
        Some(from)
    } else {
        first_from(text, part, from + 1)
    }
}

/// What stands between the first opening tag and the closing tag that comes next,
/// without the whitespace at its ends.
pub open spec fn enclosed_in(text: Seq<char>) -> Option<Seq<char>> {
    match first_from(text, OPENING_TAG@, 0) {
        None => None,
        Some(i) => match first_from(text, CLOSING_TAG@, i + OPENING_TAG@.len()) {
            None => None,
            Some(j) => Some(
                crate::text::trimmed(
                    text.subrange(i + OPENING_TAG@.len(), j),
                    TrimSet::Whitespace,
                ),
            ),
        },
    }
}

/// `Regex::captures` (regex), for the pattern of the ranking: what its group
/// captures in the leftmost match in the text. The match begins at the first
/// opening tag and, as the group is lazy, ends with the closing tag that comes
/// next; the whitespace on both sides of the group is matched outside of it.
/// Without such a pair of tags there is no match.
#[verifier::external_body]
fn capture(pattern: &str, text: &str) -> (r: Option<String>)
    requires
        pattern@ == RANKING_PATTERN@,
    ensures
        crate::text::opt_text(r) == enclosed_in(text@),
{
    let regex = regex::Regex::new(pattern).ok()?;
    let found = regex.captures(text)?.get(1)?;
    Some(found.as_str().to_string())
}

pub open spec fn is_fence(line: Seq<char>) -> bool {
    "```"@.is_prefix_of(line)
}

fn fence(line: &str) -> (r: bool)
    ensures
        r == is_fence(line@),
{
    proof {
        reveal_strlit("```");
    }
    let c = chars_of(line);
    if c.len() >= 3 && c[0] == '`' && c[1] == '`' && c[2] == '`' {
        assert("```"@ =~= line@.subrange(0, 3));
        true
    } else {
        assert(!is_fence(line@)) by {
            if is_fence(line@) {
                assert(line@.subrange(0, 3)[0] == line@[0]);
                assert(line@.subrange(0, 3)[1] == line@[1]);
                assert(line@.subrange(0, 3)[2] == line@[2]);
            }
        }
        false
    }
}

/// The lines that are not fences.
pub open spec fn outside_fences(all: Seq<Seq<char>>) -> Seq<Seq<char>>
    decreases all.len(),
{
    if all.len() == 0 {
        Seq::empty()
    } else if is_fence(all.last()) {
        outside_fences(all.drop_last())
    } else {
        outside_fences(all.drop_last()).push(all.last())
    }
}

/// A text without the fence lines of a code block, where it begins with one.
pub open spec fn unfenced(s: Seq<char>) -> Seq<char> {
    if is_fence(s) {
        crate::text::trimmed(
            crate::text::joined(outside_fences(crate::text::lines_of(s)), "\n"@),
            TrimSet::Whitespace,
        )
    } else {
        s
    }
}

fn strip_fences(s: &str) -> (r: String)
    ensures
        r@ == unfenced(s@),
{
    if !fence(s) {
        return s.to_owned();
    }
    let all = lines(s);
    let ghost views = crate::text::texts(all@);
    let mut kept: Vec<String> = Vec::new();
    let mut i: usize = 0;
    assert(views.take(0) =~= Seq::empty());
    assert(crate::text::texts(kept@) =~= Seq::empty());
    while i < all.len()
        invariant
            views == crate::text::texts(all@),
            i <= all@.len(),
            crate::text::texts(kept@) == outside_fences(views.take(i as int)),
        decreases all@.len() - i,
    {
        assert(views.take(i + 1).drop_last() =~= views.take(i as int));
        assert(views.take(i + 1).last() == all@[i as int]@);
        if !fence(all[i].as_str()) {
            let ghost before = crate::text::texts(kept@);
            kept.push(all[i].clone());
            assert(crate::text::texts(kept@) =~= before.push(all@[i as int]@));
        }
        i = i + 1;
    }
    assert(views.take(i as int) =~= views);
    trim(join(kept.as_slice(), "\n").as_str(), TrimSet::Whitespace)
}

/// The part of a reply that is read as JSON: in JSON mode all of it; in XML mode
/// what the tags enclose, or else the reply without code fences.
pub open spec fn json_text(
    response: Seq<char>,
    enclosed: Option<Seq<char>>,
    structured: bool,
) -> Seq<char> {
    if structured {
        crate::text::trimmed(response, TrimSet::Whitespace)
    } else {
        match enclosed {
            Some(inner) => inner,
            None => unfenced(crate::text::trimmed(response, TrimSet::Whitespace)),
        }
    }
}

/// The part of a reply that is read as JSON, given what its tags enclose.
pub fn payload_text(response: &str, enclosed: &Option<String>, structured: bool) -> (r: String)
    ensures
        r@ == json_text(response@, crate::text::opt_text(*enclosed), structured),
{
    let all = trim(response, TrimSet::Whitespace);
    if structured {
        all
    } else {
        match enclosed {
            Some(inner) => inner.clone(),
            None => strip_fences(all.as_str()),
        }
    }
}

/// Reads the ranking out of the model's reply.
pub fn parse_rerank_response(
    response: &str,
    chunks: &Vec<MergeChunk>,
    min_prune_lines: u32,
    elapsed_ms: u64,
    structured: bool,
) -> (r: RerankOutput)
    ensures
        r@ == outcome_of(
            response@,
            crate::query::json::json_of(
                json_text(response@, enclosed_in(response@), structured),
            ),
            crate::query::merger::merge_views(chunks@),
            min_prune_lines,
            elapsed_ms,
            structured,
        ),
{
    let enclosed = if structured {
        None
    } else {
        capture(RANKING_PATTERN, response)
    };
    let text = payload_text(response, &enclosed, structured);
    let json = parse_json(text.as_str());
    interpret_reply(response, &json, chunks, min_prune_lines, elapsed_ms, structured)
}

// ─── The laws ───

proof fn lemma_first_from(text: Seq<char>, part: Seq<char>, from: int, at: int)
    requires
        0 <= from <= at,
        stands_at(text, part, at),
        forall|i: int| from <= i < at ==> !#[trigger] stands_at(text, part, i),
    ensures
        first_from(text, part, from) == Some(at),
    decreases at - from,
{
    if from < at {
        assert(!stands_at(text, part, from));
        lemma_first_from(text, part, from + 1, at);
    }
}

/// A ranking between tags is found whatever stands around it: what comes before
/// holds no opening tag, and the ranking no closing tag, nor do they begin one
/// that the tag after them would complete.
pub proof fn law_tags_enclose_the_ranking(
    before: Seq<char>,
    inner: Seq<char>,
    after: Seq<char>,
)
    requires
        forall|i: int|
            0 <= i < before.len() ==> !#[trigger] stands_at(before + OPENING_TAG@, OPENING_TAG@, i),
        forall|i: int|
            0 <= i < inner.len() ==> !#[trigger] stands_at(inner + CLOSING_TAG@, CLOSING_TAG@, i),
    ensures
        enclosed_in(before + OPENING_TAG@ + inner + CLOSING_TAG@ + after) == Some(
            crate::text::trimmed(inner, TrimSet::Whitespace),
        ),
{
    let text = before + OPENING_TAG@ + inner + CLOSING_TAG@ + after;
    let start = (before.len() + OPENING_TAG@.len()) as int;
    let end = start + inner.len();
    assert(text.subrange(before.len() as int, start) =~= OPENING_TAG@);
    assert forall|i: int| 0 <= i < before.len() implies !#[trigger] stands_at(
        text,
        OPENING_TAG@,
        i,
    ) by {
        assert(!stands_at(before + OPENING_TAG@, OPENING_TAG@, i));
        assert((before + OPENING_TAG@).subrange(i, i + OPENING_TAG@.len()) =~= text.subrange(
            i,
            i + OPENING_TAG@.len(),
        ));
    }
    lemma_first_from(text, OPENING_TAG@, 0, before.len() as int);
    assert(text.subrange(end, end + CLOSING_TAG@.len()) =~= CLOSING_TAG@);
    assert forall|i: int| start <= i < end implies !#[trigger] stands_at(text, CLOSING_TAG@, i) by {
        assert(!stands_at(inner + CLOSING_TAG@, CLOSING_TAG@, i - start));
        assert((inner + CLOSING_TAG@).subrange(i - start, i - start + CLOSING_TAG@.len())
            =~= text.subrange(i, i + CLOSING_TAG@.len()));
    }
    lemma_first_from(text, CLOSING_TAG@, start, end);
    assert(text.subrange(start, end) =~= inner);
}

/// Every position of a ranking names a candidate, and selections stand 1:1
/// beside the positions.
pub proof fn law_ranking_is_aligned(
    entries: Seq<crate::query::json::JsonView>,
    chunks: Seq<crate::query::merger::MergeView>,
    min_prune_lines: u32,
)
    requires
        chunks.len() <= usize::MAX,
    ensures
        ({
            let ranking = ranking_of(entries, chunks, min_prune_lines);
            &&& ranking.indices.len() == ranking.selections.len()
            &&& ranking.indices.len() <= entries.len()
            &&& forall|i: int|
                0 <= i < ranking.indices.len() ==> (#[trigger] ranking.indices[i]) < chunks.len()
        }),
    decreases entries.len(),
{
    if entries.len() > 0 {
        law_ranking_is_aligned(entries.drop_last(), chunks, min_prune_lines);
    }
}

/// What is selected from a chunk lies inside it, in order and without touching
/// ranges; small chunks are never narrowed.
pub proof fn law_ranking_selections_are_normal(
    entries: Seq<crate::query::json::JsonView>,
    chunks: Seq<crate::query::merger::MergeView>,
    min_prune_lines: u32,
    i: int,
)
    requires
        chunks.len() <= usize::MAX,
        0 <= i < ranking_of(entries, chunks, min_prune_lines).indices.len(),
    ensures
        ({
            let ranking = ranking_of(entries, chunks, min_prune_lines);
            let chunk = chunks[ranking.indices[i] as int];
            ranking.selections[i] matches Some(r) ==> {
                &&& r.len() > 0
                &&& crate::query::ranges::separated(r)
                &&& crate::query::ranges::all_in(r, chunk.line_start, chunk.line_end)
                &&& crate::query::merger::width_of(chunk) >= min_prune_lines
            }
        }),
    decreases entries.len(),
{
    law_ranking_is_aligned(entries, chunks, min_prune_lines);
    law_ranking_is_aligned(entries.drop_last(), chunks, min_prune_lines);
    let before = ranking_of(entries.drop_last(), chunks, min_prune_lines);
    if i < before.indices.len() {
        law_ranking_selections_are_normal(entries.drop_last(), chunks, min_prune_lines, i);
    } else {
        let entry = entries.last();
        let chunk = chunks[entry_index(entry)->0 as int];
        if entry_lines(entry) is Some {
            crate::query::ranges::law_selection_is_normal(
                entry_lines(entry)->0,
                chunk.line_start,
                chunk.line_end,
            );
        }
    }
}

/// Whatever the reply was, each position has one selection; and where the reply
/// could not be used, all chunks stay, whole and in their order.
pub proof fn law_outcome_is_aligned(
    response: Seq<char>,
    json: Option<crate::query::json::JsonView>,
    chunks: Seq<crate::query::merger::MergeView>,
    min_prune_lines: u32,
    elapsed_ms: u64,
    structured: bool,
)
    requires
        chunks.len() <= usize::MAX,
    ensures
        ({
            let out = outcome_of(
                response,
                json,
                chunks,
                min_prune_lines,
                elapsed_ms,
                structured,
            );
            &&& out.reranked_indices.len() == out.line_selections.len()
            &&& forall|i: int|
                0 <= i < out.reranked_indices.len() ==> (#[trigger] out.reranked_indices[i])
                    < chunks.len()
            &&& out.fallback_used <==> payload_in(json, structured) is Missing
            &&& out.fallback_used ==> out.reranked_indices == first_numbers(chunks.len())
                && out.line_selections == no_selections(chunks.len())
        }),
{
    if let Payload::Entries(entries) = payload_in(json, structured) {
        law_ranking_is_aligned(entries, chunks, min_prune_lines);
    }
}

}
