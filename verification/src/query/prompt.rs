//! The question that a language model is asked about search hits.
use vstd::prelude::*;

use crate::query::merger::MergeChunk;
use crate::query::reranker::{keep_order, parse_rerank_response, RerankOutput};
use crate::text::{decimal, join, lines};

verus! {

/// How many lines of a chunk the model is shown at most.
pub const MAX_SHOWN_LINES: usize = 100;

pub const COMMON_INTRO: &'static str = "You are a code search relevance ranker. \
        Given a query and numbered code chunks with metadata (relevance score, callers count, \
        callees count, flow membership), your job is to rank the chunks by relevance to the query. \
        OMIT chunks that are not relevant to the query. \
        Higher score, more callers, and flow membership indicate higher structural importance. \
        When both source code and documentation chunks are relevant to the query, \
        prefer source code over documentation because code is the source of truth. \
        Documentation can be outdated or inaccurate, but the code always reflects actual behavior. \
        Each code line is prefixed with its absolute line number (\"123: code\"). ";

pub const ELEMENT_SPEC: &'static str = "Each element MUST be an object identified by `chunk_index` (the chunk index), in ONE of two forms: \
        to narrow a large chunk to the relevant parts, use \
        {\"chunk_index\": <index>, \"lines\": [[start, end], ...]} where `lines` are absolute line-number \
        ranges to keep from that chunk; \
        to keep an entire chunk (small chunks, or chunks that are wholly relevant), use \
        {\"chunk_index\": <index>, \"keep\": \"full\"}. \
        Only include chunks that are actually relevant to the query.";

pub const JSON_RULES: &'static str = "Respond with a single JSON object with exactly one key, `ranked_indices`, whose value \
            is a JSON array of objects ordered from most relevant to least relevant. ";

pub const JSON_END: &'static str = " Output only the JSON object — no prose, no code fences.";

pub const XML_RULES: &'static str = "Your output MUST contain a pair of XML tags called ranked_indices. \
            Between the opening <ranked_indices> tag and the closing </ranked_indices> tag, \
            place a JSON array of objects, ordered from most relevant to least relevant. ";

pub const XML_END: &'static str = " Do not include any other text between the tags, only the JSON array.";

pub const JSON_TASK: &'static str = "Now rank the chunks by relevance. Respond with a JSON object \
             {\"ranked_indices\": [ ... ]} whose array holds objects — \
             {\"chunk_index\":index,\"lines\":[[start,end]]} to narrow, or {\"chunk_index\":index,\"keep\":\"full\"} \
             to keep the whole chunk — from most to least relevant.";

pub const XML_TASK: &'static str = "Now rank the chunks by relevance. \
             Write the opening tag <ranked_indices>, then a JSON array of objects — \
             {\"chunk_index\":index,\"lines\":[[start,end]]} to narrow, or {\"chunk_index\":index,\"keep\":\"full\"} \
             to keep the whole chunk — from most to least relevant, then the closing tag \
             </ranked_indices>.";

// ─── Long chunks ───

/// A text of at most the given number of lines as it is; of a longer one the
/// first and last lines, half each, with the number of lines left out between.
pub open spec fn truncated(content: Seq<char>, max_lines: nat) -> Seq<char> {
    let all = crate::text::lines_of(content);
    if all.len() <= max_lines {
        content
    } else {
        let half = (max_lines / 2) as int;
        crate::text::joined(all.take(half), "\n"@) + "\n... ("@ + crate::text::decimal_of(
            (all.len() - max_lines) as nat,
        ) + " lines truncated) ...\n"@ + crate::text::joined(all.skip(all.len() - half), "\n"@)
    }
}

fn join_lines(all: &Vec<String>, from: usize, to: usize) -> (r: String)
    requires
        from <= to <= all@.len(),
    ensures
        r@ == crate::text::joined(
            crate::text::texts(all@).subrange(from as int, to as int),
            "\n"@,
        ),
{
    let ghost views = crate::text::texts(all@);
    let mut part: Vec<String> = Vec::new();
    let mut i: usize = from;
    assert(crate::text::texts(part@) =~= views.subrange(from as int, from as int));
    while i < to
        invariant
            views == crate::text::texts(all@),
            from <= i <= to <= all@.len(),
            crate::text::texts(part@) == views.subrange(from as int, i as int),
        decreases to - i,
    {
        let ghost before = crate::text::texts(part@);
        part.push(all[i].clone());
        assert(crate::text::texts(part@) =~= before.push(all@[i as int]@));
        assert(views.subrange(from as int, i + 1) =~= views.subrange(from as int, i as int).push(
            all@[i as int]@,
        ));
        i = i + 1;
    }
    join(part.as_slice(), "\n")
}

pub fn truncate_content(content: &str, max_lines: usize) -> (r: String)
    ensures
        r@ == truncated(content@, max_lines as nat),
{
    let all = lines(content);
    let ghost views = crate::text::texts(all@);
    let n: usize = all.len();
    if n <= max_lines {
        return content.to_owned();
    }
    let half: usize = max_lines / 2;
    let mut result = join_lines(&all, 0, half);
    assert(views.subrange(0, half as int) =~= views.take(half as int));
    result.append("\n... (");
    result.append(decimal((n - max_lines) as u64).as_str());
    result.append(" lines truncated) ...\n");
    assert(views.subrange(n - half, n as int) =~= views.skip(n - half));
    result.append(join_lines(&all, n - half, n).as_str());
    result
}

// ─── One chunk ───

/// Score and, where they are known, callers of a chunk.
pub open spec fn metadata(score: Seq<char>, stats: Option<(u32, u32)>) -> Seq<char> {
    match stats {
        Some((callers, files)) => "score="@ + score + " callers="@ + crate::text::decimal_of(
            callers as nat,
        ) + " files="@ + crate::text::decimal_of(files as nat),
        None => "score="@ + score,
    }
}

fn metadata_text(score: &str, stats: Option<(u32, u32)>) -> (r: String)
    ensures
        r@ == metadata(score@, stats),
{
    let mut out = "score=".to_owned();
    out.append(score);
    if let Some((callers, files)) = stats {
        out.append(" callers=");
        out.append(decimal(callers as u64).as_str());
        out.append(" files=");
        out.append(decimal(files as u64).as_str());
    }
    out
}

/// What the model is shown of one chunk: its number, metadata, place, symbol
/// and content.
pub open spec fn entry_of(
    i: nat,
    chunk: crate::query::merger::MergeView,
    score: Seq<char>,
    stats: Option<(u32, u32)>,
    numbered: Option<Seq<char>>,
) -> Seq<char> {
    let symbol = match chunk.symbol {
        Some(name) => name,
        None => "no symbol"@,
    };
    let content = match numbered {
        Some(text) => text,
        None => chunk.content,
    };
    "["@ + crate::text::decimal_of(i) + "] "@ + metadata(score, stats) + " | "@ + chunk.file + ":"@
        + crate::text::decimal_of(chunk.line_start as nat) + "-"@ + crate::text::decimal_of(
        chunk.line_end as nat,
    ) + " ("@ + symbol + ")\n<content chunk-index=\""@ + crate::text::decimal_of(i) + "\">\n"@
        + truncated(content, MAX_SHOWN_LINES as nat) + "\n</content>"@
}

fn entry_text(
    i: usize,
    chunk: &MergeChunk,
    score: &str,
    stats: Option<(u32, u32)>,
    numbered: &Option<String>,
) -> (r: String)
    ensures
        r@ == entry_of(i as nat, chunk@, score@, stats, crate::text::opt_text(*numbered)),
{
    let symbol = match &chunk.symbol {
        Some(name) => name.as_str(),
        None => "no symbol",
    };
    let raw = match numbered {
        Some(text) => text.as_str(),
        None => chunk.content.as_str(),
    };
    let mut out = "[".to_owned();
    out.append(decimal(i as u64).as_str());
    out.append("] ");
    out.append(metadata_text(score, stats).as_str());
    out.append(" | ");
    out.append(chunk.file.as_str());
    out.append(":");
    out.append(decimal(chunk.line_start as u64).as_str());
    out.append("-");
    out.append(decimal(chunk.line_end as u64).as_str());
    out.append(" (");
    out.append(symbol);
    out.append(")\n<content chunk-index=\"");
    out.append(decimal(i as u64).as_str());
    out.append("\">\n");
    out.append(truncate_content(raw, MAX_SHOWN_LINES).as_str());
    out.append("\n</content>");
    out
}

// ─── The whole question ───

/// What is known of a list of chunks beside themselves: their scores as text,
/// how often they are called, and their numbered lines as they are on disk.
pub struct Shown {
    pub scores: Vec<String>,
    pub caller_stats: Vec<Option<(u32, u32)>>,
    pub numbered: Vec<Option<String>>,
}

impl Shown {
    pub open spec fn stats_at(&self, i: int) -> Option<(u32, u32)> {
        if i < self.caller_stats@.len() {
            self.caller_stats@[i]
        } else {
            None
        }
    }

    pub open spec fn numbered_at(&self, i: int) -> Option<Seq<char>> {
        if i < self.numbered@.len() {
            crate::text::opt_text(self.numbered@[i])
        } else {
            None
        }
    }
}

/// The entries of the first chunks.
pub open spec fn entries_of(
    chunks: Seq<crate::query::merger::MergeView>,
    shown: Shown,
    n: nat,
) -> Seq<Seq<char>> {
    Seq::new(
        n,
        |i: int|
            entry_of(
                i as nat,
                chunks[i],
                shown.scores@[i]@,
                shown.stats_at(i),
                shown.numbered_at(i),
            ),
    )
}

fn entries(chunks: &Vec<MergeChunk>, shown: &Shown) -> (r: Vec<String>)
    requires
        shown.scores@.len() == chunks@.len(),
    ensures
        crate::text::texts(r@) == entries_of(
            crate::query::merger::merge_views(chunks@),
            *shown,
            chunks@.len(),
        ),
{
    let ghost views = crate::query::merger::merge_views(chunks@);
    let none: Option<String> = None;
    let mut out: Vec<String> = Vec::new();
    let mut i: usize = 0;
    while i < chunks.len()
        invariant
            views == crate::query::merger::merge_views(chunks@),
            shown.scores@.len() == chunks@.len(),
            none is None,
            i <= chunks@.len(),
            out@.len() == i,
            forall|k: int|
                0 <= k < i ==> (#[trigger] out@[k])@ == entry_of(
                    k as nat,
                    views[k],
                    shown.scores@[k]@,
                    shown.stats_at(k),
                    shown.numbered_at(k),
                ),
        decreases chunks@.len() - i,
    {
        let stats = if i < shown.caller_stats.len() {
            shown.caller_stats[i]
        } else {
            None
        };
        let numbered = if i < shown.numbered.len() {
            &shown.numbered[i]
        } else {
            &none
        };
        out.push(entry_text(i, &chunks[i], shown.scores[i].as_str(), stats, numbered));
        i = i + 1;
    }
    assert(crate::text::texts(out@) =~= entries_of(views, *shown, chunks@.len()));
    out
}

pub open spec fn system_prompt_of(structured: bool) -> Seq<char> {
    if structured {
        COMMON_INTRO@ + JSON_RULES@ + ELEMENT_SPEC@ + JSON_END@
    } else {
        COMMON_INTRO@ + XML_RULES@ + ELEMENT_SPEC@ + XML_END@
    }
}

/// The instructions for the model.
pub fn system_prompt(structured: bool) -> (r: String)
    ensures
        r@ == system_prompt_of(structured),
{
    let mut out = COMMON_INTRO.to_owned();
    if structured {
        out.append(JSON_RULES);
        out.append(ELEMENT_SPEC);
        out.append(JSON_END);
    } else {
        out.append(XML_RULES);
        out.append(ELEMENT_SPEC);
        out.append(XML_END);
    }
    out
}

pub open spec fn user_prompt_of(
    query: Seq<char>,
    entries: Seq<Seq<char>>,
    structured: bool,
) -> Seq<char> {
    "Query: "@ + query + "\n\nChunks:\n"@ + crate::text::joined(entries, "\n---\n"@) + "\n\n"@ + (
    if structured {
        JSON_TASK@
    } else {
        XML_TASK@
    })
}

/// What the model is asked and how both parts are recorded.
pub struct Question {
    pub system: String,
    pub user: String,
    pub raw_request: String,
}

pub open spec fn raw_request_of(system: Seq<char>, user: Seq<char>) -> Seq<char> {
    "[System]\n"@ + system + "\n\n[User]\n"@ + user
}

/// Puts the question about the chunks. Numbered lines stand for a chunk where
/// there are any, and its stored content otherwise.
pub fn build_question(
    query: &str,
    chunks: &Vec<MergeChunk>,
    shown: &Shown,
    structured: bool,
) -> (r: Question)
    requires
        shown.scores@.len() == chunks@.len(),
    ensures
        r.system@ == system_prompt_of(structured),
        r.user@ == user_prompt_of(
            query@,
            entries_of(crate::query::merger::merge_views(chunks@), *shown, chunks@.len()),
            structured,
        ),
        r.raw_request@ == raw_request_of(r.system@, r.user@),
{
    let system = system_prompt(structured);
    let all = entries(chunks, shown);
    let mut user = "Query: ".to_owned();
    user.append(query);
    user.append("\n\nChunks:\n");
    user.append(join(all.as_slice(), "\n---\n").as_str());
    user.append("\n\n");
    if structured {
        user.append(JSON_TASK);
    } else {
        user.append(XML_TASK);
    }
    let mut raw_request = "[System]\n".to_owned();
    raw_request.append(system.as_str());
    raw_request.append("\n\n[User]\n");
    raw_request.append(user.as_str());
    Question { system, user, raw_request }
}

// ─── Before and after the call ───

/// What to do about a list of chunks.
pub enum RerankPlan {
    /// No model is asked; this is the outcome.
    Done(RerankOutput),
    /// Ask this.
    Ask(Question),
}

pub open spec fn no_client_outcome(n: nat) -> crate::query::reranker::OutputView {
    crate::query::reranker::unranked(
        n,
        Seq::empty(),
        0,
        false,
        Some("no LLM API key configured"@),
    )
}

/// Decides whether the model is asked. `structured` says whether it answers in
/// JSON mode, and is none where there is no model.
pub fn plan_rerank(
    query: &str,
    chunks: &Vec<MergeChunk>,
    shown: &Shown,
    structured: Option<bool>,
) -> (r: RerankPlan)
    requires
        shown.scores@.len() == chunks@.len(),
    ensures
        match structured {
            None => r matches RerankPlan::Done(out) && out@ == no_client_outcome(chunks@.len()),
            Some(json_mode) => if chunks@.len() == 0 {
                r matches RerankPlan::Done(out) && out@ == crate::query::reranker::unranked(
                    0,
                    Seq::empty(),
                    0,
                    false,
                    None,
                )
            } else {
                r matches RerankPlan::Ask(q) && q.system@ == system_prompt_of(json_mode)
                    && q.user@ == user_prompt_of(
                    query@,
                    entries_of(crate::query::merger::merge_views(chunks@), *shown, chunks@.len()),
                    json_mode,
                ) && q.raw_request@ == raw_request_of(q.system@, q.user@)
            },
        },
{
    proof {
        reveal_strlit("");
        assert(""@ =~= Seq::<char>::empty());
    }
    let json_mode = match structured {
        Some(json_mode) => json_mode,
        None => {
            return RerankPlan::Done(
                keep_order(
                    chunks.len(),
                    "",
                    0,
                    false,
                    Some("no LLM API key configured".to_owned()),
                ),
            );
        },
    };
    if chunks.len() == 0 {
        return RerankPlan::Done(keep_order(0, "", 0, false, None));
    }
    RerankPlan::Ask(build_question(query, chunks, shown, json_mode))
}

/// What comes of a failed call: all chunks stay, whole and in their order.
pub open spec fn failed_outcome(
    n: nat,
    raw_request: Seq<char>,
    error: Seq<char>,
    elapsed_ms: u64,
) -> crate::query::reranker::OutputView {
    crate::query::reranker::OutputView {
        raw_request,
        ..crate::query::reranker::unranked(
            n,
            Seq::empty(),
            elapsed_ms,
            true,
            Some("LLM request failed: "@ + error),
        )
    }
}

/// What comes of a reply, given the JSON that was read from it.
pub open spec fn replied_outcome(
    raw_request: Seq<char>,
    response: Seq<char>,
    json: Option<crate::query::json::JsonView>,
    chunks: Seq<crate::query::merger::MergeView>,
    min_prune_lines: u32,
    elapsed_ms: u64,
    structured: bool,
) -> crate::query::reranker::OutputView {
    crate::query::reranker::OutputView {
        raw_request,
        ..crate::query::reranker::outcome_of(
            response,
            json,
            chunks,
            min_prune_lines,
            elapsed_ms,
            structured,
        )
    }
}

/// Turns the model's reply, or the error in its place, into the outcome.
pub fn finish_rerank(
    raw_request: String,
    reply: Result<String, String>,
    chunks: &Vec<MergeChunk>,
    min_prune_lines: u32,
    elapsed_ms: u64,
    structured: bool,
) -> (r: RerankOutput)
    ensures
        match reply {
            Ok(response) => r@ == replied_outcome(
                raw_request@,
                response@,
                crate::query::json::json_of(
                    crate::query::reranker::json_text(
                        response@,
                        crate::query::reranker::enclosed_in(response@),
                        structured,
                    ),
                ),
                crate::query::merger::merge_views(chunks@),
                min_prune_lines,
                elapsed_ms,
                structured,
            ),
            Err(error) => r@ == failed_outcome(
                chunks@.len(),
                raw_request@,
                error@,
                elapsed_ms,
            ),
        },
{
    match reply {
        Ok(response) => {
            let mut output = parse_rerank_response(
                response.as_str(),
                chunks,
                min_prune_lines,
                elapsed_ms,
                structured,
            );
            output.raw_request = raw_request;
            output
        },
        Err(error) => {
            proof {
                reveal_strlit("");
                assert(""@ =~= Seq::<char>::empty());
            }
            let mut reason = "LLM request failed: ".to_owned();
            reason.append(error.as_str());
            let mut output = keep_order(chunks.len(), "", elapsed_ms, true, Some(reason));
            output.raw_request = raw_request;
            output
        },
    }
}

}
