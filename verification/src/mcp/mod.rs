//! The decisions of the codebase-retrieval tool.
use vstd::prelude::*;

use crate::indexing::IndexState;
use crate::query::engine::CodeResult;
use crate::text::{decimal, same_text, trim, TrimSet};

pub mod answer_laws;
pub mod retrieval;

verus! {

#[derive(Debug)]
pub struct CodebaseRetrievalArgs {
    /// Natural-language description of the code or information you are looking for.
    pub information_request: String,
    /// Absolute path to the repository root. Must be a configured and indexed repository.
    pub workspace_full_path: String,
}

/// How many results the tool asks for.
pub const RESULT_LIMIT: usize = 30;

// ─── Requests ───

pub const MISSING_PATH: &'static str = "Error: workspace_full_path is required. Pass the full path to the workspace \
                (repository) root directory.";

pub const MISSING_KEYS: &'static str = "Error: no embedding API keys configured. \
                Add a Voyage AI key in the Context Engine UI first.";

pub open spec fn unknown_repo_message(repo: Seq<char>) -> Seq<char> {
    "Error: workspace '"@ + repo
        + "' is not a configured repository. Add it in the Context Engine UI and index it first."@
}

/// The repository that a request names, or what is wrong with the request: a
/// path is missing, the repository is not configured, or there are no embedding
/// keys, in this order.
pub open spec fn checked_request(
    path: Seq<char>,
    repos: Seq<Seq<char>>,
    has_keys: bool,
) -> Result<Seq<char>, Seq<char>> {
    let repo = crate::text::trimmed(path, TrimSet::Whitespace);
    if repo.len() == 0 {
        Err(MISSING_PATH@)
    } else if !repos.contains(repo) {
        Err(unknown_repo_message(repo))
    } else if !has_keys {
        Err(MISSING_KEYS@)
    } else {
        Ok(repo)
    }
}

pub open spec fn text_result(r: Result<String, String>) -> Result<Seq<char>, Seq<char>> {
    match r {
        Ok(s) => Ok(s@),
        Err(s) => Err(s@),
    }
}

fn is_listed(repos: &Vec<String>, repo: &str) -> (r: bool)
    ensures
        r == crate::text::texts(repos@).contains(repo@),
{
    let ghost all = crate::text::texts(repos@);
    let mut i: usize = 0;
    while i < repos.len()
        invariant
            all == crate::text::texts(repos@),
            i <= repos@.len(),
            forall|k: int| 0 <= k < i ==> #[trigger] all[k] != repo@,
        decreases repos@.len() - i,
    {
        if same_text(repos[i].as_str(), repo) {
            assert(all[i as int] == repo@);
            return true;
        }
        i = i + 1;
    }
    false
}

/// Checks a request against the settings.
pub fn validate_request(workspace_full_path: &str, repos: &Vec<String>, has_keys: bool) -> (r: Result<
    String,
    String,
>)
    ensures
        text_result(r) == checked_request(
            workspace_full_path@,
            crate::text::texts(repos@),
            has_keys,
        ),
{
    let repo = trim(workspace_full_path, TrimSet::Whitespace);
    if repo.as_str().is_empty() {
        return Err(MISSING_PATH.to_owned());
    }
    if !is_listed(repos, repo.as_str()) {
        let mut message = "Error: workspace '".to_owned();
        message.append(repo.as_str());
        message.append(
            "' is not a configured repository. Add it in the Context Engine UI and index it first.",
        );
        return Err(message);
    }
    if !has_keys {
        return Err(MISSING_KEYS.to_owned());
    }
    Ok(repo)
}

// ─── Freshness ───

/// A point in time: seconds since the Unix epoch, and nanoseconds on top. Within
/// a leap second these are a billion or more.
#[derive(Clone, Copy, Debug, PartialEq, Eq, Structural)]
pub struct Moment {
    pub secs: i64,
    pub nanos: u32,
}

/// A stretch of time: seconds, and nanoseconds on top with the same sign.
#[derive(Clone, Copy, Debug, PartialEq, Eq, Structural)]
pub struct Span {
    pub secs: i64,
    pub nanos: i32,
}

pub open spec fn nanos_of(span: Span) -> int {
    span.secs * 1_000_000_000 + span.nanos
}

fn total_nanos(span: Span) -> (r: i128)
    ensures
        r == nanos_of(span),
{
    let secs: i128 = span.secs as i128;
    secs * 1_000_000_000 + span.nanos as i128
}

/// An index is stale after the given number of days.
pub fn stale_threshold(days: u32) -> (r: Span)
    ensures
        r.secs == days * 86_400,
        r.nanos == 0,
{
    Span { secs: days as i64 * 86_400, nanos: 0 }
}

/// `Utc::now` (chrono). Nothing is claimed of the time.
#[verifier::external_body]
fn current_time() -> (r: Moment) {
    let now = chrono::Utc::now();
    Moment { secs: now.timestamp(), nanos: now.timestamp_subsec_nanos() }
}

/// The point in time that a text denotes.
pub uninterp spec fn time_of(text: Seq<char>) -> Option<Moment>;

/// `str::parse` to a `DateTime<Utc>` (chrono), as seconds and nanoseconds:
/// nothing where the text is not a timestamp. The result is named, not
/// described; it depends on the text alone.
#[verifier::external_body]
fn read_time(text: &str) -> (r: Option<Moment>)
    ensures
        r == time_of(text@),
{
    let then = text.parse::<chrono::DateTime<chrono::Utc>>().ok()?;
    Some(Moment { secs: then.timestamp(), nanos: then.timestamp_subsec_nanos() })
}

pub const DAY_SECONDS: i64 = 86_400;

pub const SECOND_NANOS: u32 = 1_000_000_000;

/// The second of its day that a moment falls in.
pub open spec fn second_of_day(m: Moment) -> int {
    m.secs as int % DAY_SECONDS as int
}

pub open spec fn in_leap_second(m: Moment) -> bool {
    m.nanos >= SECOND_NANOS
}

/// The leap second, if any, that lies between two moments: that of the one that
/// comes earlier in its day.
pub open spec fn leap_between(now: Moment, then: Moment) -> int {
    if second_of_day(now) > second_of_day(then) && in_leap_second(then) {
        1
    } else if second_of_day(now) < second_of_day(then) && in_leap_second(now) {
        -1
    } else {
        0
    }
}

/// The nanoseconds from one moment to another, negative where the first is the
/// later one.
pub open spec fn time_since(now: Moment, then: Moment) -> int {
    (now.secs - then.secs + leap_between(now, then)) * SECOND_NANOS + now.nanos - then.nanos
}

fn seconds_into_day(m: Moment) -> (r: i64)
    ensures
        r == second_of_day(m),
{
    if m.secs >= 0 {
        m.secs % DAY_SECONDS
    } else {
        DAY_SECONDS - 1 - (-(m.secs + 1)) % DAY_SECONDS
    }
}

fn nanos_since(now: Moment, then: Moment) -> (r: i128)
    ensures
        r == time_since(now, then),
{
    let now_second: i64 = seconds_into_day(now);
    let then_second: i64 = seconds_into_day(then);
    let leap: i128 = if now_second > then_second && then.nanos >= SECOND_NANOS {
        1
    } else if now_second < then_second && now.nanos >= SECOND_NANOS {
        -1
    } else {
        0
    };
    let secs: i128 = now.secs as i128 - then.secs as i128 + leap;
    secs * 1_000_000_000 + now.nanos as i128 - then.nanos as i128
}

/// What is known of the last time that a repository was indexed.
#[derive(Clone, Copy, Debug, PartialEq, Eq, Structural)]
pub enum Stamp {
    Missing,
    Unreadable,
    /// How many nanoseconds ago it was.
    Age(i128),
}

/// The stamp that a stored text is at the given time.
pub open spec fn stamp_at(text: Option<Seq<char>>, now: Moment) -> Stamp {
    match text {
        None => Stamp::Missing,
        Some(t) => match time_of(t) {
            Some(then) => Stamp::Age(time_since(now, then) as i128),
            None => Stamp::Unreadable,
        },
    }
}

fn read_stamp(text: &Option<String>, now: Moment) -> (r: Stamp)
    ensures
        r == stamp_at(crate::text::opt_text(*text), now),
{
    match text {
        None => Stamp::Missing,
        Some(t) => match read_time(t.as_str()) {
            Some(then) => Stamp::Age(nanos_since(now, then)),
            None => Stamp::Unreadable,
        },
    }
}

/// There is a stamp, and it can be read.
pub open spec fn has_timestamp(text: Option<Seq<char>>) -> bool {
    match text {
        None => false,
        Some(t) => time_of(t) is Some,
    }
}

/// Staleness rules: without chunks nothing is usable; with chunks everything is
/// but an index that is older than the threshold.
pub open spec fn is_usable(chunk_count: u64, stamp: Stamp, threshold: Span) -> bool {
    chunk_count > 0 && match stamp {
        Stamp::Missing => true,
        Stamp::Unreadable => true,
        Stamp::Age(age) => age <= nanos_of(threshold),
    }
}

/// Whether an index with the given number of chunks and the given stamp is
/// usable.
pub fn usable(chunk_count: u64, stamp: Stamp, threshold: Span) -> (r: bool)
    ensures
        r == is_usable(chunk_count, stamp, threshold),
{
    if chunk_count == 0 {
        return false;
    }
    match stamp {
        Stamp::Missing => true,
        Stamp::Unreadable => true,
        Stamp::Age(age) => age <= total_nanos(threshold),
    }
}

/// [`check_usable`] at a given time.
pub fn check_usable_at(
    chunk_count: u64,
    last_indexed_ts: &Option<String>,
    threshold: Span,
    now: Moment,
) -> (r: bool)
    ensures
        r == is_usable(
            chunk_count,
            stamp_at(crate::text::opt_text(*last_indexed_ts), now),
            threshold,
        ),
        chunk_count > 0 && !has_timestamp(crate::text::opt_text(*last_indexed_ts)) ==> r,
{
    usable(chunk_count, read_stamp(last_indexed_ts, now), threshold)
}

/// Returns true if the DB has chunks AND the durable timestamp is within the
/// staleness threshold. The durable timestamp is the source of truth — in-memory
/// `RepoStatus.last_indexed_at` is intentionally NOT consulted here.
///
/// Staleness rules:
/// * chunk_count == 0 → false (never indexed)
/// * chunk_count > 0, timestamp missing → true (pre-timestamp legacy index; chunks exist so usable)
/// * chunk_count > 0, timestamp unparseable → true (corrupt stamp but chunks exist; don't punish user)
/// * chunk_count > 0, age <= threshold → true (fresh)
/// * chunk_count > 0, age > threshold → false (genuinely stale)
///
/// The age is that at the time of the call, of which nothing more is known.
pub fn check_usable(
    chunk_count: u64,
    last_indexed_ts: &Option<String>,
    threshold: Span,
) -> (r: bool)
    ensures
        exists|now: Moment|
            r == is_usable(
                chunk_count,
                #[trigger] stamp_at(crate::text::opt_text(*last_indexed_ts), now),
                threshold,
            ),
        chunk_count == 0 ==> !r,
        chunk_count > 0 && !has_timestamp(crate::text::opt_text(*last_indexed_ts)) ==> r,
{
    check_usable_at(chunk_count, last_indexed_ts, threshold, current_time())
}

/// What is known of the index of a repository, from the durable state at the
/// time of the call: whether it is usable, and whether its stamp can be read.
pub fn freshness(chunk_count: u64, last_indexed_ts: &Option<String>, threshold: Span) -> (r: (
    bool,
    bool,
))
    ensures
        exists|now: Moment|
            r.0 == is_usable(
                chunk_count,
                #[trigger] stamp_at(crate::text::opt_text(*last_indexed_ts), now),
                threshold,
            ),
        chunk_count == 0 ==> !r.0,
        chunk_count > 0 && !has_timestamp(crate::text::opt_text(*last_indexed_ts)) ==> r.0,
        r.1 == has_timestamp(crate::text::opt_text(*last_indexed_ts)),
{
    let has_stamp = match last_indexed_ts {
        None => false,
        Some(t) => read_time(t.as_str()).is_some(),
    };
    (check_usable(chunk_count, last_indexed_ts, threshold), has_stamp)
}

// ─── Waiting for the index ───

/// Whether an index run is triggered, and whether the answer waits for it.
#[derive(Clone, Copy, Debug, PartialEq, Eq, Structural)]
pub struct Refresh {
    pub trigger: bool,
    pub wait: bool,
}

/// A run that is in flight is joined, not triggered again. Without one, an index
/// that is not usable is refreshed and waited for; a usable one without a
/// readable stamp is refreshed in the background.
pub open spec fn refresh_of(currently_indexing: bool, is_fresh: bool, has_stamp: bool) -> Refresh {
    if currently_indexing {
        Refresh { trigger: false, wait: true }
    } else if !is_fresh {
        Refresh { trigger: true, wait: true }
    } else {
        Refresh { trigger: !has_stamp, wait: false }
    }
}

pub fn plan_refresh(currently_indexing: bool, is_fresh: bool, has_stamp: bool) -> (r: Refresh)
    ensures
        r == refresh_of(currently_indexing, is_fresh, has_stamp),
{
    if currently_indexing {
        Refresh { trigger: false, wait: true }
    } else if !is_fresh {
        Refresh { trigger: true, wait: true }
    } else {
        Refresh { trigger: !has_stamp, wait: false }
    }
}

/// How waiting goes on.
#[derive(Debug)]
pub enum Poll {
    /// Run the query; the answer begins with the note.
    Query { note: String },
    /// Answer this.
    Reply { text: String },
    /// Look again later.
    Wait,
}

/// What a [`Poll`] says.
pub enum PollView {
    Query(Seq<char>),
    Reply(Seq<char>),
    Wait,
}

impl View for Poll {
    type V = PollView;

    open spec fn view(&self) -> PollView {
        match self {
            Poll::Query { note } => PollView::Query(note@),
            Poll::Reply { text } => PollView::Reply(text@),
            Poll::Wait => PollView::Wait,
        }
    }
}

pub const STILL_INDEXING_NOTE: &'static str = "(still indexing; results may be incomplete)\n\n";

pub const STILL_INDEXING_REPLY: &'static str = "Codebase is indexing, use grep instead.";

/// What comes of a look at the status of the repository. A finished run is
/// queried; a failed one, and one that takes too long, is queried with a note
/// where there was usable data before, and refused otherwise.
pub open spec fn polled(
    state: Option<IndexState>,
    error: Option<Seq<char>>,
    deadline_passed: bool,
    is_fresh: bool,
) -> PollView {
    match state {
        Some(IndexState::Idle) => PollView::Query(Seq::empty()),
        Some(IndexState::Error) => {
            let reason = match error {
                Some(e) => e,
                None => "unknown error"@,
            };
            if is_fresh {
                PollView::Query(
                    "(index refresh failed: "@ + reason + "; showing previous results)\n\n"@,
                )
            } else {
                PollView::Reply(
                    "Error: indexing failed ("@ + reason
                        + "). Use grep to search the codebase directly."@,
                )
            }
        },
        _ => if !deadline_passed {
            PollView::Wait
        } else if is_fresh {
            PollView::Query(STILL_INDEXING_NOTE@)
        } else {
            PollView::Reply(STILL_INDEXING_REPLY@)
        },
    }
}

/// Looks at the status of the repository while the answer waits for a run.
pub fn poll_step(
    state: Option<IndexState>,
    error: &Option<String>,
    deadline_passed: bool,
    is_fresh: bool,
) -> (r: Poll)
    ensures
        r@ == polled(state, crate::text::opt_text(*error), deadline_passed, is_fresh),
{
    match state {
        Some(IndexState::Idle) => {
            let note = String::new();
            assert(note@ =~= Seq::<char>::empty());
            Poll::Query { note }
        },
        Some(IndexState::Error) => {
            let reason = match error {
                Some(e) => e.as_str(),
                None => "unknown error",
            };
            if is_fresh {
                let mut note = "(index refresh failed: ".to_owned();
                note.append(reason);
                note.append("; showing previous results)\n\n");
                Poll::Query { note }
            } else {
                let mut text = "Error: indexing failed (".to_owned();
                text.append(reason);
                text.append("). Use grep to search the codebase directly.");
                Poll::Reply { text }
            }
        },
        _ => if !deadline_passed {
            Poll::Wait
        } else if is_fresh {
            Poll::Query { note: STILL_INDEXING_NOTE.to_owned() }
        } else {
            Poll::Reply { text: STILL_INDEXING_REPLY.to_owned() }
        },
    }
}

// ─── Answers ───

/// One result: its place and its content.
pub open spec fn shown_result(r: crate::query::engine::ResultView) -> Seq<char> {
    r.file + "#L"@ + crate::text::decimal_of(r.line_start as nat) + "-"@ + crate::text::decimal_of(
        r.line_end as nat,
    ) + "\n"@ + r.content
}

pub open spec fn shown_results(results: Seq<crate::query::engine::ResultView>) -> Seq<Seq<char>> {
    Seq::new(results.len(), |i: int| shown_result(results[i]))
}

/// The results one under the other, or that there are none.
pub open spec fn answer_text(
    request: Seq<char>,
    results: Seq<crate::query::engine::ResultView>,
) -> Seq<char> {
    if results.len() == 0 {
        "No results found for: "@ + request
    } else {
        crate::text::joined(shown_results(results), "\n"@)
    }
}

/// Formats the results of a query as plain text.
pub fn format_answer(information_request: &str, results: &Vec<CodeResult>) -> (r: String)
    ensures
        r@ == answer_text(
            information_request@,
            crate::query::engine::result_views(results@),
        ),
{
    let ghost views = crate::query::engine::result_views(results@);
    if results.len() == 0 {
        let mut out = "No results found for: ".to_owned();
        out.append(information_request);
        return out;
    }
    let mut parts: Vec<String> = Vec::new();
    let mut i: usize = 0;
    while i < results.len()
        invariant
            views == crate::query::engine::result_views(results@),
            i <= results@.len(),
            parts@.len() == i,
            forall|k: int| 0 <= k < i ==> (#[trigger] parts@[k])@ == shown_result(views[k]),
        decreases results@.len() - i,
    {
        let result = &results[i];
        let mut part = result.file.clone();
        part.append("#L");
        part.append(decimal(result.line_start as u64).as_str());
        part.append("-");
        part.append(decimal(result.line_end as u64).as_str());
        part.append("\n");
        part.append(result.content.as_str());
        parts.push(part);
        i = i + 1;
    }
    assert(crate::text::texts(parts@) =~= shown_results(views));
    crate::text::join(parts.as_slice(), "\n")
}

/// What went wrong after the request was accepted.
#[derive(Clone, Copy, Debug, PartialEq, Eq, Structural)]
pub enum RetrievalFailure {
    OpenStore,
    MakeClient,
    RunQuery,
}

pub open spec fn failure_prefix(failure: RetrievalFailure) -> Seq<char> {
    match failure {
        RetrievalFailure::OpenStore => "Error: could not open index database: "@,
        RetrievalFailure::MakeClient => "Error: failed to create embedding client: "@,
        RetrievalFailure::RunQuery => "Error: query failed: "@,
    }
}

/// The answer where something went wrong.
pub fn failure_text(failure: RetrievalFailure, error: &str) -> (r: String)
    ensures
        r@ == failure_prefix(failure) + error@,
{
    let mut out = match failure {
        RetrievalFailure::OpenStore => "Error: could not open index database: ".to_owned(),
        RetrievalFailure::MakeClient => "Error: failed to create embedding client: ".to_owned(),
        RetrievalFailure::RunQuery => "Error: query failed: ".to_owned(),
    };
    out.append(error);
    out
}

// ─── The laws ───

/// Whoever had usable data before is always served: waiting ends in a query,
/// never in a refusal.
pub proof fn law_usable_data_is_served(
    state: Option<IndexState>,
    error: Option<Seq<char>>,
    deadline_passed: bool,
)
    ensures
        !(polled(state, error, deadline_passed, true) is Reply),
{
}

/// Waiting ends: with the deadline passed there is no more waiting, and a run
/// that ended ends it before.
pub proof fn law_waiting_ends(
    state: Option<IndexState>,
    error: Option<Seq<char>>,
    deadline_passed: bool,
    is_fresh: bool,
)
    ensures
        polled(state, error, deadline_passed, is_fresh) is Wait <==> !deadline_passed && state
            != Some(IndexState::Idle) && state != Some(IndexState::Error),
{
}

/// Nothing is triggered while a run is in flight, an index that is not usable
/// is never queried without waiting, and a usable one is served at once unless
/// a run is in flight.
pub proof fn law_refresh_rules(currently_indexing: bool, is_fresh: bool, has_stamp: bool)
    ensures
        ({
            let r = refresh_of(currently_indexing, is_fresh, has_stamp);
            &&& r.trigger ==> !currently_indexing
            &&& !is_fresh ==> r.wait
            &&& r.wait <==> currently_indexing || !is_fresh
            &&& !currently_indexing && (!is_fresh || !has_stamp) ==> r.trigger
        }),
{
}

/// Age is the only reason not to use an index that has chunks, and an index that
/// is older than another is usable only if the other is.
pub proof fn law_only_age_makes_stale(chunk_count: u64, a: i128, b: i128, threshold: Span)
    requires
        a <= b,
    ensures
        is_usable(chunk_count, Stamp::Age(b), threshold) ==> is_usable(
            chunk_count,
            Stamp::Age(a),
            threshold,
        ),
        is_usable(chunk_count, Stamp::Missing, threshold) == (chunk_count > 0),
        is_usable(chunk_count, Stamp::Unreadable, threshold) == (chunk_count > 0),
        is_usable(chunk_count, Stamp::Age(a), threshold) ==> chunk_count > 0,
{
}

/// The time from one moment to another is that from the other to the first, with
/// the other sign.
pub proof fn law_time_runs_both_ways(a: Moment, b: Moment)
    ensures
        time_since(a, b) == -time_since(b, a),
{
}

/// One moment is not before another; neither is within a leap second.
pub open spec fn not_before(a: Moment, b: Moment) -> bool {
    &&& !in_leap_second(a)
    &&& !in_leap_second(b)
    &&& a.secs > b.secs || (a.secs == b.secs && a.nanos >= b.nanos)
}

/// An index ages: one that is not usable at some time, though it has chunks, is
/// not usable at any later time, until it is stamped anew. One with a stamp that
/// lies in the future is usable. Within a leap second the difference of two
/// moments can be off by that second.
pub proof fn law_staleness_is_final(
    chunk_count: u64,
    then: Moment,
    text: Seq<char>,
    threshold: Span,
    now: Moment,
    later: Moment,
)
    requires
        chunk_count > 0,
        time_of(text) == Some(then),
        !in_leap_second(then),
        not_before(later, now),
    ensures
        !is_usable(chunk_count, stamp_at(Some(text), now), threshold) ==> !is_usable(
            chunk_count,
            stamp_at(Some(text), later),
            threshold,
        ),
        not_before(then, now) && nanos_of(threshold) >= 0 ==> is_usable(
            chunk_count,
            stamp_at(Some(text), now),
            threshold,
        ),
{
}

}
