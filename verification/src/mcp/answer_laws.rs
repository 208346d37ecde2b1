//! What holds of every reply to a request.
use vstd::prelude::*;

use crate::indexing::IndexState;
use crate::mcp::retrieval::{ActionView, RetrievalEvent, RetrievalState, RetrievalView};
use crate::mcp::{Moment, PollView, RetrievalFailure, Span, Stamp};
use crate::query::engine::{CodeResult, ResultView};

verus! {

// ─── Requests ───

/// A request is accepted exactly where its path, without the whitespace around
/// it, is that of a configured repository and there are keys; each refusal says
/// which of these is wanting, in this order.
pub proof fn law_requests_are_checked(path: Seq<char>, repos: Seq<Seq<char>>, has_keys: bool)
    ensures
        ({
            let repo = crate::text::trimmed(path, crate::text::TrimSet::Whitespace);
            let r = crate::mcp::checked_request(path, repos, has_keys);
            &&& r is Ok <==> repo.len() > 0 && repos.contains(repo) && has_keys
            &&& r matches Ok(named) ==> named == repo && repos.contains(named)
            &&& repo.len() == 0 ==> r == Err::<Seq<char>, Seq<char>>(crate::mcp::MISSING_PATH@)
            &&& repo.len() > 0 && !repos.contains(repo) ==> (r matches Err(text)
                && crate::text::shows(text, repo))
            &&& repo.len() > 0 && repos.contains(repo) && !has_keys ==> r == Err::<
                Seq<char>,
                Seq<char>,
            >(crate::mcp::MISSING_KEYS@)
        }),
{
    let repo = crate::text::trimmed(path, crate::text::TrimSet::Whitespace);
    crate::text::lemma_shows(
        "Error: workspace '"@,
        repo,
        "' is not a configured repository. Add it in the Context Engine UI and index it first."@,
    );
}

// ─── Answers ───

/// What is shown of a result is its file, the numbers of its lines, and its whole
/// content on lines of its own.
pub proof fn law_results_are_shown(r: ResultView)
    ensures
        ({
            let text = crate::mcp::shown_result(r);
            let head = r.file + "#L"@ + crate::text::decimal_of(r.line_start as nat) + "-"@
                + crate::text::decimal_of(r.line_end as nat) + "\n"@;
            &&& text.take(head.len() as int) == head
            &&& text.skip(head.len() as int) == r.content
        }),
{
    let text = crate::mcp::shown_result(r);
    let head = r.file + "#L"@ + crate::text::decimal_of(r.line_start as nat) + "-"@
        + crate::text::decimal_of(r.line_end as nat) + "\n"@;
    assert(text.take(head.len() as int) =~= head);
    assert(text.skip(head.len() as int) =~= r.content);
}

/// An answer shows every result, and in their order: the answer for two lists is
/// that for the first, a newline, and that for the second. Without results it
/// tells what was asked.
pub proof fn law_answers_show_every_result(
    request: Seq<char>,
    a: Seq<ResultView>,
    b: Seq<ResultView>,
    i: int,
)
    ensures
        0 <= i < a.len() ==> crate::text::shows(
            crate::mcp::answer_text(request, a),
            crate::mcp::shown_result(a[i]),
        ),
        a.len() == 1 ==> crate::mcp::answer_text(request, a) == crate::mcp::shown_result(a[0]),
        a.len() > 0 && b.len() > 0 ==> crate::mcp::answer_text(request, a + b)
            == crate::mcp::answer_text(request, a) + seq!['\n'] + crate::mcp::answer_text(
            request,
            b,
        ),
        a.len() == 0 ==> crate::text::shows(crate::mcp::answer_text(request, a), request),
{
    reveal_strlit("\n");
    let (x, y) = (crate::mcp::shown_results(a), crate::mcp::shown_results(b));
    assert("\n"@ =~= seq!['\n']);
    if 0 <= i < a.len() {
        crate::text::lemma_joined_shows(x, "\n"@, i);
    }
    crate::text::law_joined_is_put_together(x, y, "\n"@);
    assert(crate::mcp::shown_results(a + b) =~= x + y);
    if a.len() == 0 {
        let none = Seq::<char>::empty();
        assert("No results found for: "@ + request =~= "No results found for: "@ + request + none);
        crate::text::lemma_shows("No results found for: "@, request, none);
    }
}

/// Whatever ends a retrieval, its reply begins with the note, and then shows
/// every result that was found, or tells the error in full.
pub proof fn law_replies_tell_everything(run: RetrievalView, event: RetrievalEvent, i: int)
    requires
        crate::mcp::retrieval::is_expected(run.state, event),
    ensures
        event matches RetrievalEvent::Found { results } ==> {
            let views = crate::query::engine::result_views(results@);
            crate::mcp::retrieval::after(run, event).1 matches ActionView::Reply(text)
                && run.note.is_prefix_of(text) && (0 <= i < views.len() ==> crate::text::shows(
                text,
                crate::mcp::shown_result(views[i]),
            )) && (views.len() == 0 ==> crate::text::shows(text, run.request))
        },
        event matches RetrievalEvent::StoreFailed { error } ==> (crate::mcp::retrieval::after(
            run,
            event,
        ).1 matches ActionView::Reply(text) && run.note.is_prefix_of(text)
            && error@.is_suffix_of(text)),
        event matches RetrievalEvent::ClientFailed { error } ==> (crate::mcp::retrieval::after(
            run,
            event,
        ).1 matches ActionView::Reply(text) && run.note.is_prefix_of(text)
            && error@.is_suffix_of(text)),
        event matches RetrievalEvent::QueryFailed { error } ==> (crate::mcp::retrieval::after(
            run,
            event,
        ).1 matches ActionView::Reply(text) && run.note.is_prefix_of(text)
            && error@.is_suffix_of(text)),
{
    match event {
        RetrievalEvent::Found { results } => {
            let views = crate::query::engine::result_views(results@);
            let text = crate::mcp::answer_text(run.request, views);
            let all = run.note + text;
            let none = Seq::<char>::empty();
            assert(run.note =~= all.subrange(0, run.note.len() as int));
            assert(all =~= run.note + text + none);
            crate::text::lemma_shows(run.note, text, none);
            law_answers_show_every_result(run.request, views, views, i);
            if 0 <= i < views.len() {
                crate::text::lemma_shows_trans(all, text, crate::mcp::shown_result(views[i]));
            }
            if views.len() == 0 {
                crate::text::lemma_shows_trans(all, text, run.request);
            }
        },
        RetrievalEvent::StoreFailed { error } => {
            lemma_failure(run.note, RetrievalFailure::OpenStore, error@);
        },
        RetrievalEvent::ClientFailed { error } => {
            lemma_failure(run.note, RetrievalFailure::MakeClient, error@);
        },
        RetrievalEvent::QueryFailed { error } => {
            lemma_failure(run.note, RetrievalFailure::RunQuery, error@);
        },
        _ => {},
    }
}

proof fn lemma_failure(note: Seq<char>, failure: RetrievalFailure, error: Seq<char>)
    ensures
        note.is_prefix_of(note + (crate::mcp::failure_prefix(failure) + error)),
        error.is_suffix_of(note + (crate::mcp::failure_prefix(failure) + error)),
{
    let all = note + (crate::mcp::failure_prefix(failure) + error);
    assert(note =~= all.subrange(0, note.len() as int));
    assert(error =~= all.subrange(all.len() - error.len(), all.len() as int));
}

// ─── Waiting ───

/// A finished run is queried without a note; while one goes on, the answer waits
/// up to the deadline; a failure is told in full, with the old results where
/// there are usable ones, and instead of them where there are none.
pub proof fn law_waiting_tells_what_happened(
    state: Option<IndexState>,
    error: Seq<char>,
    deadline_passed: bool,
    is_fresh: bool,
)
    ensures
        ({
            let p = crate::mcp::polled(state, Some(error), deadline_passed, is_fresh);
            &&& state == Some(IndexState::Idle) ==> p == PollView::Query(Seq::empty())
            &&& state == Some(IndexState::Error) && is_fresh ==> (p matches PollView::Query(note)
                && crate::text::shows(note, error))
            &&& state == Some(IndexState::Error) && !is_fresh ==> (p matches PollView::Reply(text)
                && crate::text::shows(text, error))
            &&& p is Wait <==> state != Some(IndexState::Idle) && state != Some(IndexState::Error)
                && !deadline_passed
            &&& state != Some(IndexState::Idle) && state != Some(IndexState::Error)
                && deadline_passed ==> if is_fresh {
                p matches PollView::Query(note) && note.len() > 0
            } else {
                p is Reply
            }
        }),
{
    reveal_strlit("(still indexing; results may be incomplete)\n\n");
    crate::text::lemma_shows(
        "(index refresh failed: "@,
        error,
        "; showing previous results)\n\n"@,
    );
    crate::text::lemma_shows(
        "Error: indexing failed ("@,
        error,
        "). Use grep to search the codebase directly."@,
    );
}

/// The note of a look at the status stands before the answer.
pub proof fn law_notes_are_kept(
    run: RetrievalView,
    state: Option<IndexState>,
    error: Option<String>,
    deadline_passed: bool,
)
    requires
        run.state == RetrievalState::Polling,
    ensures
        ({
            let event = RetrievalEvent::Looked { state, error, deadline_passed };
            let (next, action) = crate::mcp::retrieval::after(run, event);
            let p = crate::mcp::polled(
                state,
                crate::text::opt_text(error),
                deadline_passed,
                run.is_fresh,
            );
            &&& p matches PollView::Query(note) ==> next.note == note && action
                == ActionView::MakeClient(false)
            &&& p matches PollView::Reply(text) ==> action == ActionView::Reply(run.note + text)
            &&& p is Wait ==> action == ActionView::Wait(false) && next == run
        }),
{
}

// ─── Age ───

/// An index with chunks is usable exactly as long as the time since its stamp is
/// no more than the threshold; both are counted in nanoseconds.
pub proof fn law_usable_up_to_the_threshold(
    chunk_count: u64,
    now: Moment,
    then: Moment,
    threshold: Span,
)
    requires
        now.nanos < 1_000_000_000,
        then.nanos < 1_000_000_000,
    ensures
        crate::mcp::is_usable(
            chunk_count,
            Stamp::Age(crate::mcp::time_since(now, then) as i128),
            threshold,
        ) <==> chunk_count > 0 && (now.secs - then.secs) * 1_000_000_000 + now.nanos - then.nanos
            <= threshold.secs * 1_000_000_000 + threshold.nanos,
{
}

/// A leap second counts where it lies between two moments of a day: from a moment
/// in it to a later second of the day it is one second more.
pub proof fn law_leap_seconds_count(now: Moment, then: Moment)
    requires
        now.nanos < 1_000_000_000,
        1_000_000_000 <= then.nanos,
        now.secs as int % 86_400 > then.secs as int % 86_400,
    ensures
        crate::mcp::time_since(now, then) == (now.secs - then.secs + 1) * 1_000_000_000 + now.nanos
            - then.nanos,
{
}

/// A failure without a reason is told as such.
pub proof fn law_unknown_failures_are_told(deadline_passed: bool, is_fresh: bool)
    ensures
        ({
            let p = crate::mcp::polled(Some(IndexState::Error), None, deadline_passed, is_fresh);
            &&& is_fresh ==> (p matches PollView::Query(note) && crate::text::shows(
                note,
                "unknown error"@,
            ))
            &&& !is_fresh ==> (p matches PollView::Reply(text) && crate::text::shows(
                text,
                "unknown error"@,
            ))
        }),
{
    law_waiting_tells_what_happened(
        Some(IndexState::Error),
        "unknown error"@,
        deadline_passed,
        is_fresh,
    );
}

/// A run of the index is triggered exactly where none is in flight and the index is
/// either not usable or has no readable stamp, and waited for exactly where one is
/// in flight or the index is not usable.
pub proof fn law_refreshed_exactly_when_needed(
    currently_indexing: bool,
    is_fresh: bool,
    has_stamp: bool,
)
    ensures
        ({
            let r = crate::mcp::refresh_of(currently_indexing, is_fresh, has_stamp);
            &&& r.trigger <==> !currently_indexing && (!is_fresh || !has_stamp)
            &&& r.wait <==> currently_indexing || !is_fresh
        }),
{
}

/// An accepted request begins with nothing known and keeps its words; what is known
/// of the index decides what comes next.
pub proof fn law_retrievals_begin_with_the_request(
    request: Seq<char>,
    path: Seq<char>,
    repos: Seq<Seq<char>>,
    has_keys: bool,
)
    ensures
        match crate::mcp::checked_request(path, repos, has_keys) {
            Ok(repo) => crate::mcp::retrieval::begun(request, path, repos, has_keys) matches Ok(run)
                && run.repo == repo && run.request == request && run.note.len() == 0 && !run.is_fresh
                && run.state == RetrievalState::Opening,
            Err(text) => crate::mcp::retrieval::begun(request, path, repos, has_keys) == Err::<
                RetrievalView,
                Seq<char>,
            >(text),
        },
{
}

/// What is known of the index is acted on: a refresh is triggered and waited for as
/// the rules say, and whether the index is usable is remembered.
pub proof fn law_known_state_is_acted_on(
    run: RetrievalView,
    is_fresh: bool,
    has_stamp: bool,
    currently_indexing: bool,
)
    requires
        run.state == RetrievalState::Checking,
    ensures
        ({
            let event = RetrievalEvent::Known { is_fresh, has_stamp, currently_indexing };
            let (next, action) = crate::mcp::retrieval::after(run, event);
            let trigger = !currently_indexing && (!is_fresh || !has_stamp);
            &&& next.is_fresh == is_fresh
            &&& next.note == run.note
            &&& currently_indexing || !is_fresh ==> action == ActionView::Wait(trigger)
                && next.state == RetrievalState::Polling
            &&& !currently_indexing && is_fresh ==> action == ActionView::MakeClient(trigger)
                && next.state == RetrievalState::Client
        }),
{
}

/// A stamp counts as there exactly where it can be read, and then it is as old as
/// the time since the moment that it denotes.
pub proof fn law_stamps_are_read(text: Option<Seq<char>>, now: Moment)
    ensures
        crate::mcp::has_timestamp(text) <==> crate::mcp::stamp_at(text, now) is Age,
        text is None <==> crate::mcp::stamp_at(text, now) is Missing,
        text matches Some(t) ==> (crate::mcp::time_of(t) matches Some(then)
            ==> crate::mcp::stamp_at(text, now) == Stamp::Age(
            crate::mcp::time_since(now, then) as i128,
        )),
        text matches Some(t) ==> (crate::mcp::time_of(t) is None ==> crate::mcp::stamp_at(
            text,
            now,
        ) is Unreadable),
{
}

/// What a reply to a failure begins with tells what failed.
pub proof fn law_failures_are_named()
    ensures
        crate::mcp::failure_prefix(RetrievalFailure::OpenStore)
            == "Error: could not open index database: "@,
        crate::mcp::failure_prefix(RetrievalFailure::MakeClient)
            == "Error: failed to create embedding client: "@,
        crate::mcp::failure_prefix(RetrievalFailure::RunQuery) == "Error: query failed: "@,
{
}

/// The reply to a request that something was found for is the note and the answer,
/// and nothing else.
pub proof fn law_replies_are_the_note_and_the_answer(run: RetrievalView, results: Vec<CodeResult>)
    requires
        run.state == RetrievalState::Querying,
    ensures
        ({
            let (next, action) = crate::mcp::retrieval::after(
                run,
                RetrievalEvent::Found { results },
            );
            &&& next.state == RetrievalState::Answered
            &&& action matches ActionView::Reply(text) && text.take(run.note.len() as int)
                == run.note && text.skip(run.note.len() as int) == crate::mcp::answer_text(
                run.request,
                crate::query::engine::result_views(results@),
            )
        }),
{
    let answer = crate::mcp::answer_text(
        run.request,
        crate::query::engine::result_views(results@),
    );
    let text = run.note + answer;
    assert(text.take(run.note.len() as int) =~= run.note);
    assert(text.skip(run.note.len() as int) =~= answer);
}

/// Every step that succeeds is followed by the next, and the note is kept.
pub proof fn law_steps_follow_each_other(run: RetrievalView, event: RetrievalEvent)
    requires
        crate::mcp::retrieval::is_expected(run.state, event),
    ensures
        ({
            let (next, action) = crate::mcp::retrieval::after(run, event);
            &&& event is StoreOpened ==> action is CheckIndex && next.state
                == RetrievalState::Checking
            &&& event is ClientReady ==> action is RunQuery && next.state
                == RetrievalState::Querying
            &&& !(event is Looked) ==> next.note == run.note
        }),
{
}

}
