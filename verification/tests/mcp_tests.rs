use context_engine::indexing::IndexState;
use context_engine::mcp::{
    check_usable, check_usable_at, failure_text, format_answer, freshness, plan_refresh, poll_step,
    stale_threshold, usable, validate_request, CodebaseRetrievalArgs, Moment, Poll, Refresh,
    RetrievalFailure, Span, Stamp, MISSING_KEYS, MISSING_PATH, RESULT_LIMIT,
};
use context_engine::mcp::retrieval::{
    begin_retrieval, expects, retrieval_step, Retrieval, RetrievalAction, RetrievalEvent,
    RetrievalState,
};
use context_engine::query::engine::CodeResult;

const THRESHOLD: fn() -> Span = || stale_threshold(7);

fn ts_days_ago(n: i64) -> String {
    (chrono::Utc::now() - chrono::Duration::days(n)).to_rfc3339()
}

// 1. chunk_count == 0 → always false, regardless of timestamp.
#[test]
fn no_chunks_is_not_usable() {
    assert!(!check_usable(0, &None, THRESHOLD()));
    assert!(!check_usable(0, &Some(ts_days_ago(1)), THRESHOLD()));
}

// 2. chunk_count > 0, timestamp None → true (legacy backfill / pre-timestamp regression guard).
#[test]
fn legacy_index_no_timestamp_is_usable() {
    assert!(check_usable(1, &None, THRESHOLD()));
}

// 3. chunk_count > 0, timestamp 1 day ago (≤ 7d threshold) → true.
#[test]
fn fresh_timestamp_is_usable() {
    assert!(check_usable(100, &Some(ts_days_ago(1)), THRESHOLD()));
}

// 4. chunk_count > 0, timestamp 30 days ago (> 7d threshold) → false.
#[test]
fn old_timestamp_is_not_usable() {
    assert!(!check_usable(100, &Some(ts_days_ago(30)), THRESHOLD()));
}

// 5. chunk_count > 0, unparseable timestamp → true (corrupt stamp, chunks exist).
#[test]
fn unparseable_timestamp_is_usable() {
    assert!(check_usable(50, &Some("not-a-date".to_string()), THRESHOLD()));
}

// 6a. Boundary: just inside threshold (6 days ago ≤ 7d) → true.
#[test]
fn just_inside_threshold_is_usable() {
    assert!(check_usable(10, &Some(ts_days_ago(6)), THRESHOLD()));
}

// 6b. Boundary: just outside threshold (8 days ago > 7d) → false.
#[test]
fn just_outside_threshold_is_not_usable() {
    assert!(!check_usable(10, &Some(ts_days_ago(8)), THRESHOLD()));
}

#[test]
fn the_threshold_itself_is_fresh() {
    let week = Span { secs: 604_800, nanos: 0 };
    assert_eq!(stale_threshold(7), week);
    assert!(usable(1, Stamp::Age(604_800_000_000_000), week));
    assert!(!usable(1, Stamp::Age(604_800_000_000_001), week));
    assert!(usable(1, Stamp::Age(-5_000_000_003), week));
    assert!(!usable(0, Stamp::Missing, week));
    assert!(usable(1, Stamp::Unreadable, week));
}

#[test]
fn usability_at_a_given_time() {
    let stamp = Some("1970-01-08T00:00:00Z".to_string());
    let at = |secs: i64, nanos: u32| check_usable_at(3, &stamp, THRESHOLD(), Moment { secs, nanos });
    assert!(at(604_800, 0));
    assert!(at(2 * 604_800, 0));
    assert!(!at(2 * 604_800, 1));
    assert!(!at(2 * 604_800 + 1, 0));
    assert!(at(0, 0));
}

/// The age of a stamp is the difference of the two times, leap seconds and times
/// before the epoch included.
#[test]
fn ages_are_differences_of_times() {
    let stamps = [
        "2016-12-31T23:59:60Z",
        "2016-12-31T23:59:60.25Z",
        "2016-12-31T12:00:00.5Z",
        "2017-01-01T00:00:00+01:00",
        "1969-12-31T23:59:59.75Z",
        "0001-01-01T00:00:00Z",
    ];
    let nows = [
        (1_483_228_799, 1_000_000_000),
        (1_483_228_799, 1_900_000_000),
        (1_483_228_799, 999_999_999),
        (1_483_228_800, 0),
        (1_483_185_600, 250_000_000),
        (1_483_315_199, 1_500_000_000),
        (0, 0),
        (-1, 999_999_999),
        (-86_401, 1_999_999_999),
    ];
    for text in stamps {
        let then: chrono::DateTime<chrono::Utc> = text.parse().unwrap();
        for (secs, nanos) in nows {
            let Some(now) = chrono::DateTime::from_timestamp(secs, nanos) else { continue };
            let age = now - then;
            let stamp = Some(text.to_string());
            for off in [-1_000_000_000, -1, 0, 1, 1_000_000_000] {
                let limit = age + chrono::TimeDelta::nanoseconds(off);
                let threshold = Span { secs: limit.num_seconds(), nanos: limit.subsec_nanos() };
                assert_eq!(
                    check_usable_at(1, &stamp, threshold, Moment { secs, nanos }),
                    age <= limit,
                    "{text} at {secs} {nanos}"
                );
            }
        }
    }
}

#[test]
fn a_stamp_in_the_future_is_fresh_and_an_old_one_stays_stale() {
    assert!(check_usable(1, &Some(ts_days_ago(-400)), THRESHOLD()));
    let stamp = Some("1970-01-01T00:00:00Z".to_string());
    let at = |secs: i64| check_usable_at(1, &stamp, THRESHOLD(), Moment { secs, nanos: 0 });
    assert!(at(-1_000_000) && at(604_800));
    assert!(!at(604_801) && !at(604_802) && !at(i64::MAX));
}

#[test]
fn freshness_tells_of_the_stamp() {
    assert_eq!(freshness(1, &Some(ts_days_ago(1)), THRESHOLD()), (true, true));
    assert_eq!(freshness(1, &Some(ts_days_ago(30)), THRESHOLD()), (false, true));
    assert_eq!(freshness(1, &Some("x".to_string()), THRESHOLD()), (true, false));
    assert_eq!(freshness(1, &None, THRESHOLD()), (true, false));
    assert_eq!(freshness(0, &None, THRESHOLD()), (false, false));
}

#[test]
fn requests_are_checked_in_order() {
    let repos = vec!["/r".to_string()];
    let args = CodebaseRetrievalArgs {
        information_request: "q".to_string(),
        workspace_full_path: "  /r\n".to_string(),
    };
    assert_eq!(
        validate_request(&args.workspace_full_path, &repos, true),
        Ok("/r".to_string())
    );
    assert_eq!(validate_request(" \t", &repos, false), Err(MISSING_PATH.to_string()));
    assert_eq!(
        validate_request("/s", &repos, false),
        Err("Error: workspace '/s' is not a configured repository. Add it in the Context Engine UI and index it first.".to_string())
    );
    assert_eq!(validate_request("/r", &repos, false), Err(MISSING_KEYS.to_string()));
    assert_eq!(
        MISSING_PATH,
        "Error: workspace_full_path is required. Pass the full path to the workspace (repository) root directory."
    );
    assert_eq!(
        MISSING_KEYS,
        "Error: no embedding API keys configured. Add a Voyage AI key in the Context Engine UI first."
    );
    assert_eq!(RESULT_LIMIT, 30);
}

#[test]
fn refreshes_are_planned() {
    let r = |trigger: bool, wait: bool| Refresh { trigger, wait };
    assert_eq!(plan_refresh(true, false, false), r(false, true));
    assert_eq!(plan_refresh(true, true, true), r(false, true));
    assert_eq!(plan_refresh(false, false, true), r(true, true));
    assert_eq!(plan_refresh(false, true, false), r(true, false));
    assert_eq!(plan_refresh(false, true, true), r(false, false));
}

fn poll(state: Option<IndexState>, error: Option<&str>, late: bool, fresh: bool) -> (char, String) {
    match poll_step(state, &error.map(|e| e.to_string()), late, fresh) {
        Poll::Query { note } => ('q', note),
        Poll::Reply { text } => ('r', text),
        Poll::Wait => ('w', String::new()),
    }
}

#[test]
fn waiting_ends_in_a_query_or_a_reply() {
    assert_eq!(poll(Some(IndexState::Idle), None, true, false), ('q', String::new()));
    assert_eq!(
        poll(Some(IndexState::Error), Some("boom"), false, true),
        ('q', "(index refresh failed: boom; showing previous results)\n\n".to_string())
    );
    assert_eq!(
        poll(Some(IndexState::Error), None, false, false),
        ('r', "Error: indexing failed (unknown error). Use grep to search the codebase directly.".to_string())
    );
    assert_eq!(poll(Some(IndexState::Indexing), None, false, true), ('w', String::new()));
    assert_eq!(poll(None, None, false, false), ('w', String::new()));
    assert_eq!(
        poll(Some(IndexState::Indexing), None, true, true),
        ('q', "(still indexing; results may be incomplete)\n\n".to_string())
    );
    assert_eq!(
        poll(None, None, true, false),
        ('r', "Codebase is indexing, use grep instead.".to_string())
    );
}

fn result(file: &str, line_start: u32, line_end: u32, content: &str) -> CodeResult {
    CodeResult {
        file: file.to_string(),
        line_start,
        line_end,
        score: 0,
        content: content.to_string(),
        symbol: None,
        callers: None,
        caller_files: None,
    }
}

#[test]
fn answers_are_plain_text() {
    assert_eq!(format_answer("how?", &vec![]), "No results found for: how?");
    assert_eq!(
        format_answer("how?", &vec![result("a.rs", 1, 2, "1: x\n2: y"), result("b.rs", 7, 7, "7: z")]),
        "a.rs#L1-2\n1: x\n2: y\nb.rs#L7-7\n7: z"
    );
}

#[test]
fn failures_are_told() {
    assert_eq!(
        failure_text(RetrievalFailure::OpenStore, "e"),
        "Error: could not open index database: e"
    );
    assert_eq!(
        failure_text(RetrievalFailure::MakeClient, "e"),
        "Error: failed to create embedding client: e"
    );
    assert_eq!(failure_text(RetrievalFailure::RunQuery, "e"), "Error: query failed: e");
}

// ─── Whole runs ───

fn begun() -> Retrieval {
    let args = CodebaseRetrievalArgs {
        information_request: "how?".to_string(),
        workspace_full_path: " /r ".to_string(),
    };
    begin_retrieval(args, &vec!["/r".to_string()], true).unwrap()
}

fn step(run: &mut Retrieval, event: RetrievalEvent) -> RetrievalAction {
    assert!(expects(run.state, &event));
    retrieval_step(run, event)
}

fn replied(action: RetrievalAction) -> String {
    match action {
        RetrievalAction::Reply { text } => text,
        other => panic!("no reply: {other:?}"),
    }
}

fn known(run: &mut Retrieval, is_fresh: bool, has_stamp: bool, busy: bool) -> RetrievalAction {
    assert!(matches!(step(run, RetrievalEvent::StoreOpened), RetrievalAction::CheckIndex));
    step(run, RetrievalEvent::Known { is_fresh, has_stamp, currently_indexing: busy })
}

#[test]
fn a_refused_request_is_answered_at_once() {
    let args = CodebaseRetrievalArgs {
        information_request: "how?".to_string(),
        workspace_full_path: "  ".to_string(),
    };
    assert_eq!(
        begin_retrieval(args, &vec!["/r".to_string()], true).unwrap_err(),
        MISSING_PATH
    );
}

#[test]
fn a_fresh_index_is_queried_at_once() {
    let mut run = begun();
    assert_eq!((run.state, run.repo.as_str()), (RetrievalState::Opening, "/r"));
    let next = known(&mut run, true, true, false);
    assert!(matches!(next, RetrievalAction::MakeClient { trigger: false }));
    assert!(matches!(step(&mut run, RetrievalEvent::ClientReady), RetrievalAction::RunQuery));
    let results = vec![result("a.rs", 1, 1, "1: x")];
    let text = replied(step(&mut run, RetrievalEvent::Found { results }));
    assert_eq!(text, "a.rs#L1-1\n1: x");
    assert_eq!(run.state, RetrievalState::Answered);
    assert!(!expects(run.state, &RetrievalEvent::StoreOpened));
}

#[test]
fn an_index_without_a_stamp_is_refreshed_in_the_background() {
    let mut run = begun();
    let next = known(&mut run, true, false, false);
    assert!(matches!(next, RetrievalAction::MakeClient { trigger: true }));
    let failed = RetrievalEvent::ClientFailed { error: "e".to_string() };
    assert_eq!(
        replied(step(&mut run, failed)),
        "Error: failed to create embedding client: e"
    );
}

#[test]
fn a_stale_index_is_waited_for() {
    let mut run = begun();
    let next = known(&mut run, false, true, false);
    assert!(matches!(next, RetrievalAction::Wait { trigger: true }));
    let busy = RetrievalEvent::Looked {
        state: Some(IndexState::Indexing),
        error: None,
        deadline_passed: false,
    };
    assert!(matches!(step(&mut run, busy), RetrievalAction::Wait { trigger: false }));
    let idle =
        RetrievalEvent::Looked { state: Some(IndexState::Idle), error: None, deadline_passed: true };
    assert!(matches!(step(&mut run, idle), RetrievalAction::MakeClient { trigger: false }));
    step(&mut run, RetrievalEvent::ClientReady);
    let failed = RetrievalEvent::QueryFailed { error: "boom".to_string() };
    assert_eq!(replied(step(&mut run, failed)), "Error: query failed: boom");
}

#[test]
fn usable_data_is_shown_with_a_note_when_the_refresh_fails() {
    let mut run = begun();
    assert!(matches!(known(&mut run, true, true, true), RetrievalAction::Wait { trigger: false }));
    let failed = RetrievalEvent::Looked {
        state: Some(IndexState::Error),
        error: Some("boom".to_string()),
        deadline_passed: false,
    };
    step(&mut run, failed);
    step(&mut run, RetrievalEvent::ClientReady);
    assert_eq!(
        replied(step(&mut run, RetrievalEvent::Found { results: vec![] })),
        "(index refresh failed: boom; showing previous results)\n\nNo results found for: how?"
    );
}

#[test]
fn a_store_that_cannot_be_opened_is_told() {
    let mut run = begun();
    let failed = RetrievalEvent::StoreFailed { error: "locked".to_string() };
    assert_eq!(
        replied(step(&mut run, failed)),
        "Error: could not open index database: locked"
    );
}
