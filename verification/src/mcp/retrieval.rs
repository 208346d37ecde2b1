//! One run of the codebase-retrieval tool: from the request to the answer, with
//! everything that has to be asked of the outside in between.
use vstd::prelude::*;

use crate::indexing::IndexState;
use crate::mcp::{
    failure_text, format_answer, plan_refresh, poll_step, validate_request, CodebaseRetrievalArgs,
    Poll, RetrievalFailure,
};
use crate::query::engine::CodeResult;

verus! {

/// What a run waits for.
#[derive(Clone, Copy, Debug, PartialEq, Eq, Structural)]
pub enum RetrievalState {
    /// For the store of the repository.
    Opening,
    /// For what is known of the index.
    Checking,
    /// For the next look at the status of the repository.
    Polling,
    /// For the embedding client.
    Client,
    /// For the results of the query.
    Querying,
    /// For nothing: the answer is given.
    Answered,
}

/// A run that was accepted.
#[derive(Debug)]
pub struct Retrieval {
    pub state: RetrievalState,
    pub repo: String,
    pub request: String,
    /// Whether there was usable data when the run began.
    pub is_fresh: bool,
    /// What the answer begins with.
    pub note: String,
}

/// What a [`Retrieval`] says.
pub struct RetrievalView {
    pub state: RetrievalState,
    pub repo: Seq<char>,
    pub request: Seq<char>,
    pub is_fresh: bool,
    pub note: Seq<char>,
}

impl View for Retrieval {
    type V = RetrievalView;

    open spec fn view(&self) -> RetrievalView {
        RetrievalView {
            state: self.state,
            repo: self.repo@,
            request: self.request@,
            is_fresh: self.is_fresh,
            note: self.note@,
        }
    }
}

/// What happened.
pub enum RetrievalEvent {
    StoreOpened,
    StoreFailed { error: String },
    /// What is known of the index: whether it is usable, whether its stamp can be
    /// read, and whether a run of it is in flight.
    Known { is_fresh: bool, has_stamp: bool, currently_indexing: bool },
    /// A look at the status of the repository.
    Looked { state: Option<IndexState>, error: Option<String>, deadline_passed: bool },
    ClientReady,
    ClientFailed { error: String },
    Found { results: Vec<CodeResult> },
    QueryFailed { error: String },
}

/// What the run does next.
#[derive(Debug)]
pub enum RetrievalAction {
    OpenStore,
    /// Ask the store and the status what is known of the index.
    CheckIndex,
    /// Sleep, then look at the status; trigger a run of the index before where
    /// `trigger` is set.
    Wait { trigger: bool },
    /// Make the embedding client; trigger a run of the index before where
    /// `trigger` is set.
    MakeClient { trigger: bool },
    RunQuery,
    Reply { text: String },
}

/// What a [`RetrievalAction`] says.
pub enum ActionView {
    OpenStore,
    CheckIndex,
    Wait(bool),
    MakeClient(bool),
    RunQuery,
    Reply(Seq<char>),
}

impl View for RetrievalAction {
    type V = ActionView;

    open spec fn view(&self) -> ActionView {
        match self {
            RetrievalAction::OpenStore => ActionView::OpenStore,
            RetrievalAction::CheckIndex => ActionView::CheckIndex,
            RetrievalAction::Wait { trigger } => ActionView::Wait(*trigger),
            RetrievalAction::MakeClient { trigger } => ActionView::MakeClient(*trigger),
            RetrievalAction::RunQuery => ActionView::RunQuery,
            RetrievalAction::Reply { text } => ActionView::Reply(text@),
        }
    }
}

/// A run begins with an accepted request and opens the store; a refused request
/// is answered at once.
pub open spec fn begun(
    request: Seq<char>,
    path: Seq<char>,
    repos: Seq<Seq<char>>,
    has_keys: bool,
) -> Result<RetrievalView, Seq<char>> {
    match crate::mcp::checked_request(path, repos, has_keys) {
        Ok(repo) => Ok(
            RetrievalView {
                state: RetrievalState::Opening,
                repo,
                request,
                is_fresh: false,
                note: Seq::empty(),
            },
        ),
        Err(text) => Err(text),
    }
}

/// Begins a run, whose first action is to open the store, or says why the
/// request is refused.
pub fn begin_retrieval(args: CodebaseRetrievalArgs, repos: &Vec<String>, has_keys: bool) -> (r:
    Result<Retrieval, String>)
    ensures
        match begun(
            args.information_request@,
            args.workspace_full_path@,
            crate::text::texts(repos@),
            has_keys,
        ) {
            Ok(run) => r matches Ok(made) && made@ == run,
            Err(text) => r matches Err(reply) && reply@ == text,
        },
{
    match validate_request(args.workspace_full_path.as_str(), repos, has_keys) {
        Ok(repo) => {
            let note = String::new();
            assert(note@ =~= Seq::<char>::empty());
            Ok(
                Retrieval {
                    state: RetrievalState::Opening,
                    repo,
                    request: args.information_request,
                    is_fresh: false,
                    note,
                },
            )
        },
        Err(text) => Err(text),
    }
}

/// The event is one that the run waits for.
pub open spec fn is_expected(state: RetrievalState, event: RetrievalEvent) -> bool {
    match event {
        RetrievalEvent::StoreOpened => state == RetrievalState::Opening,
        RetrievalEvent::StoreFailed { .. } => state == RetrievalState::Opening,
        RetrievalEvent::Known { .. } => state == RetrievalState::Checking,
        RetrievalEvent::Looked { .. } => state == RetrievalState::Polling,
        RetrievalEvent::ClientReady => state == RetrievalState::Client,
        RetrievalEvent::ClientFailed { .. } => state == RetrievalState::Client,
        RetrievalEvent::Found { .. } => state == RetrievalState::Querying,
        RetrievalEvent::QueryFailed { .. } => state == RetrievalState::Querying,
    }
}

/// Whether the run waits for such an event.
pub fn expects(state: RetrievalState, event: &RetrievalEvent) -> (r: bool)
    ensures
        r == is_expected(state, *event),
{
    match event {
        RetrievalEvent::StoreOpened => state == RetrievalState::Opening,
        RetrievalEvent::StoreFailed { .. } => state == RetrievalState::Opening,
        RetrievalEvent::Known { .. } => state == RetrievalState::Checking,
        RetrievalEvent::Looked { .. } => state == RetrievalState::Polling,
        RetrievalEvent::ClientReady => state == RetrievalState::Client,
        RetrievalEvent::ClientFailed { .. } => state == RetrievalState::Client,
        RetrievalEvent::Found { .. } => state == RetrievalState::Querying,
        RetrievalEvent::QueryFailed { .. } => state == RetrievalState::Querying,
    }
}

/// The run with its answer: the note, then the text.
pub open spec fn answered(run: RetrievalView, text: Seq<char>) -> (RetrievalView, ActionView) {
    (
        RetrievalView { state: RetrievalState::Answered, ..run },
        ActionView::Reply(run.note + text),
    )
}

/// A run after an event, and what it does next.
pub open spec fn after(run: RetrievalView, event: RetrievalEvent) -> (RetrievalView, ActionView) {
    match event {
        RetrievalEvent::StoreOpened => (
            RetrievalView { state: RetrievalState::Checking, ..run },
            ActionView::CheckIndex,
        ),
        RetrievalEvent::StoreFailed { error } => answered(
            run,
            crate::mcp::failure_prefix(RetrievalFailure::OpenStore) + error@,
        ),
        RetrievalEvent::Known { is_fresh, has_stamp, currently_indexing } => {
            let refresh = crate::mcp::refresh_of(currently_indexing, is_fresh, has_stamp);
            if refresh.wait {
                (
                    RetrievalView { state: RetrievalState::Polling, is_fresh, ..run },
                    ActionView::Wait(refresh.trigger),
                )
            } else {
                (
                    RetrievalView { state: RetrievalState::Client, is_fresh, ..run },
                    ActionView::MakeClient(refresh.trigger),
                )
            }
        },
        RetrievalEvent::Looked { state, error, deadline_passed } => {
            match crate::mcp::polled(
                state,
                crate::text::opt_text(error),
                deadline_passed,
                run.is_fresh,
            ) {
                crate::mcp::PollView::Query(note) => (
                    RetrievalView { state: RetrievalState::Client, note, ..run },
                    ActionView::MakeClient(false),
                ),
                crate::mcp::PollView::Reply(text) => answered(run, text),
                crate::mcp::PollView::Wait => (run, ActionView::Wait(false)),
            }
        },
        RetrievalEvent::ClientReady => (
            RetrievalView { state: RetrievalState::Querying, ..run },
            ActionView::RunQuery,
        ),
        RetrievalEvent::ClientFailed { error } => answered(
            run,
            crate::mcp::failure_prefix(RetrievalFailure::MakeClient) + error@,
        ),
        RetrievalEvent::Found { results } => answered(
            run,
            crate::mcp::answer_text(
                run.request,
                crate::query::engine::result_views(results@),
            ),
        ),
        RetrievalEvent::QueryFailed { error } => answered(
            run,
            crate::mcp::failure_prefix(RetrievalFailure::RunQuery) + error@,
        ),
    }
}

fn reply(run: &mut Retrieval, text: &str) -> (r: RetrievalAction)
    ensures
        (final(run)@, r@) == answered(old(run)@, text@),
{
    run.state = RetrievalState::Answered;
    let mut out = run.note.clone();
    out.append(text);
    RetrievalAction::Reply { text: out }
}

/// Takes an event and says what comes next. The results of the query are
/// answered; whatever goes wrong is answered too, in words.
pub fn retrieval_step(run: &mut Retrieval, event: RetrievalEvent) -> (r: RetrievalAction)
    requires
        is_expected(old(run).state, event),
    ensures
        (final(run)@, r@) == after(old(run)@, event),
{
    match event {
        RetrievalEvent::StoreOpened => {
            run.state = RetrievalState::Checking;
            RetrievalAction::CheckIndex
        },
        RetrievalEvent::StoreFailed { error } => {
            let text = failure_text(RetrievalFailure::OpenStore, error.as_str());
            reply(run, text.as_str())
        },
        RetrievalEvent::Known { is_fresh, has_stamp, currently_indexing } => {
            let refresh = plan_refresh(currently_indexing, is_fresh, has_stamp);
            run.is_fresh = is_fresh;
            if refresh.wait {
                run.state = RetrievalState::Polling;
                RetrievalAction::Wait { trigger: refresh.trigger }
            } else {
                run.state = RetrievalState::Client;
                RetrievalAction::MakeClient { trigger: refresh.trigger }
            }
        },
        RetrievalEvent::Looked { state, error, deadline_passed } => {
            match poll_step(state, &error, deadline_passed, run.is_fresh) {
                Poll::Query { note } => {
                    run.state = RetrievalState::Client;
                    run.note = note;
                    RetrievalAction::MakeClient { trigger: false }
                },
                Poll::Reply { text } => reply(run, text.as_str()),
                Poll::Wait => RetrievalAction::Wait { trigger: false },
            }
        },
        RetrievalEvent::ClientReady => {
            run.state = RetrievalState::Querying;
            RetrievalAction::RunQuery
        },
        RetrievalEvent::ClientFailed { error } => {
            let text = failure_text(RetrievalFailure::MakeClient, error.as_str());
            reply(run, text.as_str())
        },
        RetrievalEvent::Found { results } => {
            let text = format_answer(run.request.as_str(), &results);
            reply(run, text.as_str())
        },
        RetrievalEvent::QueryFailed { error } => {
            let text = failure_text(RetrievalFailure::RunQuery, error.as_str());
            reply(run, text.as_str())
        },
    }
}

// ─── The laws ───

/// How far a run has come.
pub open spec fn stage(state: RetrievalState) -> int {
    match state {
        RetrievalState::Opening => 0,
        RetrievalState::Checking => 1,
        RetrievalState::Polling => 2,
        RetrievalState::Client => 3,
        RetrievalState::Querying => 4,
        RetrievalState::Answered => 5,
    }
}

/// Every run comes to an answer: each event brings it on, but for a look at a
/// run of the index that goes on before the deadline; and the answer is given
/// exactly when nothing is waited for any more.
pub proof fn law_every_run_is_answered(run: RetrievalView, event: RetrievalEvent)
    requires
        is_expected(run.state, event),
    ensures
        stage(after(run, event).0.state) > stage(run.state) || (event matches
            RetrievalEvent::Looked { deadline_passed, .. } && !deadline_passed && after(run, event)
            == (run, ActionView::Wait(false))),
        after(run, event).1 is Reply <==> after(run, event).0.state == RetrievalState::Answered,
{
}

/// A run keeps its repository and its request, and from the first look on what
/// it knows of the index.
pub proof fn law_runs_keep_to_their_request(run: RetrievalView, event: RetrievalEvent)
    requires
        is_expected(run.state, event),
    ensures
        after(run, event).0.repo == run.repo,
        after(run, event).0.request == run.request,
        !(event is Known) ==> after(run, event).0.is_fresh == run.is_fresh,
{
}

/// Usable data is never refused: once the index is known to be usable, the
/// answer comes from the query, or tells why the query could not be run.
pub proof fn law_usable_index_is_queried(run: RetrievalView, event: RetrievalEvent)
    requires
        is_expected(run.state, event),
        event is Known || event is Looked,
        event is Looked ==> run.is_fresh,
        event matches RetrievalEvent::Known { is_fresh, .. } ==> is_fresh,
    ensures
        !(after(run, event).1 is Reply),
        after(run, event).0.is_fresh,
{
}

/// A run of the index is triggered at most once, when the state of the index is
/// looked up, and never while one is in flight.
pub proof fn law_triggers_once(run: RetrievalView, event: RetrievalEvent)
    requires
        is_expected(run.state, event),
    ensures
        after(run, event).1 == ActionView::Wait(true) || after(run, event).1
            == ActionView::MakeClient(true) ==> (event matches RetrievalEvent::Known {
            currently_indexing,
            ..
        } && !currently_indexing),
        event is Known ==> run.state == RetrievalState::Checking && stage(
            after(run, event).0.state,
        ) > stage(RetrievalState::Checking),
{
}

}
