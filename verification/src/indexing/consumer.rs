//! The task that works off index triggers, one after the other.
use vstd::prelude::*;

use crate::indexing::pipeline::IndexPipelineStats;
use crate::indexing::StatusMap;

verus! {

// ─── The consumer ───

/// What the consumer waits for. During a run it keeps the counts that the status
/// had before: the files in the index and those on disk.
#[derive(Clone, Copy, Debug, PartialEq, Eq, Structural)]
pub enum ConsumerState {
    /// For a trigger.
    Waiting,
    /// For the embedding client.
    Client { before: IndexPipelineStats },
    /// For the store of the repository.
    Store { before: IndexPipelineStats },
    /// For the end of the pipeline run.
    Running { before: IndexPipelineStats },
}

/// What happened. A failure tells how many files are in the index and on disk,
/// where that could be found out.
pub enum ConsumerEvent {
    /// A trigger came; `has_keys` tells whether embedding keys are configured.
    Triggered { has_keys: bool },
    ClientReady,
    ClientFailed { error: String, counts: Option<IndexPipelineStats> },
    StoreReady,
    StoreFailed { error: String },
    RunFinished { stats: IndexPipelineStats, now: String },
    RunFailed { error: String, counts: Option<IndexPipelineStats> },
}

/// What the consumer does next.
#[derive(Clone, Copy, Debug, PartialEq, Eq, Structural)]
pub enum ConsumerAction {
    MakeClient,
    OpenStore,
    RunPipeline,
    /// Keep the time of the run in the store, then take the next trigger.
    PersistTime,
    TakeTrigger,
}

/// The event is one that the consumer waits for.
pub open spec fn is_expected(state: ConsumerState, event: ConsumerEvent) -> bool {
    match event {
        ConsumerEvent::Triggered { .. } => state is Waiting,
        ConsumerEvent::ClientReady => state is Client,
        ConsumerEvent::ClientFailed { .. } => state is Client,
        ConsumerEvent::StoreReady => state is Store,
        ConsumerEvent::StoreFailed { .. } => state is Store,
        ConsumerEvent::RunFinished { .. } => state is Running,
        ConsumerEvent::RunFailed { .. } => state is Running,
    }
}

/// Whether the consumer waits for such an event.
pub fn expects(state: ConsumerState, event: &ConsumerEvent) -> (r: bool)
    ensures
        r == is_expected(state, *event),
{
    match (state, event) {
        (ConsumerState::Waiting, ConsumerEvent::Triggered { .. }) => true,
        (ConsumerState::Client { .. }, ConsumerEvent::ClientReady) => true,
        (ConsumerState::Client { .. }, ConsumerEvent::ClientFailed { .. }) => true,
        (ConsumerState::Store { .. }, ConsumerEvent::StoreReady) => true,
        (ConsumerState::Store { .. }, ConsumerEvent::StoreFailed { .. }) => true,
        (ConsumerState::Running { .. }, ConsumerEvent::RunFinished { .. }) => true,
        (ConsumerState::Running { .. }, ConsumerEvent::RunFailed { .. }) => true,
        _ => false,
    }
}

/// The counts of a status.
pub open spec fn counts_of(status: crate::indexing::StatusView) -> IndexPipelineStats {
    IndexPipelineStats { indexed_files: status.indexed_files, total_files: status.total_files }
}

/// The counts before the run that goes on; those of the status where none does.
pub open spec fn counts_before(
    state: ConsumerState,
    status: crate::indexing::StatusView,
) -> IndexPipelineStats {
    match state {
        ConsumerState::Waiting => counts_of(status),
        ConsumerState::Client { before } => before,
        ConsumerState::Store { before } => before,
        ConsumerState::Running { before } => before,
    }
}

/// What the consumer waits for after an event, and what it does first. Without
/// embedding keys no client is made; any failure ends the run.
pub open spec fn after(
    state: ConsumerState,
    event: ConsumerEvent,
    status: crate::indexing::StatusView,
) -> (ConsumerState, ConsumerAction) {
    let before = counts_before(state, status);
    match event {
        ConsumerEvent::Triggered { has_keys } => if has_keys {
            (ConsumerState::Client { before }, ConsumerAction::MakeClient)
        } else {
            (ConsumerState::Store { before }, ConsumerAction::OpenStore)
        },
        ConsumerEvent::ClientReady => (ConsumerState::Store { before }, ConsumerAction::OpenStore),
        ConsumerEvent::StoreReady => (
            ConsumerState::Running { before },
            ConsumerAction::RunPipeline,
        ),
        ConsumerEvent::RunFinished { .. } => (ConsumerState::Waiting, ConsumerAction::PersistTime),
        ConsumerEvent::ClientFailed { .. } => (ConsumerState::Waiting, ConsumerAction::TakeTrigger),
        ConsumerEvent::StoreFailed { .. } => (ConsumerState::Waiting, ConsumerAction::TakeTrigger),
        ConsumerEvent::RunFailed { .. } => (ConsumerState::Waiting, ConsumerAction::TakeTrigger),
    }
}

/// The status after a failure: the counts that were found out, or else those
/// from before the run.
pub open spec fn failed_with(
    status: crate::indexing::StatusView,
    error: Seq<char>,
    counts: Option<IndexPipelineStats>,
    before: IndexPipelineStats,
) -> crate::indexing::StatusView {
    match counts {
        Some(c) => status.failed(error, c.indexed_files, c.total_files),
        None => status.failed(error, before.indexed_files, before.total_files),
    }
}

/// The status of the repository after an event.
pub open spec fn status_after(
    state: ConsumerState,
    status: crate::indexing::StatusView,
    event: ConsumerEvent,
) -> crate::indexing::StatusView {
    let before = counts_before(state, status);
    match event {
        ConsumerEvent::Triggered { .. } => status.started(),
        ConsumerEvent::ClientReady => status,
        ConsumerEvent::StoreReady => status,
        ConsumerEvent::ClientFailed { error, counts } => failed_with(
            status,
            error@,
            counts,
            before,
        ),
        ConsumerEvent::StoreFailed { error } => failed_with(status, error@, None, before),
        ConsumerEvent::RunFailed { error, counts } => failed_with(status, error@, counts, before),
        ConsumerEvent::RunFinished { stats, now } => status.finished(
            stats.indexed_files,
            stats.total_files,
            now@,
        ),
    }
}

fn before_run(state: ConsumerState, repo: &str, statuses: &StatusMap) -> (r: IndexPipelineStats)
    ensures
        r == counts_before(state, statuses.at(repo@)),
{
    match state {
        ConsumerState::Waiting => statuses.counts(repo),
        ConsumerState::Client { before } => before,
        ConsumerState::Store { before } => before,
        ConsumerState::Running { before } => before,
    }
}

/// Takes an event about a repository: brings its status up to date and says what
/// comes next.
pub fn consumer_step(
    state: ConsumerState,
    event: ConsumerEvent,
    repo: &str,
    statuses: &mut StatusMap,
) -> (r: (ConsumerState, ConsumerAction))
    requires
        is_expected(state, event),
    ensures
        r == after(state, event, old(statuses).at(repo@)),
        event is ClientReady || event is StoreReady ==> *final(statuses) == *old(statuses),
        !(event is ClientReady || event is StoreReady) ==> final(statuses).is_update(
            *old(statuses),
            repo@,
            status_after(state, old(statuses).at(repo@), event),
        ),
{
    let before = before_run(state, repo, statuses);
    match event {
        ConsumerEvent::Triggered { has_keys } => {
            statuses.start(repo);
            if has_keys {
                (ConsumerState::Client { before }, ConsumerAction::MakeClient)
            } else {
                (ConsumerState::Store { before }, ConsumerAction::OpenStore)
            }
        },
        ConsumerEvent::ClientReady => (ConsumerState::Store { before }, ConsumerAction::OpenStore),
        ConsumerEvent::StoreReady => (
            ConsumerState::Running { before },
            ConsumerAction::RunPipeline,
        ),
        ConsumerEvent::ClientFailed { error, counts } => {
            let told = match counts {
                Some(c) => c,
                None => before,
            };
            statuses.fail(repo, error, told);
            (ConsumerState::Waiting, ConsumerAction::TakeTrigger)
        },
        ConsumerEvent::StoreFailed { error } => {
            statuses.fail(repo, error, before);
            (ConsumerState::Waiting, ConsumerAction::TakeTrigger)
        },
        ConsumerEvent::RunFailed { error, counts } => {
            let told = match counts {
                Some(c) => c,
                None => before,
            };
            statuses.fail(repo, error, told);
            (ConsumerState::Waiting, ConsumerAction::TakeTrigger)
        },
        ConsumerEvent::RunFinished { stats, now } => {
            statuses.finish(repo, stats, now);
            (ConsumerState::Waiting, ConsumerAction::PersistTime)
        },
    }
}

// ─── The laws ───

/// A repository is marked as being indexed exactly while a run of it goes on:
/// whatever happens, it is so after the next event too.
pub proof fn law_indexing_exactly_while_running(
    state: ConsumerState,
    status: crate::indexing::StatusView,
    event: ConsumerEvent,
)
    requires
        is_expected(state, event),
        status.state == crate::indexing::IndexState::Indexing <==> !(state is Waiting),
    ensures
        status_after(state, status, event).state == crate::indexing::IndexState::Indexing
            <==> !(after(state, event, status).0 is Waiting),
{
}

/// A failed run keeps the time of the last good one, and a good run leaves no
/// error behind.
pub proof fn law_failure_keeps_last_time(
    state: ConsumerState,
    status: crate::indexing::StatusView,
    event: ConsumerEvent,
)
    ensures
        !(event is RunFinished) ==> status_after(state, status, event).last_indexed_at
            == status.last_indexed_at,
        event is RunFinished ==> status_after(state, status, event).error is None,
        event is ClientFailed || event is StoreFailed || event is RunFailed ==> status_after(
            state,
            status,
            event,
        ).error is Some,
{
}

/// While no run goes on, the counts tell of the index and the disk, never of the
/// progress of a run. A run that ends sets them to what was found out at its
/// end; where nothing could be, they are what they were before the run, through
/// all of which they are kept.
pub proof fn law_counts_outlive_a_failed_run(
    state: ConsumerState,
    status: crate::indexing::StatusView,
    event: ConsumerEvent,
)
    requires
        is_expected(state, event),
    ensures
        !(after(state, event, status).0 is Waiting) ==> counts_before(
            after(state, event, status).0,
            status_after(state, status, event),
        ) == counts_before(state, status),
        after(state, event, status).0 is Waiting ==> counts_of(status_after(state, status, event))
            == (match event {
            ConsumerEvent::RunFinished { stats, .. } => stats,
            ConsumerEvent::ClientFailed { counts: Some(c), .. } => c,
            ConsumerEvent::RunFailed { counts: Some(c), .. } => c,
            _ => counts_before(state, status),
        }),
{
}

// ─── Loading ───

/// What could be loaded, repository after repository.
pub open spec fn loaded<E>(loads: Seq<Result<Seq<E>, ()>>) -> Seq<E>
    decreases loads.len(),
{
    if loads.len() == 0 {
        Seq::empty()
    } else {
        match loads.last() {
            Ok(items) => loaded(loads.drop_last()) + items,
            Err(_) => loaded(loads.drop_last()),
        }
    }
}

pub open spec fn load_view<E>(load: Result<Vec<E>, String>) -> Result<Seq<E>, ()> {
    match load {
        Ok(items) => Ok(items@),
        Err(_) => Err(()),
    }
}

pub open spec fn load_views<E>(loads: Seq<Result<Vec<E>, String>>) -> Seq<Result<Seq<E>, ()>> {
    Seq::new(loads.len(), |i: int| load_view(loads[i]))
}

/// Merges what was loaded of each repository into one. A repository that could
/// not be opened or loaded is left out; the others are still there.
pub fn merge_loaded<E>(loads: Vec<Result<Vec<E>, String>>) -> (r: Vec<E>)
    ensures
        r@ == loaded(load_views(loads@)),
{
    let ghost all = load_views(loads@);
    let ghost given = loads@;
    let mut rest = loads;
    let mut tail: Vec<E> = Vec::new();
    assert(all.take(rest@.len() as int) =~= all);
    assert(loaded(all) + tail@ =~= loaded(all));
    while rest.len() > 0
        invariant
            all == load_views(given),
            rest@.len() <= given.len(),
            rest@ == given.take(rest@.len() as int),
            loaded(all) == loaded(all.take(rest@.len() as int)) + tail@,
        decreases rest@.len(),
    {
        let ghost n = rest@.len() as int;
        assert(all.take(n).drop_last() =~= all.take(n - 1));
        assert(all.take(n).last() == load_view(rest@.last()));
        let last = rest.pop().unwrap();
        assert(rest@ =~= given.take(n - 1));
        match last {
            Ok(items) => {
                let ghost before = tail@;
                let mut joined = items;
                joined.append(&mut tail);
                tail = joined;
                assert(loaded(all.take(n - 1)) + tail@ =~= loaded(all.take(n - 1)) + items@
                    + before);
            },
            Err(_) => {},
        }
    }
    assert(all.take(0) =~= Seq::empty());
    assert(loaded(all.take(0)) + tail@ =~= tail@);
    tail
}

/// Every item of every repository that could be loaded is there: the startup
/// makes all of them searchable, not just the first.
pub proof fn law_all_loads_are_merged<E>(loads: Seq<Result<Seq<E>, ()>>, i: int, k: int)
    requires
        0 <= i < loads.len(),
        loads[i] is Ok,
        0 <= k < loads[i]->Ok_0.len(),
    ensures
        loaded(loads).contains(loads[i]->Ok_0[k]),
    decreases loads.len(),
{
    let before = loaded(loads.drop_last());
    if i < loads.len() - 1 {
        assert(loads.drop_last()[i] == loads[i]);
        law_all_loads_are_merged(loads.drop_last(), i, k);
        let n = choose|n: int| 0 <= n < before.len() && before[n] == loads[i]->Ok_0[k];
        assert(loaded(loads)[n] == loads[i]->Ok_0[k]);
    } else {
        assert(loaded(loads)[before.len() + k] == loads[i]->Ok_0[k]);
    }
}

/// Nothing is merged twice: the sizes add up.
pub proof fn law_merged_size<E>(loads: Seq<Result<Seq<E>, ()>>)
    requires
        loads.len() > 0,
    ensures
        loaded(loads).len() == loaded(loads.drop_last()).len() + (match loads.last() {
            Ok(items) => items.len(),
            Err(_) => 0,
        }),
{
}

}
