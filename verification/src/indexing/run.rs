//! The course of one run of the pipeline: what it does next, after each thing
//! that happens.
use vstd::prelude::*;

use crate::indexing::pipeline::{
    change_step, collect_results, first_step, split_changes, ChangeSet, Collected, FileChange,
    IndexPipelineStats, RunStep,
};
use crate::indexing::write_plan::{plan_full_rebuild, plan_incremental, FileStat, RunPlan};
use crate::parsing::chunker::Chunk;
use crate::parsing::symbols::QualifiedSymbol;
use crate::parsing::ParseResult;

verus! {

/// What a run indexes.
pub enum Work {
    /// Everything, after clearing the index.
    All,
    /// What changed.
    Changed(ChangeSet),
}

/// What a run waits for.
pub enum RunState {
    /// For what is stored of the files, and for the files on disk.
    Meta { changes: Option<Vec<FileChange>>, rebuild: bool },
    /// For the changes.
    Changes { stored_files: usize, total_files: u64 },
    /// For what is in the files, and for the symbols of the store.
    Parse { work: Work, total_files: u64 },
    /// For the embeddings, and for the files as they are on disk.
    Embed { work: Work, found: Collected, stored: Vec<QualifiedSymbol>, total_files: u64 },
    /// For the end of the writes.
    Write { total_files: u64 },
    /// For the number of files in the index.
    Count { total_files: u64 },
    /// For nothing.
    Ended,
}

/// What happened.
pub enum RunEvent {
    MetaRead { stored_files: usize, total_files: u64 },
    Detected { changes: Vec<FileChange> },
    Parsed { results: Vec<ParseResult>, stored: Vec<QualifiedSymbol> },
    /// So many embeddings came back, in the order of the texts.
    Embedded { embeddings: usize, stats: Vec<FileStat> },
    Written,
    Counted { indexed_files: u64 },
    Failed { error: String },
}

/// What a run does next.
pub enum RunAction {
    /// Compare the files with what is stored of them.
    DetectChanges,
    /// Parse all files.
    ParseAll,
    /// Parse these files, and read the symbols of the store.
    ParseChanged { files: Vec<String> },
    /// Embed these texts, of which each file has the given number.
    Embed { texts: Vec<String>, chunk_counts: Vec<usize> },
    /// Write to the store and to the vector index, from which a rebuild first
    /// removes all that is of the repository.
    Write { plan: RunPlan, rebuild: bool },
    /// Count the files in the index.
    Count,
    Finish { stats: IndexPipelineStats },
    Fail { error: String },
}

/// The event is one that the run waits for. Anything but a run that has ended
/// can fail.
pub open spec fn is_expected(state: RunState, event: RunEvent) -> bool {
    match event {
        RunEvent::MetaRead { .. } => state is Meta,
        RunEvent::Detected { .. } => state is Changes,
        RunEvent::Parsed { .. } => state is Parse,
        RunEvent::Embedded { .. } => state is Embed,
        RunEvent::Written => state is Write,
        RunEvent::Counted { .. } => state is Count,
        RunEvent::Failed { .. } => !(state is Ended),
    }
}

/// Whether the run waits for such an event.
pub fn expects(state: &RunState, event: &RunEvent) -> (r: bool)
    ensures
        r == is_expected(*state, *event),
{
    match (state, event) {
        (RunState::Meta { .. }, RunEvent::MetaRead { .. }) => true,
        (RunState::Changes { .. }, RunEvent::Detected { .. }) => true,
        (RunState::Parse { .. }, RunEvent::Parsed { .. }) => true,
        (RunState::Embed { .. }, RunEvent::Embedded { .. }) => true,
        (RunState::Write { .. }, RunEvent::Written) => true,
        (RunState::Count { .. }, RunEvent::Counted { .. }) => true,
        (RunState::Ended, _) => false,
        (_, RunEvent::Failed { .. }) => true,
        _ => false,
    }
}

// ─── What comes next ───

/// The run is over, with these counts.
pub open spec fn finishes(r: (RunState, RunAction), indexed_files: u64, total_files: u64) -> bool {
    &&& r.0 is Ended
    &&& r.1 matches RunAction::Finish { stats } && stats == (IndexPipelineStats {
        indexed_files,
        total_files,
    })
}

/// The set is that of the given changes.
pub open spec fn is_set_of(
    set: ChangeSet,
    changes: Seq<crate::indexing::pipeline::ChangeView>,
) -> bool {
    let (gone, kept) = (
        crate::indexing::pipeline::paths_of(changes, true),
        crate::indexing::pipeline::paths_of(changes, false),
    );
    &&& crate::text::texts(set.to_process@) == kept
    &&& crate::text::texts(set.to_delete@) == gone
    &&& crate::text::texts(set.all_affected@) == gone + kept
}

/// The run goes on with the changes: it ends where there is none, and otherwise
/// parses the files that are not gone.
pub open spec fn goes_on(
    r: (RunState, RunAction),
    changes: Seq<crate::indexing::pipeline::ChangeView>,
    stored_files: usize,
    total_files: u64,
) -> bool {
    if changes.len() == 0 {
        finishes(r, stored_files as u64, total_files)
    } else {
        &&& r.0 matches RunState::Parse { work: Work::Changed(set), total_files: t } && is_set_of(
            set,
            changes,
        ) && t == total_files
        &&& r.1 matches RunAction::ParseChanged { files } && crate::text::texts(files@)
            == crate::indexing::pipeline::paths_of(changes, false)
    }
}

/// The contents of chunks, in their order.
pub open spec fn contents_of(
    chunks: Seq<crate::parsing::chunker::ChunkView>,
) -> Seq<Seq<char>> {
    Seq::new(chunks.len(), |i: int| chunks[i].content)
}

/// What was found is all that the files hold.
pub open spec fn is_all_of(found: Collected, results: Seq<ParseResult>) -> bool {
    &&& crate::parsing::symbols::symbol_views(found.symbols@)
        == crate::indexing::pipeline::symbols_of(results)
    &&& crate::parsing::relations::edge_views(found.edges@)
        == crate::indexing::pipeline::edges_of(results)
    &&& crate::parsing::chunker::chunk_views(found.chunks@)
        == crate::indexing::pipeline::chunks_of(results)
}

/// The writes are those of the work.
pub open spec fn is_plan_of(
    plan: RunPlan,
    repo: Seq<char>,
    work: Work,
    found: Collected,
    stored: Seq<QualifiedSymbol>,
    embeddings: usize,
    stats: Seq<FileStat>,
) -> bool {
    &&& crate::indexing::pipeline::are_vectors_of(
        plan.vectors@,
        found.chunks@,
        embeddings as nat,
    )
    &&& match work {
        Work::All => {
            &&& crate::indexing::write_plan::step_views(plan.steps@)
                == crate::indexing::write_plan::full_rebuild_of(
                repo,
                found,
                embeddings as nat,
                stats,
            )
            &&& plan.removed@.len() == 0
        },
        Work::Changed(set) => {
            &&& crate::indexing::write_plan::step_views(plan.steps@)
                == crate::indexing::write_plan::incremental_of(
                repo,
                crate::text::texts(set.to_delete@),
                crate::text::texts(set.all_affected@),
                found,
                crate::parsing::symbols::qualified_views(stored),
                embeddings as nat,
                stats,
            )
            &&& crate::text::texts(plan.removed@) == crate::text::texts(set.all_affected@)
        },
    }
}

/// What the run waits for after an event, and what it does first.
pub open spec fn follows(
    repo: Seq<char>,
    state: RunState,
    event: RunEvent,
    r: (RunState, RunAction),
) -> bool {
    match (state, event) {
        (_, RunEvent::Failed { error }) => {
            &&& r.0 is Ended
            &&& r.1 matches RunAction::Fail { error: told } && told@ == error@
        },
        (
            RunState::Meta { changes, rebuild },
            RunEvent::MetaRead { stored_files, total_files },
        ) => if stored_files == 0 || rebuild {
            &&& r.0 matches RunState::Parse { work, total_files: t } && work is All && t
                == total_files
            &&& r.1 is ParseAll
        } else {
            match changes {
                None => {
                    &&& r.0 == (RunState::Changes { stored_files, total_files })
                    &&& r.1 is DetectChanges
                },
                Some(list) => goes_on(
                    r,
                    crate::indexing::pipeline::change_views(list@),
                    stored_files,
                    total_files,
                ),
            }
        },
        (RunState::Changes { stored_files, total_files }, RunEvent::Detected { changes }) =>
            goes_on(
            r,
            crate::indexing::pipeline::change_views(changes@),
            stored_files,
            total_files,
        ),
        (RunState::Parse { work, total_files }, RunEvent::Parsed { results, stored }) => {
            &&& r.0 matches RunState::Embed { work: w, found, stored: s, total_files: t } && w
                == work && s == stored && t == total_files && is_all_of(found, results@)
            &&& r.1 matches RunAction::Embed { texts, chunk_counts } && crate::text::texts(texts@)
                == contents_of(crate::indexing::pipeline::chunks_of(results@)) && chunk_counts@
                == Seq::new(results@.len(), |i: int| results@[i].chunks@.len() as usize)
        },
        (
            RunState::Embed { work, found, stored, total_files },
            RunEvent::Embedded { embeddings, stats },
        ) => {
            &&& r.0 == (RunState::Write { total_files })
            &&& r.1 matches RunAction::Write { plan, rebuild } && rebuild == (work is All)
                && is_plan_of(plan, repo, work, found, stored@, embeddings, stats@)
        },
        (RunState::Write { total_files }, RunEvent::Written) => {
            &&& r.0 == (RunState::Count { total_files })
            &&& r.1 is Count
        },
        (RunState::Count { total_files }, RunEvent::Counted { indexed_files }) => finishes(
            r,
            indexed_files,
            total_files,
        ),
        _ => true,
    }
}

fn chunk_texts(chunks: &Vec<Chunk>) -> (r: Vec<String>)
    ensures
        crate::text::texts(r@) == contents_of(crate::parsing::chunker::chunk_views(chunks@)),
{
    let ghost all = contents_of(crate::parsing::chunker::chunk_views(chunks@));
    let mut out: Vec<String> = Vec::new();
    let mut i: usize = 0;
    assert(crate::text::texts(out@) =~= all.take(0));
    while i < chunks.len()
        invariant
            all == contents_of(crate::parsing::chunker::chunk_views(chunks@)),
            i <= chunks@.len(),
            crate::text::texts(out@) == all.take(i as int),
        decreases chunks@.len() - i,
    {
        let ghost before = crate::text::texts(out@);
        out.push(chunks[i].content.clone());
        assert(crate::text::texts(out@) =~= before.push(all[i as int]));
        assert(all.take(i + 1) =~= all.take(i as int).push(all[i as int]));
        i = i + 1;
    }
    assert(all.take(i as int) =~= all);
    out
}

fn copy_counts(counts: &Vec<usize>) -> (r: Vec<usize>)
    ensures
        r@ == counts@,
{
    let mut out: Vec<usize> = Vec::new();
    let mut i: usize = 0;
    while i < counts.len()
        invariant
            i <= counts@.len(),
            out@ == counts@.take(i as int),
        decreases counts@.len() - i,
    {
        out.push(counts[i]);
        assert(counts@.take(i + 1) =~= counts@.take(i as int).push(counts@[i as int]));
        i = i + 1;
    }
    assert(counts@.take(i as int) =~= counts@);
    out
}

fn go_on(changes: &Vec<FileChange>, stored_files: usize, total_files: u64) -> (r: (
    RunState,
    RunAction,
))
    ensures
        goes_on(
            r,
            crate::indexing::pipeline::change_views(changes@),
            stored_files,
            total_files,
        ),
{
    if change_step(changes) == RunStep::Done {
        let stats = IndexPipelineStats { indexed_files: stored_files as u64, total_files };
        return (RunState::Ended, RunAction::Finish { stats });
    }
    let set = split_changes(changes);
    let files = crate::text::clone_texts(&set.to_process);
    (
        RunState::Parse { work: Work::Changed(set), total_files },
        RunAction::ParseChanged { files },
    )
}

/// Takes an event of a run and says what comes next.
pub fn run_step(repo: &str, state: RunState, event: RunEvent) -> (r: (RunState, RunAction))
    requires
        is_expected(state, event),
    ensures
        follows(repo@, state, event, r),
{
    match (state, event) {
        (_, RunEvent::Failed { error }) => (RunState::Ended, RunAction::Fail { error }),
        (
            RunState::Meta { changes, rebuild },
            RunEvent::MetaRead { stored_files, total_files },
        ) => {
            if first_step(stored_files, rebuild, &changes) == RunStep::FullRebuild {
                return (
                    RunState::Parse { work: Work::All, total_files },
                    RunAction::ParseAll,
                );
            }
            match changes {
                None => (
                    RunState::Changes { stored_files, total_files },
                    RunAction::DetectChanges,
                ),
                Some(list) => go_on(&list, stored_files, total_files),
            }
        },
        (RunState::Changes { stored_files, total_files }, RunEvent::Detected { changes }) => go_on(
            &changes,
            stored_files,
            total_files,
        ),
        (RunState::Parse { work, total_files }, RunEvent::Parsed { results, stored }) => {
            let found = collect_results(results);
            let texts = chunk_texts(&found.chunks);
            let chunk_counts = copy_counts(&found.chunk_counts);
            (
                RunState::Embed { work, found, stored, total_files },
                RunAction::Embed { texts, chunk_counts },
            )
        },
        (
            RunState::Embed { work, found, stored, total_files },
            RunEvent::Embedded { embeddings, stats },
        ) => match work {
            Work::All => {
                let plan = plan_full_rebuild(repo, found, embeddings, &stats);
                (RunState::Write { total_files }, RunAction::Write { plan, rebuild: true })
            },
            Work::Changed(set) => {
                let plan = plan_incremental(repo, set, found, stored, embeddings, &stats);
                (RunState::Write { total_files }, RunAction::Write { plan, rebuild: false })
            },
        },
        (RunState::Write { total_files }, RunEvent::Written) => (
            RunState::Count { total_files },
            RunAction::Count,
        ),
        (RunState::Count { total_files }, RunEvent::Counted { indexed_files }) => (
            RunState::Ended,
            RunAction::Finish { stats: IndexPipelineStats { indexed_files, total_files } },
        ),
        _ => vstd::pervasive::unreached(),
    }
}

// ─── The laws ───

/// How far a run has come.
pub open spec fn stage(state: RunState) -> int {
    match state {
        RunState::Meta { .. } => 0,
        RunState::Changes { .. } => 1,
        RunState::Parse { .. } => 2,
        RunState::Embed { .. } => 3,
        RunState::Write { .. } => 4,
        RunState::Count { .. } => 5,
        RunState::Ended => 6,
    }
}

/// A run from its beginning: each event is one that is waited for, and is
/// followed by what comes next.
pub open spec fn is_run(
    repo: Seq<char>,
    states: Seq<RunState>,
    events: Seq<RunEvent>,
    actions: Seq<RunAction>,
) -> bool {
    &&& states.len() == events.len() + 1
    &&& actions.len() == events.len()
    &&& states[0] is Meta
    &&& forall|i: int|
        0 <= i < events.len() ==> is_expected(states[i], #[trigger] events[i]) && follows(
            repo,
            states[i],
            events[i],
            (states[i + 1], actions[i]),
        )
}

proof fn lemma_stages_ascend(
    repo: Seq<char>,
    states: Seq<RunState>,
    events: Seq<RunEvent>,
    actions: Seq<RunAction>,
    i: int,
    j: int,
)
    requires
        is_run(repo, states, events, actions),
        0 <= i < j < states.len(),
    ensures
        stage(states[i]) < stage(states[j]),
    decreases j - i,
{
    assert(is_expected(states[j - 1], events[j - 1]));
    if i < j - 1 {
        lemma_stages_ascend(repo, states, events, actions, i, j - 1);
    }
}

/// Embedding precedes every write, and a run writes once at most: nothing is
/// written but upon the embeddings.
pub proof fn law_embedding_precedes_writes(
    repo: Seq<char>,
    states: Seq<RunState>,
    events: Seq<RunEvent>,
    actions: Seq<RunAction>,
    i: int,
    j: int,
)
    requires
        is_run(repo, states, events, actions),
        0 <= i < actions.len(),
        0 <= j < actions.len(),
    ensures
        actions[i] is Write ==> events[i] is Embedded,
        actions[i] is Write && actions[j] is Write ==> i == j,
{
    assert(is_expected(states[i], events[i]));
    assert(is_expected(states[j], events[j]));
    if i < j {
        lemma_stages_ascend(repo, states, events, actions, i, j);
    } else if j < i {
        lemma_stages_ascend(repo, states, events, actions, j, i);
    }
}

/// A run that fails before its embeddings are there, or in embedding, leaves
/// everything as it was: it has written nothing and never will.
pub proof fn law_failed_embedding_writes_nothing(
    repo: Seq<char>,
    states: Seq<RunState>,
    events: Seq<RunEvent>,
    actions: Seq<RunAction>,
    failed: int,
    i: int,
)
    requires
        is_run(repo, states, events, actions),
        0 <= failed < events.len(),
        events[failed] is Failed,
        !(states[failed] is Write || states[failed] is Count),
        0 <= i < actions.len(),
    ensures
        !(actions[i] is Write),
        failed == events.len() - 1,
{
    assert(is_expected(states[failed], events[failed]));
    assert(states[failed + 1] is Ended);
    if failed + 1 < events.len() {
        assert(is_expected(states[failed + 1], events[failed + 1]));
    }
    assert(is_expected(states[i], events[i]));
    if i + 1 < failed {
        lemma_stages_ascend(repo, states, events, actions, i + 1, failed);
    }
}

/// Every run comes to its end after six events at most: it finishes or fails.
pub proof fn law_runs_end(
    repo: Seq<char>,
    states: Seq<RunState>,
    events: Seq<RunEvent>,
    actions: Seq<RunAction>,
)
    requires
        is_run(repo, states, events, actions),
    ensures
        events.len() <= 6,
        forall|i: int|
            0 <= i < actions.len() ==> ((#[trigger] actions[i]) is Finish || actions[i] is Fail
                <==> states[i + 1] is Ended),
{
    lemma_stages_count(repo, states, events, actions, events.len() as int);
    assert forall|i: int| 0 <= i < actions.len() implies ((#[trigger] actions[i]) is Finish
        || actions[i] is Fail <==> states[i + 1] is Ended) by {
        assert(is_expected(states[i], events[i]));
    }
}

proof fn lemma_stages_count(
    repo: Seq<char>,
    states: Seq<RunState>,
    events: Seq<RunEvent>,
    actions: Seq<RunAction>,
    j: int,
)
    requires
        is_run(repo, states, events, actions),
        0 <= j < states.len(),
    ensures
        stage(states[j]) >= j,
    decreases j,
{
    if j > 0 {
        lemma_stages_count(repo, states, events, actions, j - 1);
        lemma_stages_ascend(repo, states, events, actions, j - 1, j);
    }
}

}
