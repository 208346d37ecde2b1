//! What holds of the status of a repository, and of the runs that change it.
use vstd::prelude::*;

use crate::indexing::consumer::{ConsumerEvent, ConsumerState};
use crate::indexing::run::{RunAction, RunEvent, RunState, Work};
use crate::indexing::write_plan::StepView;
use crate::indexing::{consumer, embed, graph, pipeline, plan_laws, run, write_plan};
use crate::indexing::{IndexState, StatusView};
use crate::parsing::ParseResult;

verus! {

/// A run that begins shows nothing of the one before but when it ended; one that
/// fails shows the error and the counts that it is told, and one that ends well
/// its counts and its time.
pub proof fn law_status_shows_the_run(
    status: StatusView,
    error: Seq<char>,
    indexed: u64,
    total: u64,
    now: Seq<char>,
)
    ensures
        ({
            let s = status.started();
            &&& s.state == IndexState::Indexing
            &&& s.indexed_files == 0
            &&& s.total_files == 0
            &&& s.error is None
            &&& s.last_indexed_at == status.last_indexed_at
        }),
        ({
            let s = status.failed(error, indexed, total);
            &&& s.state == IndexState::Error
            &&& s.indexed_files == indexed
            &&& s.total_files == total
            &&& s.error == Some(error)
            &&& s.last_indexed_at == status.last_indexed_at
        }),
        ({
            let s = status.finished(indexed, total, now);
            &&& s.state == IndexState::Idle
            &&& s.indexed_files == indexed
            &&& s.total_files == total
            &&& s.error is None
            &&& s.last_indexed_at == Some(now)
        }),
        ({
            let s = StatusView::unknown();
            &&& s.state == IndexState::Idle
            &&& s.indexed_files == 0
            &&& s.total_files == 0
            &&& s.error is None
            &&& s.last_indexed_at is None
        }),
{
}

/// Progress changes the counts and nothing else.
pub proof fn law_progress_changes_the_counts_only(status: StatusView, n: u64)
    ensures
        ({
            let s = status.with_total(n);
            &&& s.total_files == n
            &&& s.indexed_files == status.indexed_files
            &&& s.state == status.state
            &&& s.error == status.error
            &&& s.last_indexed_at == status.last_indexed_at
        }),
        ({
            let s = status.with_processed(n);
            &&& s.indexed_files == status.indexed_files || s.indexed_files == n
            &&& s.indexed_files >= n
            &&& s.indexed_files >= status.indexed_files
            &&& s.total_files == status.total_files
            &&& s.state == status.state
            &&& s.error == status.error
            &&& s.last_indexed_at == status.last_indexed_at
        }),
{
}

/// A run goes from the client over the store to the pipeline, and without keys
/// straight to the store; whatever fails ends it, and the next trigger is taken.
pub proof fn law_runs_take_every_step(
    state: ConsumerState,
    event: ConsumerEvent,
    status: StatusView,
)
    requires
        consumer::is_expected(state, event),
    ensures
        ({
            let (next, action) = consumer::after(state, event, status);
            &&& event matches ConsumerEvent::Triggered { has_keys } ==> if has_keys {
                next is Client && action is MakeClient
            } else {
                next is Store && action is OpenStore
            }
            &&& event is ClientReady ==> next is Store && action is OpenStore
            &&& event is StoreReady ==> next is Running && action is RunPipeline
            &&& event is RunFinished ==> next is Waiting && action is PersistTime
            &&& event is ClientFailed || event is StoreFailed || event is RunFailed
                ==> next is Waiting && action is TakeTrigger
        }),
        event matches ConsumerEvent::RunFinished { stats, now } ==> {
            let s = consumer::status_after(state, status, event);
            &&& s.state == IndexState::Idle
            &&& s.indexed_files == stats.indexed_files
            &&& s.total_files == stats.total_files
            &&& s.last_indexed_at == Some(now@)
        },
        event matches ConsumerEvent::RunFailed { error, counts } ==> consumer::status_after(
            state,
            status,
            event,
        ).error == Some(error@),
        event matches ConsumerEvent::StoreFailed { error } ==> consumer::status_after(
            state,
            status,
            event,
        ).error == Some(error@),
        event matches ConsumerEvent::ClientFailed { error, counts } ==> consumer::status_after(
            state,
            status,
            event,
        ).error == Some(error@),
{
}

/// Batches for embedding are full, but for the last, and together they are all
/// texts in their order.
pub proof fn law_embedding_batches_are_the_texts(texts: Seq<Seq<char>>, size: nat, k: int)
    requires
        size > 0,
    ensures
        embed::batched(texts, size).flatten() == texts,
        0 <= k < embed::batched(texts, size).len() - 1 ==> embed::batched(texts, size)[k].len()
            == size,
    decreases texts.len(),
{
    let all = embed::batched(texts, size);
    if texts.len() == 0 {
        assert(all.flatten() =~= texts);
    } else if texts.len() <= size {
        assert(all.drop_first() =~= Seq::empty());
        assert(all.drop_first().flatten() =~= Seq::<Seq<char>>::empty());
        assert(all.flatten() =~= texts);
    } else {
        let rest = texts.skip(size as int);
        law_embedding_batches_are_the_texts(rest, size, k - 1);
        assert(all.drop_first() =~= embed::batched(rest, size));
        assert(all.first() == texts.take(size as int));
        assert(all.flatten() =~= texts);
    }
}

// ─── Runs ───

/// A run indexes everything exactly where nothing is stored or a rebuild is asked
/// for; it finishes at once, with the counts as they are, where it is told that
/// nothing changed; and it parses exactly the files that changed and are not gone.
pub proof fn law_runs_do_what_is_needed(
    repo: Seq<char>,
    state: RunState,
    event: RunEvent,
    r: (RunState, RunAction),
)
    requires
        run::is_expected(state, event),
        run::follows(repo, state, event, r),
    ensures
        event matches RunEvent::MetaRead { stored_files, total_files } ==> (
        state matches RunState::Meta { changes, rebuild } && {
            &&& r.1 is ParseAll <==> stored_files == 0 || rebuild
            &&& stored_files > 0 && !rebuild && changes is None ==> r.1 is DetectChanges
            &&& stored_files > 0 && !rebuild && changes is Some && changes->0@.len() == 0 ==> (
            r.1 matches RunAction::Finish { stats } && stats.indexed_files == stored_files
                && stats.total_files == total_files)
            &&& stored_files > 0 && !rebuild && changes is Some && changes->0@.len() > 0 ==> (
            r.1 matches RunAction::ParseChanged { files } && crate::text::texts(files@)
                == pipeline::change_views(changes->0@).filter(
                |c: pipeline::ChangeView|
                    c.kind == pipeline::ChangeKind::Added || c.kind
                        == pipeline::ChangeKind::Modified,
            ).map_values(|c: pipeline::ChangeView| c.path))
        }),
        event matches RunEvent::Detected { changes } ==> {
            &&& changes@.len() == 0 <==> r.1 is Finish
            &&& changes@.len() > 0 ==> (r.1 matches RunAction::ParseChanged { files }
                && crate::text::texts(files@) == pipeline::change_views(changes@).filter(
                |c: pipeline::ChangeView|
                    c.kind == pipeline::ChangeKind::Added || c.kind
                        == pipeline::ChangeKind::Modified,
            ).map_values(|c: pipeline::ChangeView| c.path))
        },
        event matches RunEvent::Counted { indexed_files } ==> (state matches RunState::Count {
            total_files,
        } && r.1 matches RunAction::Finish { stats } && stats.indexed_files == indexed_files
            && stats.total_files == total_files),
        event matches RunEvent::Failed { error } ==> (r.1 matches RunAction::Fail { error: told }
            && told@ == error@),
{
    match (state, event) {
        (
            RunState::Meta { changes, rebuild },
            RunEvent::MetaRead { stored_files, total_files },
        ) => {
            if let Some(list) = changes {
                plan_laws::law_changes_are_split(pipeline::change_views(list@));
            }
        },
        (RunState::Changes { stored_files, total_files }, RunEvent::Detected { changes }) => {
            plan_laws::law_changes_are_split(pipeline::change_views(changes@));
        },
        _ => {},
    }
}

/// Everything that was parsed is embedded and written: the texts that are embedded
/// are the contents of all chunks of all files, in order, and among the writes
/// are every symbol of every file and every chunk, each with the embedding of
/// its own text.
pub proof fn law_everything_parsed_is_written(
    repo: Seq<char>,
    parsing: RunState,
    parsed: RunEvent,
    a: (RunState, RunAction),
    embedded: RunEvent,
    b: (RunState, RunAction),
    i: int,
)
    requires
        run::is_expected(parsing, parsed),
        parsed is Parsed,
        run::follows(repo, parsing, parsed, a),
        run::is_expected(a.0, embedded),
        embedded is Embedded,
        run::follows(repo, a.0, embedded, b),
        parsed->results@.map_values(
            |r: ParseResult| crate::parsing::chunker::chunk_views(r.chunks@),
        ).flatten().len() <= usize::MAX,
    ensures
        ({
            let results = parsed->results@;
            let symbols = results.map_values(
                |r: ParseResult| crate::parsing::symbols::symbol_views(r.symbols@),
            ).flatten();
            let chunks = results.map_values(
                |r: ParseResult| crate::parsing::chunker::chunk_views(r.chunks@),
            ).flatten();
            &&& a.1 matches RunAction::Embed { texts, chunk_counts } && crate::text::texts(texts@)
                == chunks.map_values(|c: crate::parsing::chunker::ChunkView| c.content)
                && chunk_counts@.len() == results.len()
            &&& b.1 matches RunAction::Write { plan, rebuild } && {
                let steps = write_plan::step_views(plan.steps@);
                &&& rebuild <==> parsing->Parse_work is All
                &&& 0 <= i < symbols.len() ==> plan_laws::writes_symbol(steps, symbols[i])
                &&& 0 <= i < chunks.len() ==> exists|row: pipeline::ChunkRowView| #[trigger]
                    plan_laws::writes_row(steps, row) && row.file == chunks[i].file && row.content
                        == chunks[i].content && row.line_start == chunks[i].line_start
                        && row.line_end == chunks[i].line_end && (i < embedded->embeddings
                        ==> row.embedding == Some(i as usize))
            }
        }),
{
    let results = parsed->results@;
    plan_laws::law_results_are_put_together(results);
    let symbols = pipeline::symbols_of(results);
    let chunks = pipeline::chunks_of(results);
    assert(run::contents_of(chunks) =~= chunks.map_values(
        |c: crate::parsing::chunker::ChunkView| c.content,
    ));
    let found = a.0->found;
    let work = a.0->Embed_work;
    let stored = a.0->stored;
    let stats = embedded->stats@;
    let n = embedded->embeddings as nat;
    let rows = pipeline::rows_of(chunks, n);
    let plan = b.1->plan;
    let steps = write_plan::step_views(plan.steps@);
    let known = match work {
        Work::All => graph::qualified_of(symbols),
        Work::Changed(_) => graph::qualified_of(symbols)
            + crate::parsing::symbols::qualified_views(stored@),
    };
    let edges = graph::resolved(crate::parsing::relations::edge_views(found.edges@), known);
    let inserts = write_plan::insert_plan(repo, symbols, edges, rows, stats);
    let head = match work {
        Work::All => seq![StepView::DeleteAll],
        Work::Changed(set) => write_plan::delete_steps(crate::text::texts(set.all_affected@)),
    };
    let tail = match work {
        Work::All => Seq::empty(),
        Work::Changed(set) => write_plan::drop_steps(crate::text::texts(set.to_delete@)),
    };
    assert(steps =~= head + inserts + tail);
    plan_laws::law_everything_is_written(repo, symbols, edges, rows, stats, i);
    if 0 <= i < symbols.len() {
        let k = choose|k: int|
            0 <= k < inserts.len() && (#[trigger] inserts[k] matches StepView::Symbols(q)
                && crate::text::shows(
                q,
                crate::indexing::statements::with_upsert(Seq::empty(), symbols[i]),
            ));
        assert(steps[head.len() + k] == inserts[k]);
        assert(plan_laws::writes_symbol(steps, symbols[i]));
    }
    if 0 <= i < chunks.len() {
        plan_laws::law_every_chunk_has_its_row(chunks, n, i);
        let k = choose|k: int|
            0 <= k < inserts.len() && (#[trigger] inserts[k] matches StepView::Chunks(part)
                && part.contains(rows[i]));
        assert(steps[head.len() + k] == inserts[k]);
        assert(plan_laws::writes_row(steps, rows[i]));
    }
}

/// The number of files that a run that is not over has been told.
pub open spec fn told_total(state: RunState) -> Option<u64> {
    match state {
        RunState::Changes { stored_files, total_files } => Some(total_files),
        RunState::Parse { work, total_files } => Some(total_files),
        RunState::Embed { work, found, stored, total_files } => Some(total_files),
        RunState::Write { total_files } => Some(total_files),
        RunState::Count { total_files } => Some(total_files),
        _ => None,
    }
}

proof fn lemma_total_is_kept(
    repo: Seq<char>,
    states: Seq<RunState>,
    events: Seq<RunEvent>,
    actions: Seq<RunAction>,
    total: u64,
    i: int,
)
    requires
        run::is_run(repo, states, events, actions),
        events.len() > 0,
        events[0] matches RunEvent::MetaRead { total_files, .. } && total_files == total,
        1 <= i < states.len(),
    ensures
        states[i] is Ended || told_total(states[i]) == Some(total),
    decreases i,
{
    assert(run::is_expected(states[i - 1], events[i - 1]));
    assert(run::follows(
        repo,
        states[i - 1],
        events[i - 1],
        (states[i - 1 + 1], actions[i - 1]),
    ));
    if i > 1 {
        lemma_total_is_kept(repo, states, events, actions, total, i - 1);
    }
}

/// A run that finishes tells the number of files that it was told at its beginning,
/// and as indexed those that were counted at its end, or those that were stored
/// where nothing changed.
pub proof fn law_finished_runs_tell_their_counts(
    repo: Seq<char>,
    states: Seq<RunState>,
    events: Seq<RunEvent>,
    actions: Seq<RunAction>,
    total: u64,
    i: int,
)
    requires
        run::is_run(repo, states, events, actions),
        events.len() > 0,
        events[0] matches RunEvent::MetaRead { total_files, .. } && total_files == total,
        0 <= i < actions.len(),
    ensures
        actions[i] matches RunAction::Finish { stats } ==> {
            &&& stats.total_files == total
            &&& events[i] matches RunEvent::Counted { indexed_files } ==> stats.indexed_files
                == indexed_files
            &&& !(events[i] is Counted) ==> (events[0] matches RunEvent::MetaRead {
                stored_files,
                ..
            } && stats.indexed_files == stored_files)
        },
{
    assert(run::is_expected(states[i], events[i]));
    assert(run::follows(repo, states[i], events[i], (states[i + 1], actions[i])));
    if i > 0 {
        lemma_total_is_kept(repo, states, events, actions, total, i);
        lemma_stored_is_kept(repo, states, events, actions, i);
    }
}

proof fn lemma_stored_is_kept(
    repo: Seq<char>,
    states: Seq<RunState>,
    events: Seq<RunEvent>,
    actions: Seq<RunAction>,
    i: int,
)
    requires
        run::is_run(repo, states, events, actions),
        events.len() > 0,
        events[0] is MetaRead,
        1 <= i < states.len(),
    ensures
        states[i] matches RunState::Changes { stored_files, .. } ==> (
        events[0] matches RunEvent::MetaRead { stored_files: s, .. } && s == stored_files),
        !(states[i] is Meta),
    decreases i,
{
    assert(run::is_expected(states[i - 1], events[i - 1]));
    assert(run::follows(
        repo,
        states[i - 1],
        events[i - 1],
        (states[i - 1 + 1], actions[i - 1]),
    ));
    if i > 1 {
        lemma_stored_is_kept(repo, states, events, actions, i - 1);
    }
}

/// After the writes the files of the index are counted.
pub proof fn law_written_runs_are_counted(
    repo: Seq<char>,
    state: RunState,
    r: (RunState, RunAction),
)
    requires
        run::is_expected(state, RunEvent::Written),
        run::follows(repo, state, RunEvent::Written, r),
    ensures
        r.0 is Count,
        r.1 is Count,
{
}

/// The chunks of the first files are as many as their lists put together are long,
/// and the files that are done are those all of whose chunks are among the first
/// that are.
pub proof fn law_chunks_add_up<A>(files: Seq<Seq<A>>, counts: Seq<usize>, k: int)
    requires
        0 <= k <= files.len(),
        counts.len() == files.len(),
        forall|i: int| 0 <= i < files.len() ==> (#[trigger] counts[i]) == files[i].len(),
    ensures
        embed::sum_of(counts, k) == files.take(k).flatten().len(),
    decreases k,
{
    let part = files.take(k);
    part.lemma_flatten_and_flatten_alt_are_equivalent();
    if k > 0 {
        law_chunks_add_up(files, counts, k - 1);
        let front = files.take(k - 1);
        front.lemma_flatten_and_flatten_alt_are_equivalent();
        assert(part.drop_last() =~= front);
        assert(part.last() == files[k - 1]);
        assert(counts[k - 1] == files[k - 1].len());
    }
}

/// What is stored of every changed file is deleted, from the store and from the
/// vector index, and a file that is gone is forgotten.
pub proof fn law_changed_files_are_purged(
    repo: Seq<char>,
    set: pipeline::ChangeSet,
    changes: Seq<pipeline::ChangeView>,
    plan: write_plan::RunPlan,
    found: pipeline::Collected,
    stored: Seq<crate::parsing::symbols::QualifiedSymbol>,
    embeddings: usize,
    stats: Seq<write_plan::FileStat>,
    i: int,
)
    requires
        run::is_set_of(set, changes),
        run::is_plan_of(plan, repo, Work::Changed(set), found, stored, embeddings, stats),
        0 <= i < changes.len(),
    ensures
        ({
            let steps = write_plan::step_views(plan.steps@);
            &&& steps.contains(StepView::DeleteFile(changes[i].path))
            &&& crate::text::texts(plan.removed@).contains(changes[i].path)
            &&& changes[i].kind == pipeline::ChangeKind::Deleted ==> steps.contains(
                StepView::DropMeta(
                    "DELETE FROM file_meta WHERE path = '"@
                        + crate::indexing::statements::escaped(changes[i].path) + "'"@,
                ),
            )
        }),
{
    let steps = write_plan::step_views(plan.steps@);
    let gone = pipeline::paths_of(changes, true);
    let kept = pipeline::paths_of(changes, false);
    let all = gone + kept;
    let path = changes[i].path;
    plan_laws::law_old_data_goes_first(
        repo,
        found,
        crate::parsing::symbols::qualified_views(stored),
        embeddings as nat,
        stats,
        all,
        gone,
    );
    pipeline::law_every_change_is_affected(changes, i);
    assert(all.contains(path)) by {
        if changes[i].kind == pipeline::ChangeKind::Deleted {
            let k = choose|k: int| 0 <= k < gone.len() && gone[k] == path;
            assert(all[k] == path);
        } else {
            let k = choose|k: int| 0 <= k < kept.len() && kept[k] == path;
            assert(all[gone.len() + k] == path);
        }
    }
    let k = choose|k: int| 0 <= k < all.len() && all[k] == path;
    assert(steps[k] == StepView::DeleteFile(path));
    if changes[i].kind == pipeline::ChangeKind::Deleted {
        let n = steps.len() - gone.len();
        let g = choose|g: int| 0 <= g < gone.len() && gone[g] == path;
        assert(steps[n + g] == StepView::DropMeta(
            "DELETE FROM file_meta WHERE path = '"@ + crate::indexing::statements::escaped(path)
                + "'"@,
        ));
    }
}

/// Texts are embedded exactly where there are any and there is a client; whatever
/// is done is done for all files.
pub proof fn law_embedding_plan(files: usize, chunks: usize, has_client: bool)
    ensures
        ({
            let plan = embed::plan_for(files, chunks, has_client);
            &&& plan is Batches <==> chunks > 0 && has_client
            &&& plan is Empty <==> chunks > 0 && !has_client
            &&& plan is Nothing <==> chunks == 0
            &&& match plan {
                embed::EmbedPlan::Nothing { total_files } => total_files == files,
                embed::EmbedPlan::Empty { total_files } => total_files == files,
                embed::EmbedPlan::Batches { total_files } => total_files == files,
            }
        }),
{
}

/// A failed write tells the run and the write.
pub proof fn law_failed_phases_tell_the_run(step: StepView)
    ensures
        "full_rebuild: "@.is_prefix_of(write_plan::phase_words(step, true)),
        "incremental_run: "@.is_prefix_of(write_plan::phase_words(step, false)),
        write_plan::write_words(step).is_suffix_of(write_plan::phase_words(step, true)),
        write_plan::write_words(step).is_suffix_of(write_plan::phase_words(step, false)),
{
    let words = write_plan::write_words(step);
    let (a, b) = (write_plan::phase_words(step, true), write_plan::phase_words(step, false));
    assert("full_rebuild: "@ =~= a.subrange(0, "full_rebuild: "@.len() as int));
    assert("incremental_run: "@ =~= b.subrange(0, "incremental_run: "@.len() as int));
    assert(words =~= a.subrange(a.len() - words.len(), a.len() as int));
    assert(words =~= b.subrange(b.len() - words.len(), b.len() as int));
}

}
