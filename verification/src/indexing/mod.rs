//! Keeping the index of a repository up to date.
use vstd::hash_map::StringHashMap;
use vstd::prelude::*;

use crate::indexing::pipeline::{FileChange, IndexPipelineStats};
use crate::text::clone_opt;

pub mod consumer;
pub mod embed;
pub mod graph;
pub mod pipeline;
pub mod plan_laws;
pub mod run;
pub mod statements;
pub mod status_laws;
pub mod walker;
pub mod write_plan;

verus! {

// ─── Repo indexing status ───

#[derive(Debug, Clone, Copy, PartialEq, Eq, Structural)]
pub enum IndexState {
    Idle,
    Indexing,
    Error,
}

/// Per-repo status snapshot.
///
/// Dual-meaning fields (state-gated contract):
/// - `state == Indexing`: `total_files` = workset size for this run (denominator);
///   `indexed_files` = files whose chunks have been embedded so far (numerator).
///   Progress % = indexed_files / total_files (guard against total_files == 0).
/// - `state == Idle` / `Error`: `indexed_files` = files in the index;
///   `total_files` = total files in the repo on disk.
#[derive(Debug)]
pub struct RepoStatus {
    pub state: IndexState,
    pub indexed_files: u64,
    pub total_files: u64,
    /// When the last run ended well, in RFC 3339.
    pub last_indexed_at: Option<String>,
    pub error: Option<String>,
}

/// What a [`RepoStatus`] says.
pub struct StatusView {
    pub state: IndexState,
    pub indexed_files: u64,
    pub total_files: u64,
    pub last_indexed_at: Option<Seq<char>>,
    pub error: Option<Seq<char>>,
}

impl View for RepoStatus {
    type V = StatusView;

    open spec fn view(&self) -> StatusView {
        StatusView {
            state: self.state,
            indexed_files: self.indexed_files,
            total_files: self.total_files,
            last_indexed_at: crate::text::opt_text(self.last_indexed_at),
            error: crate::text::opt_text(self.error),
        }
    }
}

impl StatusView {
    /// A repository of which nothing is known yet.
    pub open spec fn unknown() -> StatusView {
        StatusView {
            state: IndexState::Idle,
            indexed_files: 0,
            total_files: 0,
            last_indexed_at: None,
            error: None,
        }
    }

    /// A run begins: the counters start again, and an old error is forgotten.
    pub open spec fn started(self) -> StatusView {
        StatusView {
            state: IndexState::Indexing,
            indexed_files: 0,
            total_files: 0,
            error: None,
            ..self
        }
    }

    /// A run failed; the counts tell of the index as the run left it.
    pub open spec fn failed(
        self,
        error: Seq<char>,
        indexed_files: u64,
        total_files: u64,
    ) -> StatusView {
        StatusView {
            state: IndexState::Error,
            indexed_files,
            total_files,
            error: Some(error),
            ..self
        }
    }

    /// A run ended well.
    pub open spec fn finished(self, indexed_files: u64, total_files: u64, now: Seq<char>) -> StatusView {
        StatusView {
            state: IndexState::Idle,
            indexed_files,
            total_files,
            last_indexed_at: Some(now),
            error: None,
        }
    }

    /// The denominator of a run is known.
    pub open spec fn with_total(self, total: u64) -> StatusView {
        StatusView { total_files: total, ..self }
    }

    /// The numerator of a run, unless it is behind what was reported before.
    pub open spec fn with_processed(self, processed: u64) -> StatusView {
        if processed > self.indexed_files {
            StatusView { indexed_files: processed, ..self }
        } else {
            self
        }
    }
}

impl Default for RepoStatus {
    fn default() -> (r: Self)
        ensures
            r@ == StatusView::unknown(),
    {
        RepoStatus {
            state: IndexState::Idle,
            indexed_files: 0,
            total_files: 0,
            last_indexed_at: None,
            error: None,
        }
    }
}

impl Clone for RepoStatus {
    fn clone(&self) -> (r: Self)
        ensures
            r@ == self@,
    {
        RepoStatus {
            state: self.state,
            indexed_files: self.indexed_files,
            total_files: self.total_files,
            last_indexed_at: clone_opt(&self.last_indexed_at),
            error: clone_opt(&self.error),
        }
    }
}

impl RepoStatus {
    /// Mark indexing. Resets progress counters so that a display shows no
    /// percentage (total_files == 0) until the pipeline reports a total.
    pub fn start(&mut self)
        ensures
            final(self)@ == old(self)@.started(),
    {
        self.state = IndexState::Indexing;
        self.error = None;
        self.indexed_files = 0;
        self.total_files = 0;
    }

    pub fn fail(&mut self, error: String, stats: IndexPipelineStats)
        ensures
            final(self)@ == old(self)@.failed(error@, stats.indexed_files, stats.total_files),
    {
        self.state = IndexState::Error;
        self.indexed_files = stats.indexed_files;
        self.total_files = stats.total_files;
        self.error = Some(error);
    }

    pub fn finish(&mut self, stats: IndexPipelineStats, now: String)
        ensures
            final(self)@ == old(self)@.finished(stats.indexed_files, stats.total_files, now@),
    {
        self.state = IndexState::Idle;
        self.indexed_files = stats.indexed_files;
        self.total_files = stats.total_files;
        self.last_indexed_at = Some(now);
        self.error = None;
    }
}

// ─── The status map ───

/// The status of each repository, by its path.
pub struct StatusMap {
    pub statuses: StringHashMap<RepoStatus>,
}

impl StatusMap {
    /// The status of a repository; that of an unknown one where the map has none.
    pub open spec fn at(&self, repo: Seq<char>) -> StatusView {
        if self.statuses@.dom().contains(repo) {
            self.statuses@[repo]@
        } else {
            StatusView::unknown()
        }
    }

    /// The map has a status for the repository.
    pub open spec fn knows(&self, repo: Seq<char>) -> bool {
        self.statuses@.dom().contains(repo)
    }

    /// The map after one repository's status changed.
    pub open spec fn is_update(&self, before: StatusMap, repo: Seq<char>, status: StatusView) -> bool {
        &&& self.knows(repo)
        &&& self.at(repo) == status
        &&& forall|other: Seq<char>|
            #![trigger self.knows(other)]
            #![trigger self.at(other)]
            other != repo ==> self.knows(other) == before.knows(other) && self.at(other)
                == before.at(other)
    }

    pub fn new() -> (r: StatusMap)
        ensures
            forall|repo: Seq<char>| !#[trigger] r.knows(repo),
    {
        StatusMap { statuses: StringHashMap::new() }
    }

    /// One entry for each repository, of which nothing is known yet.
    pub fn for_repos(repos: &Vec<String>) -> (r: StatusMap)
        ensures
            forall|repo: Seq<char>|
                #[trigger] r.knows(repo) <==> crate::text::texts(repos@).contains(repo),
            forall|repo: Seq<char>| #[trigger] r.at(repo) == StatusView::unknown(),
    {
        let ghost all = crate::text::texts(repos@);
        let mut map = StatusMap::new();
        let mut i: usize = 0;
        assert forall|repo: Seq<char>| #[trigger] map.at(repo) == StatusView::unknown() by {
            assert(!map.knows(repo));
        }
        while i < repos.len()
            invariant
                all == crate::text::texts(repos@),
                i <= repos@.len(),
                forall|repo: Seq<char>|
                    #[trigger] map.knows(repo) <==> all.take(i as int).contains(repo),
                forall|repo: Seq<char>| #[trigger] map.at(repo) == StatusView::unknown(),
            decreases repos@.len() - i,
        {
            let ghost before = map;
            map.set(repos[i].as_str(), RepoStatus::default());
            proof {
                assert(all.take(i + 1) =~= all.take(i as int).push(all[i as int]));
                assert forall|repo: Seq<char>| #[trigger] map.knows(repo) <==> all.take(
                    i + 1,
                ).contains(repo) by {
                    let t = all.take(i as int);
                    assert(t.push(all[i as int])[t.len() as int] == all[i as int]);
                    if t.contains(repo) {
                        let k = choose|k: int| 0 <= k < t.len() && t[k] == repo;
                        assert(t.push(all[i as int])[k] == repo);
                    }
                    assert(before.knows(repo) <==> all.take(i as int).contains(repo));
                }
                assert forall|repo: Seq<char>| #[trigger] map.at(repo)
                    == StatusView::unknown() by {
                    assert(before.at(repo) == StatusView::unknown());
                }
            }
            i = i + 1;
        }
        assert(all.take(i as int) =~= all);
        map
    }

    fn set(&mut self, repo: &str, status: RepoStatus)
        ensures
            final(self).is_update(*old(self), repo@, status@),
    {
        self.statuses.insert(repo.to_owned(), status);
    }

    /// Return status for a single repo.
    pub fn repo_status(&self, repo: &str) -> (r: Option<RepoStatus>)
        ensures
            match r {
                Some(status) => self.knows(repo@) && status@ == self.at(repo@),
                None => !self.knows(repo@),
            },
    {
        match self.statuses.get(repo) {
            Some(status) => Some(status.clone()),
            None => None,
        }
    }

    /// The status of a repository, or that of an unknown one.
    fn status_or_default(&self, repo: &str) -> (r: RepoStatus)
        ensures
            r@ == self.at(repo@),
    {
        match self.statuses.get(repo) {
            Some(status) => status.clone(),
            None => RepoStatus::default(),
        }
    }

    /// A run of the repository begins.
    pub fn start(&mut self, repo: &str)
        ensures
            final(self).is_update(*old(self), repo@, old(self).at(repo@).started()),
    {
        let mut status = self.status_or_default(repo);
        status.start();
        self.set(repo, status);
    }

    /// The counts of a repository's status.
    pub fn counts(&self, repo: &str) -> (r: IndexPipelineStats)
        ensures
            r.indexed_files == self.at(repo@).indexed_files,
            r.total_files == self.at(repo@).total_files,
    {
        let status = self.status_or_default(repo);
        IndexPipelineStats {
            indexed_files: status.indexed_files,
            total_files: status.total_files,
        }
    }

    /// A run of the repository failed; `stats` tells of its index.
    pub fn fail(&mut self, repo: &str, error: String, stats: IndexPipelineStats)
        ensures
            final(self).is_update(
                *old(self),
                repo@,
                old(self).at(repo@).failed(error@, stats.indexed_files, stats.total_files),
            ),
    {
        let mut status = self.status_or_default(repo);
        status.fail(error, stats);
        self.set(repo, status);
    }

    /// A run of the repository ended well.
    pub fn finish(&mut self, repo: &str, stats: IndexPipelineStats, now: String)
        ensures
            final(self).is_update(
                *old(self),
                repo@,
                old(self).at(repo@).finished(stats.indexed_files, stats.total_files, now@),
            ),
    {
        let mut status = self.status_or_default(repo);
        status.finish(stats, now);
        self.set(repo, status);
    }
}

// ─── ProgressHandle ───

/// Names the repository whose live progress a pipeline run writes into the
/// shared status map.
pub struct ProgressHandle {
    pub repo: String,
}

impl ProgressHandle {
    /// Set the denominator once the parsed file set is known.
    pub fn set_run_total(&self, statuses: &mut StatusMap, total: u64)
        ensures
            final(statuses).is_update(
                *old(statuses),
                self.repo@,
                old(statuses).at(self.repo@).with_total(total),
            ),
    {
        let mut status = statuses.status_or_default(self.repo.as_str());
        status.total_files = total;
        statuses.set(self.repo.as_str(), status);
    }

    /// Advance the numerator. Monotonic — never decreases.
    pub fn set_processed(&self, statuses: &mut StatusMap, processed: u64)
        ensures
            final(statuses).is_update(
                *old(statuses),
                self.repo@,
                old(statuses).at(self.repo@).with_processed(processed),
            ),
    {
        let mut status = statuses.status_or_default(self.repo.as_str());
        if processed > status.indexed_files {
            status.indexed_files = processed;
        }
        statuses.set(self.repo.as_str(), status);
    }
}

// ─── IndexEngine ───

/// A request to bring the index of a repository up to date.
#[derive(Debug)]
pub struct IndexTrigger {
    pub repo: String,
    pub changes: Option<Vec<FileChange>>,  // None = full incremental scan
    /// Force a full rebuild (clear + re-embed everything) regardless of staleness.
    pub rebuild: bool,
}

/// The state of all indexing operations that decisions are made on.
pub struct IndexEngine {
    /// Per-repo status map, keyed by repo path string.
    pub statuses: StatusMap,
}

impl IndexEngine {
    /// An engine for the configured repositories, of which nothing is known yet.
    pub fn start(repos: &Vec<String>) -> (r: IndexEngine)
        ensures
            forall|repo: Seq<char>|
                #[trigger] r.statuses.knows(repo) <==> crate::text::texts(repos@).contains(repo),
            forall|repo: Seq<char>| #[trigger] r.statuses.at(repo) == StatusView::unknown(),
    {
        IndexEngine { statuses: StatusMap::for_repos(repos) }
    }

    /// A manual trigger to index a single repo.
    pub fn trigger_index(&self, repo: &str) -> (r: IndexTrigger)
        ensures
            r.repo@ == repo@,
            r.changes is None,
            !r.rebuild,
    {
        IndexTrigger { repo: repo.to_owned(), changes: None, rebuild: false }
    }

    /// A manual trigger to fully rebuild a single repo's index.
    pub fn trigger_rebuild(&self, repo: &str) -> (r: IndexTrigger)
        ensures
            r.repo@ == repo@,
            r.changes is None,
            r.rebuild,
    {
        IndexTrigger { repo: repo.to_owned(), changes: None, rebuild: true }
    }

    /// Manual triggers to index all repos, in their order.
    pub fn trigger_index_all(&self, repos: &Vec<String>) -> (r: Vec<IndexTrigger>)
        ensures
            r@.len() == repos@.len(),
            forall|i: int|
                0 <= i < r@.len() ==> (#[trigger] r@[i]).repo@ == repos@[i]@ && r@[i].changes is None
                    && !r@[i].rebuild,
    {
        let mut out: Vec<IndexTrigger> = Vec::new();
        let mut i: usize = 0;
        while i < repos.len()
            invariant
                i <= repos@.len(),
                out@.len() == i,
                forall|k: int|
                    0 <= k < i ==> (#[trigger] out@[k]).repo@ == repos@[k]@ && out@[k].changes is None
                        && !out@[k].rebuild,
            decreases repos@.len() - i,
        {
            out.push(self.trigger_index(repos[i].as_str()));
            i = i + 1;
        }
        out
    }

    /// Return per-repo status snapshot.
    pub fn all_statuses(&self) -> (r: &StatusMap)
        ensures
            *r == self.statuses,
    {
        &self.statuses
    }

    /// Return status for a single repo.
    pub fn repo_status(&self, repo: &str) -> (r: Option<RepoStatus>)
        ensures
            match r {
                Some(status) => self.statuses.knows(repo@) && status@ == self.statuses.at(repo@),
                None => !self.statuses.knows(repo@),
            },
    {
        self.statuses.repo_status(repo)
    }
}

// ─── The laws ───

/// Progress never goes back.
pub proof fn law_progress_is_monotonic(status: StatusView, processed: u64)
    ensures
        status.with_processed(processed).indexed_files >= status.indexed_files,
        status.with_processed(processed).indexed_files >= processed,
        status.with_processed(processed).total_files == status.total_files,
{
}

}
