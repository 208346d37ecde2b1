//! How far the embedding of a run has come.
use vstd::prelude::*;

verus! {

/// The sum of the first numbers of a list.
pub open spec fn sum_of(counts: Seq<usize>, n: int) -> int
    decreases n,
{
    if n <= 0 {
        0
    } else {
        sum_of(counts, n - 1) + counts[n - 1]
    }
}

/// How many chunks there are in all.
pub open spec fn total_of(counts: Seq<usize>) -> int {
    sum_of(counts, counts.len() as int)
}

pub proof fn lemma_sum_grows(counts: Seq<usize>, a: int, b: int)
    requires
        0 <= a <= b <= counts.len(),
    ensures
        0 <= sum_of(counts, a) <= sum_of(counts, b),
    decreases b,
{
    if a < b {
        lemma_sum_grows(counts, a, b - 1);
    } else if b > 0 {
        lemma_sum_grows(counts, b - 1, b - 1);
    }
}

/// How many files, counted from the first, are done when the given number of
/// chunks is: those whose last chunk is among them.
pub open spec fn files_done(counts: Seq<usize>, done: int) -> int {
    files_done_from(counts, done, 0)
}

pub open spec fn files_done_from(counts: Seq<usize>, done: int, from: int) -> int
    decreases counts.len() - from,
{
    if 0 <= from < counts.len() && sum_of(counts, from + 1) <= done {
        files_done_from(counts, done, from + 1)
    } else {
        from
    }
}

proof fn lemma_files_done_is(counts: Seq<usize>, done: int, from: int, k: int)
    requires
        0 <= from <= k <= counts.len(),
        k > 0 ==> sum_of(counts, k) <= done,
        k < counts.len() ==> sum_of(counts, k + 1) > done,
    ensures
        files_done_from(counts, done, from) == k,
    decreases k - from,
{
    if from < k {
        lemma_sum_grows(counts, from + 1, k);
        lemma_files_done_is(counts, done, from + 1, k);
    }
}

/// The progress of a run: where the chunks of each file end, and how many
/// chunks are done.
pub struct EmbedProgress {
    cumulative: Vec<usize>,
    done: usize,
    counts: Ghost<Seq<usize>>,
}

impl EmbedProgress {
    /// How many chunks each file has.
    pub closed spec fn counts_view(&self) -> Seq<usize> {
        self.counts@
    }

    pub closed spec fn done_view(&self) -> int {
        self.done as int
    }

    pub closed spec fn wf(&self) -> bool {
        &&& self.cumulative@.len() == self.counts@.len()
        &&& forall|i: int|
            0 <= i < self.cumulative@.len() ==> #[trigger] self.cumulative@[i] == sum_of(
                self.counts@,
                i + 1,
            )
    }

    /// Nothing is done yet. `counts` tells how many chunks each file has.
    pub fn new(counts: &Vec<usize>) -> (r: EmbedProgress)
        requires
            total_of(counts@) <= usize::MAX,
        ensures
            r.wf(),
            r.counts_view() == counts@,
            r.done_view() == 0,
    {
        let mut cumulative: Vec<usize> = Vec::new();
        let mut running: usize = 0;
        let mut i: usize = 0;
        while i < counts.len()
            invariant
                total_of(counts@) <= usize::MAX,
                i <= counts@.len(),
                running == sum_of(counts@, i as int),
                cumulative@.len() == i,
                forall|k: int|
                    0 <= k < i ==> #[trigger] cumulative@[k] == sum_of(counts@, k + 1),
            decreases counts@.len() - i,
        {
            proof {
                lemma_sum_grows(counts@, i + 1, counts@.len() as int);
            }
            running = running + counts[i];
            cumulative.push(running);
            i = i + 1;
        }
        EmbedProgress { cumulative, done: 0, counts: Ghost(counts@) }
    }

    /// How many files are fully embedded: a binary search for the rightmost file
    /// whose chunks end within those that are done.
    pub fn completed_files(&self) -> (r: u64)
        requires
            self.wf(),
        ensures
            r == files_done(self.counts_view(), self.done_view()),
    {
        let n: usize = self.cumulative.len();
        let mut low: usize = 0;
        let mut high: usize = n;
        while low < high
            invariant
                self.wf(),
                n == self.cumulative@.len(),
                low <= high <= n,
                low > 0 ==> self.cumulative@[low - 1] <= self.done,
                high < n ==> self.cumulative@[high as int] > self.done,
            decreases high - low,
        {
            let mid: usize = low + (high - low) / 2;
            if self.cumulative[mid] <= self.done {
                low = mid + 1;
            } else {
                high = mid;
            }
        }
        proof {
            lemma_files_done_is(self.counts@, self.done as int, 0, low as int);
        }
        low as u64
    }

    /// More chunks have been embedded; returns how many files are now complete.
    pub fn advance(&mut self, embedded: usize) -> (r: u64)
        requires
            old(self).wf(),
            old(self).done_view() + embedded <= usize::MAX,
        ensures
            final(self).wf(),
            final(self).counts_view() == old(self).counts_view(),
            final(self).done_view() == old(self).done_view() + embedded,
            r == files_done(final(self).counts_view(), final(self).done_view()),
    {
        self.done = self.done + embedded;
        self.completed_files()
    }
}

/// What embedding has to do.
#[derive(Clone, Copy, Debug, PartialEq, Eq, Structural)]
pub enum EmbedPlan {
    /// There is no chunk: all files are done.
    Nothing { total_files: u64 },
    /// There is no client: all files are done, with empty embeddings.
    Empty { total_files: u64 },
    /// Chunks are embedded in batches.
    Batches { total_files: u64 },
}

/// What embedding has to do for so many files with so many chunks.
pub open spec fn plan_for(files: usize, chunks: usize, has_client: bool) -> EmbedPlan {
    if chunks == 0 {
        EmbedPlan::Nothing { total_files: files as u64 }
    } else if has_client {
        EmbedPlan::Batches { total_files: files as u64 }
    } else {
        EmbedPlan::Empty { total_files: files as u64 }
    }
}

/// Decides what embedding has to do for files with the given numbers of chunks.
pub fn embed_plan(files: usize, chunks: usize, has_client: bool) -> (r: EmbedPlan)
    ensures
        r == plan_for(files, chunks, has_client),
        r == (if chunks == 0 {
            EmbedPlan::Nothing { total_files: files as u64 }
        } else if has_client {
            EmbedPlan::Batches { total_files: files as u64 }
        } else {
            EmbedPlan::Empty { total_files: files as u64 }
        }),
{
    let total_files: u64 = files as u64;
    if chunks == 0 {
        EmbedPlan::Nothing { total_files }
    } else if has_client {
        EmbedPlan::Batches { total_files }
    } else {
        EmbedPlan::Empty { total_files }
    }
}

// ─── Batches ───

/// A list in batches of the given size, of which the last may be shorter.
pub open spec fn batched<A>(s: Seq<A>, size: nat) -> Seq<Seq<A>>
    decreases s.len(),
{
    if s.len() == 0 || size == 0 {
        Seq::empty()
    } else if s.len() <= size {
        seq![s]
    } else {
        seq![s.take(size as int)] + batched(s.skip(size as int), size)
    }
}

/// The texts of each batch.
pub open spec fn batch_texts(v: Seq<Vec<String>>) -> Seq<Seq<Seq<char>>> {
    Seq::new(v.len(), |i: int| crate::text::texts(v[i]@))
}

/// The texts in the batches in which they are embedded.
pub fn embed_batches(texts: &Vec<String>, size: usize) -> (r: Vec<Vec<String>>)
    requires
        size > 0,
    ensures
        batch_texts(r@) == batched(crate::text::texts(texts@), size as nat),
{
    let ghost all = crate::text::texts(texts@);
    let n: usize = texts.len();
    let mut out: Vec<Vec<String>> = Vec::new();
    let mut start: usize = 0;
    assert(all.skip(0) =~= all);
    assert(batch_texts(out@) + batched(all, size as nat) =~= batched(all, size as nat));
    while start < n
        invariant
            all == crate::text::texts(texts@),
            n == texts@.len(),
            size > 0,
            start <= n,
            batch_texts(out@) + batched(all.skip(start as int), size as nat) == batched(
                all,
                size as nat,
            ),
        decreases n - start,
    {
        let end: usize = if n - start > size {
            start + size
        } else {
            n
        };
        let ghost rest = all.skip(start as int);
        let mut part: Vec<String> = Vec::new();
        let mut i: usize = start;
        assert(crate::text::texts(part@) =~= rest.take(0));
        while i < end
            invariant
                all == crate::text::texts(texts@),
                rest == all.skip(start as int),
                start <= i <= end <= texts@.len(),
                crate::text::texts(part@) == rest.take(i - start),
            decreases end - i,
        {
            let ghost before = crate::text::texts(part@);
            part.push(texts[i].clone());
            assert(crate::text::texts(part@) =~= before.push(all[i as int]));
            assert(rest.take(i - start + 1) =~= rest.take(i - start).push(all[i as int]));
            i = i + 1;
        }
        let ghost done = batch_texts(out@);
        let ghost own = crate::text::texts(part@);
        out.push(part);
        assert(batch_texts(out@) =~= done.push(own));
        assert(rest.skip(end - start) =~= all.skip(end as int));
        assert(rest.len() <= size ==> own =~= rest);
        assert(batched(rest, size as nat) =~= seq![own] + batched(
            all.skip(end as int),
            size as nat,
        ));
        assert(done.push(own) + batched(all.skip(end as int), size as nat) =~= done + (seq![own]
            + batched(all.skip(end as int), size as nat)));
        start = end;
    }
    assert(all.skip(start as int) =~= Seq::empty());
    assert(batch_texts(out@) + Seq::empty() =~= batch_texts(out@));
    out
}

// ─── The laws ───

/// A file counts as done exactly when its last chunk is: the count names the
/// files from the first on whose chunks have all been embedded.
pub proof fn law_files_done_is_exact(counts: Seq<usize>, done: int)
    requires
        done >= 0,
    ensures
        ({
            let k = files_done(counts, done);
            &&& 0 <= k <= counts.len()
            &&& sum_of(counts, k) <= done
            &&& k < counts.len() ==> sum_of(counts, k + 1) > done
        }),
{
    lemma_files_done_range(counts, done, 0);
}

proof fn lemma_files_done_range(counts: Seq<usize>, done: int, from: int)
    requires
        0 <= from <= counts.len(),
        sum_of(counts, from) <= done,
    ensures
        ({
            let k = files_done_from(counts, done, from);
            &&& from <= k <= counts.len()
            &&& sum_of(counts, k) <= done
            &&& k < counts.len() ==> sum_of(counts, k + 1) > done
        }),
    decreases counts.len() - from,
{
    if from < counts.len() && sum_of(counts, from + 1) <= done {
        lemma_files_done_range(counts, done, from + 1);
    }
}

/// When all chunks are done, all files are: the bar reaches exactly 100%.
pub proof fn law_progress_reaches_the_total(counts: Seq<usize>)
    ensures
        files_done(counts, total_of(counts)) == counts.len(),
{
    lemma_files_done_is(counts, total_of(counts), 0, counts.len() as int);
}

/// More chunks never mean fewer files, and never more than there are.
pub proof fn law_files_done_grows(counts: Seq<usize>, a: int, b: int)
    requires
        0 <= a <= b,
    ensures
        files_done(counts, a) <= files_done(counts, b) <= counts.len(),
{
    law_files_done_is_exact(counts, a);
    law_files_done_is_exact(counts, b);
    let x = files_done(counts, a);
    let y = files_done(counts, b);
    if y < x {
        lemma_sum_grows(counts, y + 1, x);
    }
}

/// Every batch has a text and is no longer than the given size.
pub proof fn law_batches_fit<A>(s: Seq<A>, size: nat, k: int)
    requires
        size > 0,
        0 <= k < batched(s, size).len(),
    ensures
        0 < batched(s, size)[k].len() <= size,
    decreases s.len(),
{
    if s.len() > size && k > 0 {
        law_batches_fit(s.skip(size as int), size, k - 1);
        assert(batched(s, size)[k] == batched(s.skip(size as int), size)[k - 1]);
    }
}

/// What comes back for the batches, one after the other, stands in the order of
/// the texts: where each batch gives for each of its texts, in order, what is
/// `of` that text, the `i`th of all is that of the `i`th text, and there are as
/// many as texts.
pub proof fn law_vectors_stand_in_order<V>(
    texts: Seq<Seq<char>>,
    size: nat,
    vectors: Seq<Seq<V>>,
    of: spec_fn(Seq<char>) -> V,
)
    requires
        size > 0,
        vectors == batched(texts, size).map_values(|b: Seq<Seq<char>>| b.map_values(of)),
    ensures
        vectors.flatten() == texts.map_values(of),
    decreases texts.len(),
{
    let each = |b: Seq<Seq<char>>| b.map_values(of);
    if texts.len() == 0 {
        assert(vectors.flatten() =~= texts.map_values(of));
    } else if texts.len() <= size {
        assert(vectors.drop_first() =~= Seq::empty());
        assert(vectors.drop_first().flatten() =~= Seq::empty());
        assert(vectors.flatten() =~= texts.map_values(of));
    } else {
        let rest = texts.skip(size as int);
        assert(batched(texts, size).drop_first() =~= batched(rest, size));
        assert(vectors.drop_first() =~= batched(rest, size).map_values(each));
        law_vectors_stand_in_order(rest, size, vectors.drop_first(), of);
        assert(vectors.first() == texts.take(size as int).map_values(of));
        assert(vectors.flatten() =~= texts.map_values(of));
    }
}

}
