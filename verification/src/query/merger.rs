//! Joining search hits into a few larger stretches of code.
use vstd::prelude::*;

use crate::text::{clone_opt, join, lines, same_text};

verus! {

/// A code chunk that participates in the merge pipeline.
#[derive(Debug)]
pub struct MergeChunk {
    pub file: String,
    pub line_start: u32,
    pub line_end: u32,
    /// Order key of the relevance score.
    pub score: i32,
    /// Pre-fetched content (may be empty string; will be re-read after merge).
    pub content: String,
    pub symbol: Option<String>,
    /// Full qualified name from the symbol table (e.g. "src/foo.rs::Mod::func").
    pub symbol_fqn: Option<String>,
}

/// What a [`MergeChunk`] says.
pub struct MergeView {
    pub file: Seq<char>,
    pub line_start: u32,
    pub line_end: u32,
    pub score: i32,
    pub content: Seq<char>,
    pub symbol: Option<Seq<char>>,
    pub symbol_fqn: Option<Seq<char>>,
}

impl View for MergeChunk {
    type V = MergeView;

    open spec fn view(&self) -> MergeView {
        MergeView {
            file: self.file@,
            line_start: self.line_start,
            line_end: self.line_end,
            score: self.score,
            content: self.content@,
            symbol: crate::text::opt_text(self.symbol),
            symbol_fqn: crate::text::opt_text(self.symbol_fqn),
        }
    }
}

impl Clone for MergeChunk {
    fn clone(&self) -> (r: Self)
        ensures
            r@ == self@,
    {
        MergeChunk {
            file: self.file.clone(),
            line_start: self.line_start,
            line_end: self.line_end,
            score: self.score,
            content: self.content.clone(),
            symbol: clone_opt(&self.symbol),
            symbol_fqn: clone_opt(&self.symbol_fqn),
        }
    }
}

pub open spec fn merge_views(v: Seq<MergeChunk>) -> Seq<MergeView> {
    Seq::new(v.len(), |i: int| v[i]@)
}

// ─── Sorting ───

/// What chunks are sorted by.
#[derive(Clone, Copy, Debug, PartialEq, Eq, Structural)]
pub enum SortBy {
    /// First line, ascending.
    Start,
    /// Number of lines, descending.
    Width,
    /// Score, descending.
    Score,
}

/// How far the last line is from the first.
pub open spec fn width_of(c: MergeView) -> int {
    if c.line_end >= c.line_start {
        c.line_end - c.line_start
    } else {
        0
    }
}

/// The number by which a chunk is sorted, ascending.
pub open spec fn rank_of(by: SortBy, c: MergeView) -> int {
    match by {
        SortBy::Start => c.line_start as int,
        SortBy::Width => -width_of(c),
        SortBy::Score => -c.score,
    }
}

fn rank(by: SortBy, c: &MergeChunk) -> (r: i64)
    ensures
        r == rank_of(by, c@),
{
    match by {
        SortBy::Start => c.line_start as i64,
        SortBy::Width => if c.line_end >= c.line_start {
            -((c.line_end - c.line_start) as i64)
        } else {
            0
        },
        SortBy::Score => -(c.score as i64),
    }
}

/// A sorted list with one more chunk in its place: behind all that are no
/// greater.
pub open spec fn inserted(by: SortBy, s: Seq<MergeView>, c: MergeView) -> Seq<MergeView>
    decreases s.len(),
{
    if s.len() == 0 || rank_of(by, s.last()) <= rank_of(by, c) {
        s.push(c)
    } else {
        inserted(by, s.drop_last(), c).push(s.last())
    }
}

/// The list in ascending order; chunks that are equal in it keep their order.
pub open spec fn sorted(by: SortBy, s: Seq<MergeView>) -> Seq<MergeView>
    decreases s.len(),
{
    if s.len() == 0 {
        Seq::empty()
    } else {
        inserted(by, sorted(by, s.drop_last()), s.last())
    }
}

proof fn lemma_inserted_at(by: SortBy, s: Seq<MergeView>, c: MergeView, k: int)
    requires
        0 <= k <= s.len(),
        forall|j: int| k <= j < s.len() ==> rank_of(by, #[trigger] s[j]) > rank_of(by, c),
        k > 0 ==> rank_of(by, s[k - 1]) <= rank_of(by, c),
    ensures
        inserted(by, s, c) == s.take(k).push(c) + s.skip(k),
    decreases s.len(),
{
    if k == s.len() {
        assert(s.take(k) =~= s);
        assert(s.take(k).push(c) + s.skip(k) =~= s.push(c));
    } else {
        let t = s.drop_last();
        assert forall|j: int| k <= j < t.len() implies rank_of(by, #[trigger] t[j]) > rank_of(
            by,
            c,
        ) by {
            assert(t[j] == s[j]);
        }
        lemma_inserted_at(by, t, c, k);
        assert(t.take(k) =~= s.take(k));
        assert((t.take(k).push(c) + t.skip(k)).push(s.last()) =~= s.take(k).push(c) + s.skip(k));
    }
}

fn insert_sorted(by: SortBy, v: &mut Vec<MergeChunk>, c: MergeChunk)
    ensures
        merge_views(final(v)@) == inserted(by, merge_views(old(v)@), c@),
{
    let ghost before = merge_views(v@);
    let own = rank(by, &c);
    let mut k: usize = v.len();
    while k > 0 && rank(by, &v[k - 1]) > own
        invariant
            before == merge_views(v@),
            own == rank_of(by, c@),
            k <= v@.len(),
            forall|j: int| k <= j < v@.len() ==> rank_of(by, #[trigger] before[j]) > own,
        decreases k,
    {
        k = k - 1;
        assert(before[k as int] == v@[k as int]@);
    }
    proof {
        if k > 0 {
            assert(before[k - 1] == v@[k - 1]@);
        }
        lemma_inserted_at(by, before, c@, k as int);
    }
    v.insert(k, c);
    assert(merge_views(v@) =~= before.take(k as int).push(c@) + before.skip(k as int));
}

fn sort_chunks(by: SortBy, v: &Vec<MergeChunk>) -> (r: Vec<MergeChunk>)
    ensures
        merge_views(r@) == sorted(by, merge_views(v@)),
{
    let ghost all = merge_views(v@);
    let mut out: Vec<MergeChunk> = Vec::new();
    let mut i: usize = 0;
    assert(all.take(0) =~= Seq::empty());
    assert(merge_views(out@) =~= Seq::empty());
    while i < v.len()
        invariant
            all == merge_views(v@),
            i <= v@.len(),
            merge_views(out@) == sorted(by, all.take(i as int)),
        decreases v@.len() - i,
    {
        assert(all.take(i + 1).drop_last() =~= all.take(i as int));
        assert(all.take(i + 1).last() == v@[i as int]@);
        insert_sorted(by, &mut out, v[i].clone());
        i = i + 1;
    }
    assert(all.take(i as int) =~= all);
    out
}

// ─── Duplicates ───

pub open spec fn same_range(a: MergeView, b: MergeView) -> bool {
    a.file == b.file && a.line_start == b.line_start && a.line_end == b.line_end
}

/// The position of the chunk with the same range, or the length of the list.
pub open spec fn range_at(s: Seq<MergeView>, c: MergeView) -> int
    decreases s.len(),
{
    if s.len() == 0 || same_range(s[0], c) {
        0
    } else {
        1 + range_at(s.drop_first(), c)
    }
}

/// The list with one more chunk: instead of one with the same range where it
/// scores higher, not at all where it does not, and at the end otherwise.
pub open spec fn with_best(s: Seq<MergeView>, c: MergeView) -> Seq<MergeView> {
    let i = range_at(s, c);
    if 0 <= i < s.len() {
        if c.score > s[i].score {
            s.update(i, c)
        } else {
            s
        }
    } else {
        s.push(c)
    }
}

/// One chunk for each range: the first of those that score highest in it, in
/// the order in which the ranges first occur.
pub open spec fn deduped(s: Seq<MergeView>) -> Seq<MergeView>
    decreases s.len(),
{
    if s.len() == 0 {
        Seq::empty()
    } else {
        with_best(deduped(s.drop_last()), s.last())
    }
}

fn find_range(v: &Vec<MergeChunk>, c: &MergeChunk) -> (r: usize)
    ensures
        r == range_at(merge_views(v@), c@),
        r <= v@.len(),
{
    let ghost all = merge_views(v@);
    let mut i: usize = 0;
    assert(all.skip(0) =~= all);
    while i < v.len()
        invariant
            all == merge_views(v@),
            i <= v@.len(),
            range_at(all, c@) == i + range_at(all.skip(i as int), c@),
        decreases v@.len() - i,
    {
        assert(all.skip(i as int)[0] == v@[i as int]@);
        assert(all.skip(i as int).drop_first() =~= all.skip(i + 1));
        if v[i].line_start == c.line_start && v[i].line_end == c.line_end && same_text(
            v[i].file.as_str(),
            c.file.as_str(),
        ) {
            return i;
        }
        i = i + 1;
    }
    i
}

fn dedup(v: &Vec<MergeChunk>) -> (r: Vec<MergeChunk>)
    ensures
        merge_views(r@) == deduped(merge_views(v@)),
{
    let ghost all = merge_views(v@);
    let mut out: Vec<MergeChunk> = Vec::new();
    let mut i: usize = 0;
    assert(all.take(0) =~= Seq::empty());
    assert(merge_views(out@) =~= Seq::empty());
    while i < v.len()
        invariant
            all == merge_views(v@),
            i <= v@.len(),
            merge_views(out@) == deduped(all.take(i as int)),
        decreases v@.len() - i,
    {
        assert(all.take(i + 1).drop_last() =~= all.take(i as int));
        assert(all.take(i + 1).last() == v@[i as int]@);
        let ghost before = merge_views(out@);
        let k = find_range(&out, &v[i]);
        if k < out.len() {
            if v[i].score > out[k].score {
                out.set(k, v[i].clone());
                assert(merge_views(out@) =~= before.update(k as int, v@[i as int]@));
            }
        } else {
            out.push(v[i].clone());
            assert(merge_views(out@) =~= before.push(v@[i as int]@));
        }
        i = i + 1;
    }
    assert(all.take(i as int) =~= all);
    out
}

// ─── Files ───

/// The files of the chunks, each once, in the order in which they first occur.
pub open spec fn files_of(s: Seq<MergeView>) -> Seq<Seq<char>>
    decreases s.len(),
{
    if s.len() == 0 {
        Seq::empty()
    } else {
        let before = files_of(s.drop_last());
        if before.contains(s.last().file) {
            before
        } else {
            before.push(s.last().file)
        }
    }
}

/// The chunks of one file.
pub open spec fn of_file(s: Seq<MergeView>, file: Seq<char>) -> Seq<MergeView>
    decreases s.len(),
{
    if s.len() == 0 {
        Seq::empty()
    } else {
        let before = of_file(s.drop_last(), file);
        if s.last().file == file {
            before.push(s.last())
        } else {
            before
        }
    }
}

fn contains_text(v: &Vec<String>, s: &str) -> (r: bool)
    ensures
        r == crate::text::texts(v@).contains(s@),
{
    let ghost all = crate::text::texts(v@);
    let mut i: usize = 0;
    while i < v.len()
        invariant
            all == crate::text::texts(v@),
            i <= v@.len(),
            forall|j: int| 0 <= j < i ==> #[trigger] all[j] != s@,
        decreases v@.len() - i,
    {
        if same_text(v[i].as_str(), s) {
            assert(all[i as int] == s@);
            return true;
        }
        i = i + 1;
    }
    false
}

fn files(v: &Vec<MergeChunk>) -> (r: Vec<String>)
    ensures
        crate::text::texts(r@) == files_of(merge_views(v@)),
{
    let ghost all = merge_views(v@);
    let mut out: Vec<String> = Vec::new();
    let mut i: usize = 0;
    assert(all.take(0) =~= Seq::empty());
    assert(crate::text::texts(out@) =~= Seq::empty());
    while i < v.len()
        invariant
            all == merge_views(v@),
            i <= v@.len(),
            crate::text::texts(out@) == files_of(all.take(i as int)),
        decreases v@.len() - i,
    {
        assert(all.take(i + 1).drop_last() =~= all.take(i as int));
        assert(all.take(i + 1).last() == v@[i as int]@);
        if !contains_text(&out, v[i].file.as_str()) {
            let ghost before = crate::text::texts(out@);
            out.push(v[i].file.clone());
            assert(crate::text::texts(out@) =~= before.push(v@[i as int]@.file));
        }
        i = i + 1;
    }
    assert(all.take(i as int) =~= all);
    out
}

fn chunks_of_file(v: &Vec<MergeChunk>, file: &str) -> (r: Vec<MergeChunk>)
    ensures
        merge_views(r@) == of_file(merge_views(v@), file@),
{
    let ghost all = merge_views(v@);
    let mut out: Vec<MergeChunk> = Vec::new();
    let mut i: usize = 0;
    assert(all.take(0) =~= Seq::empty());
    assert(merge_views(out@) =~= Seq::empty());
    while i < v.len()
        invariant
            all == merge_views(v@),
            i <= v@.len(),
            merge_views(out@) == of_file(all.take(i as int), file@),
        decreases v@.len() - i,
    {
        assert(all.take(i + 1).drop_last() =~= all.take(i as int));
        assert(all.take(i + 1).last() == v@[i as int]@);
        if same_text(v[i].file.as_str(), file) {
            let ghost before = merge_views(out@);
            out.push(v[i].clone());
            assert(merge_views(out@) =~= before.push(v@[i as int]@));
        }
        i = i + 1;
    }
    assert(all.take(i as int) =~= all);
    out
}

// ─── Merging ───

/// The largest number of lines that a merged chunk may have.
pub const MAX_MERGED_LINES: i64 = 60;

pub open spec fn larger(a: u32, b: u32) -> u32 {
    if a >= b {
        a
    } else {
        b
    }
}

/// The second chunk starts within a gap of one line from the end of the first,
/// and both together are not too long.
pub open spec fn can_merge(a: MergeView, b: MergeView) -> bool {
    b.line_start <= a.line_end + 2 && larger(a.line_end, b.line_end) - a.line_start + 1
        <= MAX_MERGED_LINES
}

/// How many of the first lines of the second chunk the first one has too.
pub open spec fn overlap_of(a: MergeView, b: MergeView) -> int {
    if b.line_start <= a.line_end {
        a.line_end - b.line_start + 1
    } else {
        0
    }
}

/// A text without its first lines.
pub open spec fn without_lines(s: Seq<char>, n: int) -> Seq<char> {
    let all = crate::text::lines_of(s);
    if n < all.len() {
        crate::text::joined(all.skip(n), "\n"@)
    } else {
        Seq::empty()
    }
}

pub open spec fn or_else(a: Option<Seq<char>>, b: Option<Seq<char>>) -> Option<Seq<char>> {
    if a is Some {
        a
    } else {
        b
    }
}

/// Two chunks as one: the lines of both, the higher score, the content of the
/// first with what only the second has behind it, and the symbol of the first
/// that has one.
pub open spec fn merged_pair(a: MergeView, b: MergeView) -> MergeView {
    let tail = without_lines(b.content, overlap_of(a, b));
    MergeView {
        file: a.file,
        line_start: a.line_start,
        line_end: larger(a.line_end, b.line_end),
        score: if a.score >= b.score {
            a.score
        } else {
            b.score
        },
        content: if tail.len() > 0 {
            a.content.push('\n') + tail
        } else {
            a.content
        },
        symbol: or_else(a.symbol, b.symbol),
        symbol_fqn: or_else(a.symbol_fqn, b.symbol_fqn),
    }
}

/// Each chunk joined to the one before it wherever that is possible.
pub open spec fn merged(s: Seq<MergeView>) -> Seq<MergeView>
    decreases s.len(),
{
    if s.len() == 0 {
        Seq::empty()
    } else {
        let before = merged(s.drop_last());
        if before.len() > 0 && can_merge(before.last(), s.last()) {
            before.drop_last().push(merged_pair(before.last(), s.last()))
        } else {
            before.push(s.last())
        }
    }
}

fn cut_lines(s: &str, n: u64) -> (r: String)
    ensures
        r@ == without_lines(s@, n as int),
{
    let all = lines(s);
    let ghost views = crate::text::texts(all@);
    if n >= all.len() as u64 {
        return String::new();
    }
    let mut rest: Vec<String> = Vec::new();
    let mut i: usize = n as usize;
    while i < all.len()
        invariant
            views == crate::text::texts(all@),
            n <= i <= all@.len(),
            crate::text::texts(rest@) == views.subrange(n as int, i as int),
        decreases all@.len() - i,
    {
        let ghost before = crate::text::texts(rest@);
        rest.push(all[i].clone());
        assert(crate::text::texts(rest@) =~= before.push(all@[i as int]@));
        assert(views.subrange(n as int, i + 1) =~= views.subrange(n as int, i as int).push(
            all@[i as int]@,
        ));
        i = i + 1;
    }
    assert(views.subrange(n as int, i as int) =~= views.skip(n as int));
    join(rest.as_slice(), "\n")
}

fn clone_or(a: &Option<String>, b: &Option<String>) -> (r: Option<String>)
    ensures
        crate::text::opt_text(r) == or_else(crate::text::opt_text(*a), crate::text::opt_text(*b)),
{
    match a {
        Some(s) => Some(s.clone()),
        None => clone_opt(b),
    }
}

fn can_join(a: &MergeChunk, b: &MergeChunk) -> (r: bool)
    ensures
        r == can_merge(a@, b@),
{
    let end = if a.line_end >= b.line_end {
        a.line_end
    } else {
        b.line_end
    };
    b.line_start as i64 <= a.line_end as i64 + 2 && end as i64 - a.line_start as i64 + 1
        <= MAX_MERGED_LINES
}

fn join_pair(a: &MergeChunk, b: &MergeChunk) -> (r: MergeChunk)
    ensures
        r@ == merged_pair(a@, b@),
{
    let overlap: u64 = if b.line_start <= a.line_end {
        (a.line_end - b.line_start) as u64 + 1
    } else {
        0
    };
    let tail = cut_lines(b.content.as_str(), overlap);
    let mut content = a.content.clone();
    if !tail.as_str().is_empty() {
        content.push('\n');
        content.append(tail.as_str());
    }
    MergeChunk {
        file: a.file.clone(),
        line_start: a.line_start,
        line_end: if a.line_end >= b.line_end {
            a.line_end
        } else {
            b.line_end
        },
        score: if a.score >= b.score {
            a.score
        } else {
            b.score
        },
        content,
        symbol: clone_or(&a.symbol, &b.symbol),
        symbol_fqn: clone_or(&a.symbol_fqn, &b.symbol_fqn),
    }
}

fn merge_pass(v: &Vec<MergeChunk>) -> (r: Vec<MergeChunk>)
    ensures
        merge_views(r@) == merged(merge_views(v@)),
{
    let ghost all = merge_views(v@);
    let mut out: Vec<MergeChunk> = Vec::new();
    let mut i: usize = 0;
    assert(all.take(0) =~= Seq::empty());
    assert(merge_views(out@) =~= Seq::empty());
    while i < v.len()
        invariant
            all == merge_views(v@),
            i <= v@.len(),
            merge_views(out@) == merged(all.take(i as int)),
        decreases v@.len() - i,
    {
        assert(all.take(i + 1).drop_last() =~= all.take(i as int));
        assert(all.take(i + 1).last() == v@[i as int]@);
        let ghost before = merge_views(out@);
        let n: usize = out.len();
        if n > 0 && can_join(&out[n - 1], &v[i]) {
            let both = join_pair(&out[n - 1], &v[i]);
            assert(before.last() == out@[n - 1]@);
            out.set(n - 1, both);
            assert(merge_views(out@) =~= before.drop_last().push(both@));
        } else {
            proof {
                if n > 0 {
                    assert(before.last() == out@[n - 1]@);
                }
            }
            out.push(v[i].clone());
            assert(merge_views(out@) =~= before.push(v@[i as int]@));
        }
        i = i + 1;
    }
    assert(all.take(i as int) =~= all);
    out
}

// ─── Containment ───

/// The first chunk covers all lines of the second.
pub open spec fn covers(a: MergeView, b: MergeView) -> bool {
    a.file == b.file && a.line_start <= b.line_start && a.line_end >= b.line_end
}

pub open spec fn covered_by_any(s: Seq<MergeView>, c: MergeView) -> bool {
    exists|i: int| 0 <= i < s.len() && covers(#[trigger] s[i], c)
}

/// The chunks that none kept before them covers.
pub open spec fn survivors(s: Seq<MergeView>) -> Seq<MergeView>
    decreases s.len(),
{
    if s.len() == 0 {
        Seq::empty()
    } else {
        let before = survivors(s.drop_last());
        if covered_by_any(before, s.last()) {
            before
        } else {
            before.push(s.last())
        }
    }
}

fn is_covered(v: &Vec<MergeChunk>, c: &MergeChunk) -> (r: bool)
    ensures
        r == covered_by_any(merge_views(v@), c@),
{
    let ghost all = merge_views(v@);
    let mut i: usize = 0;
    while i < v.len()
        invariant
            all == merge_views(v@),
            i <= v@.len(),
            forall|j: int| 0 <= j < i ==> !covers(#[trigger] all[j], c@),
        decreases v@.len() - i,
    {
        assert(all[i as int] == v@[i as int]@);
        if v[i].line_start <= c.line_start && v[i].line_end >= c.line_end && same_text(
            v[i].file.as_str(),
            c.file.as_str(),
        ) {
            assert(covers(all[i as int], c@));
            return true;
        }
        i = i + 1;
    }
    false
}

fn drop_covered(v: &Vec<MergeChunk>) -> (r: Vec<MergeChunk>)
    ensures
        merge_views(r@) == survivors(merge_views(v@)),
{
    let ghost all = merge_views(v@);
    let mut out: Vec<MergeChunk> = Vec::new();
    let mut i: usize = 0;
    assert(all.take(0) =~= Seq::empty());
    assert(merge_views(out@) =~= Seq::empty());
    while i < v.len()
        invariant
            all == merge_views(v@),
            i <= v@.len(),
            merge_views(out@) == survivors(all.take(i as int)),
        decreases v@.len() - i,
    {
        assert(all.take(i + 1).drop_last() =~= all.take(i as int));
        assert(all.take(i + 1).last() == v@[i as int]@);
        if !is_covered(&out, &v[i]) {
            let ghost before = merge_views(out@);
            out.push(v[i].clone());
            assert(merge_views(out@) =~= before.push(v@[i as int]@));
        }
        i = i + 1;
    }
    assert(all.take(i as int) =~= all);
    out
}

// ─── All together ───

/// What becomes of the chunks of one file.
pub open spec fn file_result(s: Seq<MergeView>, file: Seq<char>) -> Seq<MergeView> {
    survivors(sorted(SortBy::Width, merged(sorted(SortBy::Start, of_file(s, file)))))
}

/// What becomes of the chunks of several files, one file after the other.
pub open spec fn files_result(s: Seq<MergeView>, files: Seq<Seq<char>>) -> Seq<MergeView>
    decreases files.len(),
{
    if files.len() == 0 {
        Seq::empty()
    } else {
        files_result(s, files.drop_last()) + file_result(s, files.last())
    }
}

/// Everything that remains, best score first.
pub open spec fn merged_all(s: Seq<MergeView>) -> Seq<MergeView> {
    let unique = deduped(s);
    sorted(SortBy::Score, files_result(unique, files_of(unique)))
}

/// The first elements of a list, or all of it where it is shorter.
pub open spec fn at_most<A>(s: Seq<A>, n: int) -> Seq<A> {
    if n < s.len() {
        s.take(n)
    } else {
        s
    }
}

/// Dedup + merge adjacent chunks, then cap to `top_k`.
///
/// Steps:
/// 1. Dedup by (file, line_start, line_end) — keep highest score.
/// 2. Group by file.
/// 3. Sort within each group by line_start ASC.
/// 4. Merge pass: merge when next.line_start <= current.line_end + 2 (gap ≤ 1),
///    capping merged range at 60 lines.
/// 5. Drop contained: within each file group, sort by width DESC, skip any chunk
///    fully inside a wider one.
/// 6. Collect all groups, sort by score DESC, cap to top_k.
///
/// Where the order is open, chunks and files keep the order in which they came.
pub fn merge_chunks(chunks: Vec<MergeChunk>, top_k: usize) -> (r: Vec<MergeChunk>)
    ensures
        merge_views(r@) == at_most(merged_all(merge_views(chunks@)), top_k as int),
{
    let unique = dedup(&chunks);
    let names = files(&unique);
    let ghost views = merge_views(unique@);
    let ghost all = crate::text::texts(names@);
    let mut result: Vec<MergeChunk> = Vec::new();
    let mut i: usize = 0;
    assert(all.take(0) =~= Seq::empty());
    assert(merge_views(result@) =~= Seq::empty());
    while i < names.len()
        invariant
            views == merge_views(unique@),
            all == crate::text::texts(names@),
            i <= names@.len(),
            merge_views(result@) == files_result(views, all.take(i as int)),
        decreases names@.len() - i,
    {
        assert(all.take(i + 1).drop_last() =~= all.take(i as int));
        assert(all.take(i + 1).last() == names@[i as int]@);
        let group = chunks_of_file(&unique, names[i].as_str());
        let ordered = sort_chunks(SortBy::Start, &group);
        let joined = merge_pass(&ordered);
        let wide = sort_chunks(SortBy::Width, &joined);
        let mut kept = drop_covered(&wide);
        let ghost before = result@;
        let ghost added = kept@;
        result.append(&mut kept);
        assert(merge_views(result@) =~= merge_views(before) + merge_views(added));
        i = i + 1;
    }
    assert(all.take(i as int) =~= all);
    let mut best = sort_chunks(SortBy::Score, &result);
    let ghost full = merge_views(best@);
    best.truncate(top_k);
    assert(merge_views(best@) =~= at_most(full, top_k as int));
    best
}

}
