//! Merging depends neither on the order of the hits nor on how often it is done.
use vstd::prelude::*;

use crate::query::merger::{MergeView, SortBy};
use crate::query::{merger, merger_laws};

verus! {

/// No two chunks score the same.
pub open spec fn scores_differ(s: Seq<MergeView>) -> bool {
    forall|i: int, j: int|
        0 <= i < j < s.len() ==> (#[trigger] s[i]).score != (#[trigger] s[j]).score
}

/// No two chunks of a file begin at the same line.
pub open spec fn starts_differ(s: Seq<MergeView>) -> bool {
    forall|i: int, j: int|
        0 <= i < j < s.len() && (#[trigger] s[i]).file == (#[trigger] s[j]).file
            ==> s[i].line_start != s[j].line_start
}

/// Ranges that differ in their scores and in where they begin.
pub open spec fn all_differ(s: Seq<MergeView>) -> bool {
    &&& merger_laws::all_ranges(s)
    &&& scores_differ(s)
    &&& starts_differ(s)
}

spec fn same_members(a: Seq<MergeView>, b: Seq<MergeView>) -> bool {
    merger_laws::within(a, b) && merger_laws::within(b, a)
}

/// The list is in order of the given rank, which no two chunks share.
spec fn strict(by: SortBy, s: Seq<MergeView>) -> bool {
    forall|i: int, j: int|
        0 <= i < j < s.len() ==> merger::rank_of(by, #[trigger] s[i]) < merger::rank_of(
            by,
            #[trigger] s[j],
        )
}

/// Two lists in strict order with the same members are the same.
proof fn lemma_strict_unique(by: SortBy, a: Seq<MergeView>, b: Seq<MergeView>)
    requires
        strict(by, a),
        strict(by, b),
        same_members(a, b),
    ensures
        a == b,
    decreases a.len(),
{
    if a.len() == 0 {
        if b.len() > 0 {
            assert(a.contains(b[0]));
        }
        assert(a =~= b);
    } else {
        assert(b.contains(a[a.len() - 1]));
        let k = choose|k: int| 0 <= k < b.len() && #[trigger] b[k] == a[a.len() - 1];
        assert(a.contains(b[b.len() - 1]));
        let m = choose|m: int| 0 <= m < a.len() && #[trigger] a[m] == b[b.len() - 1];
        assert(m == a.len() - 1);
        assert(a.last() == b.last());
        let (ta, tb) = (a.drop_last(), b.drop_last());
        assert forall|i: int| 0 <= i < ta.len() implies tb.contains(#[trigger] ta[i]) by {
            assert(b.contains(a[i]));
            let q = choose|q: int| 0 <= q < b.len() && #[trigger] b[q] == a[i];
            assert(merger::rank_of(by, a[i]) < merger::rank_of(by, a[a.len() - 1]));
            assert(tb[q] == a[i]);
        }
        assert forall|i: int| 0 <= i < tb.len() implies ta.contains(#[trigger] tb[i]) by {
            assert(a.contains(b[i]));
            let q = choose|q: int| 0 <= q < a.len() && #[trigger] a[q] == b[i];
            assert(merger::rank_of(by, b[i]) < merger::rank_of(by, b[b.len() - 1]));
            assert(ta[q] == b[i]);
        }
        lemma_strict_unique(by, ta, tb);
        assert(a =~= ta.push(a.last()));
        assert(b =~= tb.push(b.last()));
    }
}

/// A permutation of a list without duplicates has none either, and the same
/// members.
proof fn lemma_permuted(a: Seq<MergeView>, b: Seq<MergeView>)
    requires
        a.no_duplicates(),
        a.to_multiset() == b.to_multiset(),
    ensures
        b.no_duplicates(),
        same_members(a, b),
{
    a.lemma_multiset_has_no_duplicates();
    b.lemma_multiset_has_no_duplicates_conv();
    a.to_multiset_ensures();
    b.to_multiset_ensures();
    assert forall|i: int| 0 <= i < a.len() implies b.contains(#[trigger] a[i]) by {
        assert(a.contains(a[i]));
        assert(b.to_multiset().count(a[i]) > 0);
    }
    assert forall|i: int| 0 <= i < b.len() implies a.contains(#[trigger] b[i]) by {
        assert(b.contains(b[i]));
        assert(a.to_multiset().count(b[i]) > 0);
    }
}

/// What differs in a list differs in any list of its members without duplicates.
proof fn lemma_differ_within(a: Seq<MergeView>, b: Seq<MergeView>)
    requires
        merger_laws::within(b, a),
        b.no_duplicates(),
    ensures
        scores_differ(a) ==> scores_differ(b),
        starts_differ(a) ==> starts_differ(b),
        merger_laws::all_ranges(a) ==> merger_laws::all_ranges(b),
{
    assert forall|i: int, j: int| 0 <= i < j < b.len() implies {
        &&& scores_differ(a) ==> (#[trigger] b[i]).score != (#[trigger] b[j]).score
        &&& starts_differ(a) && b[i].file == b[j].file ==> b[i].line_start != b[j].line_start
    } by {
        assert(a.contains(b[i]) && a.contains(b[j]));
        let x = choose|x: int| 0 <= x < a.len() && #[trigger] a[x] == b[i];
        let y = choose|y: int| 0 <= y < a.len() && #[trigger] a[y] == b[j];
        assert(b[i] != b[j]);
        if x < y {
        } else {
            assert(y < x);
        }
    }
    if merger_laws::all_ranges(a) {
        merger_laws::lemma_ranges_within(b, a);
    }
}

proof fn lemma_no_duplicates(s: Seq<MergeView>)
    requires
        scores_differ(s) || starts_differ(s),
    ensures
        s.no_duplicates(),
{
    assert forall|i: int, j: int| 0 <= i < s.len() && 0 <= j < s.len() && i != j implies s[i]
        != s[j] by {
        if i < j {
            assert(s[i] != s[j]);
        } else {
            assert(s[j] != s[i]);
        }
    }
}

// ─── What stays the same ───

proof fn lemma_deduped_same(s: Seq<MergeView>)
    requires
        starts_differ(s),
    ensures
        merger::deduped(s) == s,
    decreases s.len(),
{
    if s.len() == 0 {
        assert(merger::deduped(s) =~= s);
    } else {
        let t = s.drop_last();
        assert(starts_differ(t)) by {
            assert forall|i: int, j: int|
                0 <= i < j < t.len() && (#[trigger] t[i]).file == (#[trigger] t[j]).file implies
                t[i].line_start != t[j].line_start by {
                assert(s[i].file == s[j].file);
            }
        }
        lemma_deduped_same(t);
        let i = merger::range_at(t, s.last());
        merger_laws::lemma_range_at(t, s.last());
        if i < t.len() {
            assert(merger::same_range(t[i], s.last()));
            assert(s[i].file == s[s.len() - 1].file);
        }
        assert(t.push(s.last()) =~= s);
    }
}

/// No chunk can be joined to one that comes later.
spec fn all_apart(s: Seq<MergeView>) -> bool {
    forall|i: int, j: int|
        0 <= i < j < s.len() ==> !merger::can_merge(#[trigger] s[i], #[trigger] s[j])
}

proof fn lemma_merged_same(s: Seq<MergeView>)
    requires
        all_apart(s),
    ensures
        merger::merged(s) == s,
    decreases s.len(),
{
    if s.len() == 0 {
        assert(merger::merged(s) =~= s);
    } else {
        let t = s.drop_last();
        assert forall|i: int, j: int| 0 <= i < j < t.len() implies !merger::can_merge(
            #[trigger] t[i],
            #[trigger] t[j],
        ) by {
            assert(!merger::can_merge(s[i], s[j]));
        }
        lemma_merged_same(t);
        if t.len() > 0 {
            assert(!merger::can_merge(s[t.len() - 1], s[s.len() - 1]));
        }
        assert(t.push(s.last()) =~= s);
    }
}

proof fn lemma_survivors_same(s: Seq<MergeView>)
    requires
        merger_laws::none_covered(s),
    ensures
        merger::survivors(s) == s,
    decreases s.len(),
{
    if s.len() == 0 {
        assert(merger::survivors(s) =~= s);
    } else {
        let t = s.drop_last();
        assert forall|i: int, j: int|
            0 <= i < t.len() && 0 <= j < t.len() && i != j implies !merger::covers(
            #[trigger] t[i],
            #[trigger] t[j],
        ) by {
            assert(!merger::covers(s[i], s[j]));
        }
        lemma_survivors_same(t);
        assert(!merger::covered_by_any(t, s.last())) by {
            if merger::covered_by_any(t, s.last()) {
                let i = choose|i: int| 0 <= i < t.len() && merger::covers(
                    #[trigger] t[i],
                    s.last(),
                );
                assert(!merger::covers(s[i], s[s.len() - 1]));
            }
        }
        assert(t.push(s.last()) =~= s);
    }
}

// ─── The chunks of one file ───

/// The chunks of a file in order.
spec fn ordered(s: Seq<MergeView>, file: Seq<char>) -> Seq<MergeView> {
    merger::sorted(SortBy::Start, merger::of_file(s, file))
}

proof fn lemma_of_file_no_duplicates(s: Seq<MergeView>, file: Seq<char>)
    requires
        s.no_duplicates(),
    ensures
        merger::of_file(s, file).no_duplicates(),
    decreases s.len(),
{
    if s.len() > 0 {
        let t = s.drop_last();
        let g = merger::of_file(t, file);
        lemma_of_file_no_duplicates(t, file);
        merger_laws::lemma_of_file(t, file);
        assert forall|i: int| 0 <= i < g.len() implies #[trigger] g[i] != s.last() by {
            assert(t.contains(g[i]));
            let k = choose|k: int| 0 <= k < t.len() && #[trigger] t[k] == g[i];
            assert(s[k] != s[s.len() - 1]);
        }
    }
}

proof fn lemma_ordered(s: Seq<MergeView>, file: Seq<char>)
    requires
        starts_differ(s),
    ensures
        strict(SortBy::Start, ordered(s, file)),
        merger_laws::one_file(ordered(s, file), file),
        merger_laws::within(ordered(s, file), s),
        ordered(s, file).no_duplicates(),
        forall|c: MergeView| #[trigger]
            ordered(s, file).contains(c) <==> s.contains(c) && c.file == file,
{
    let g = merger::of_file(s, file);
    let o = ordered(s, file);
    lemma_no_duplicates(s);
    lemma_of_file_no_duplicates(s, file);
    merger_laws::lemma_of_file(s, file);
    merger_laws::law_sorted_keeps_all(SortBy::Start, g);
    merger_laws::law_sorted_is_ascending(SortBy::Start, g);
    lemma_permuted(g, o);
    merger_laws::lemma_one_file_within(o, g, file);
    assert forall|c: MergeView| #[trigger] o.contains(c) <==> s.contains(c) && c.file == file by {
        if o.contains(c) {
            let i = choose|i: int| 0 <= i < o.len() && #[trigger] o[i] == c;
            assert(g.contains(o[i]));
            let k = choose|k: int| 0 <= k < g.len() && #[trigger] g[k] == c;
            assert(s.contains(g[k]));
        }
        if s.contains(c) && c.file == file {
            let i = choose|i: int| 0 <= i < s.len() && #[trigger] s[i] == c;
            assert(g.contains(s[i]));
            let k = choose|k: int| 0 <= k < g.len() && #[trigger] g[k] == c;
            assert(o.contains(g[k]));
        }
    }
    assert forall|i: int| 0 <= i < o.len() implies s.contains(#[trigger] o[i]) by {
        assert(o.contains(o[i]));
    }
    lemma_differ_within(s, o);
    assert forall|i: int, j: int| 0 <= i < j < o.len() implies merger::rank_of(
        SortBy::Start,
        #[trigger] o[i],
    ) < merger::rank_of(SortBy::Start, #[trigger] o[j]) by {
        assert(merger::rank_of(SortBy::Start, o[i]) <= merger::rank_of(SortBy::Start, o[j]));
        assert(o[i].file == o[j].file);
    }
}

/// Some chunk has the score.
spec fn has_score(s: Seq<MergeView>, score: i32) -> bool {
    exists|i: int| 0 <= i < s.len() && (#[trigger] s[i]).score == score
}

/// Merging keeps the order of the starts, and takes every score from the list.
proof fn lemma_merged_keys(s: Seq<MergeView>)
    requires
        strict(SortBy::Start, s),
    ensures
        strict(SortBy::Start, merger::merged(s)),
        s.len() > 0 ==> merger::merged(s).len() > 0 && merger::merged(s).last().line_start
            <= s.last().line_start,
        forall|i: int|
            0 <= i < merger::merged(s).len() ==> has_score(
                s,
                (#[trigger] merger::merged(s)[i]).score,
            ),
        scores_differ(s) ==> scores_differ(merger::merged(s)),
        merger::merged(s).len() <= s.len(),
    decreases s.len(),
{
    if s.len() > 0 {
        let t = s.drop_last();
        let c = s.last();
        let before = merger::merged(t);
        let m = merger::merged(s);
        assert forall|i: int, j: int| 0 <= i < j < t.len() implies merger::rank_of(
            SortBy::Start,
            #[trigger] t[i],
        ) < merger::rank_of(SortBy::Start, #[trigger] t[j]) by {
            assert(merger::rank_of(SortBy::Start, s[i]) < merger::rank_of(SortBy::Start, s[j]));
        }
        lemma_merged_keys(t);
        assert(s[s.len() - 1] == c);
        if t.len() > 0 {
            assert(merger::rank_of(SortBy::Start, s[t.len() - 1]) < merger::rank_of(
                SortBy::Start,
                s[s.len() - 1],
            ));
            assert(before[before.len() - 1] == before.last());
        }
        assert forall|score: i32| #[trigger] has_score(t, score) implies has_score(s, score) by {
            let k = choose|k: int| 0 <= k < t.len() && (#[trigger] t[k]).score == score;
            assert(s[k].score == score);
        }
        assert(has_score(s, c.score));
        if scores_differ(s) {
            assert(scores_differ(t)) by {
                assert forall|i: int, j: int| 0 <= i < j < t.len() implies (#[trigger] t[i]).score
                    != (#[trigger] t[j]).score by {
                    assert(s[i].score != s[j].score);
                }
            }
            assert(!has_score(t, c.score)) by {
                if has_score(t, c.score) {
                    let k = choose|k: int| 0 <= k < t.len() && (#[trigger] t[k]).score == c.score;
                    assert(s[k].score != s[s.len() - 1].score);
                }
            }
        }
        assert forall|i: int| 0 <= i < m.len() implies has_score(s, (#[trigger] m[i]).score) by {
            if i < before.len() {
                assert(has_score(t, before[i].score));
            }
        }
        assert forall|i: int, j: int| 0 <= i < j < m.len() implies {
            &&& merger::rank_of(SortBy::Start, #[trigger] m[i]) < merger::rank_of(
                SortBy::Start,
                #[trigger] m[j],
            )
            &&& scores_differ(s) ==> m[i].score != m[j].score
        } by {
            assert(m[i] == before[i]);
            assert(has_score(t, before[i].score));
            if i < before.len() - 1 {
                assert(merger::rank_of(SortBy::Start, before[i]) < merger::rank_of(
                    SortBy::Start,
                    before[before.len() - 1],
                ));
            }
            if j < before.len() {
                assert(before[i].score != before[j].score || !scores_differ(s));
                assert(m[j].line_start == before[j].line_start);
            }
        }
    }
}

/// No chunk can be joined to the one behind it.
spec fn neighbours_apart(s: Seq<MergeView>) -> bool {
    forall|i: int, j: int|
        0 <= i && j == i + 1 && j < s.len() ==> !merger::can_merge(
            #[trigger] s[i],
            #[trigger] s[j],
        )
}

proof fn lemma_merged_apart(s: Seq<MergeView>)
    ensures
        neighbours_apart(merger::merged(s)),
    decreases s.len(),
{
    if s.len() > 0 {
        let before = merger::merged(s.drop_last());
        let m = merger::merged(s);
        lemma_merged_apart(s.drop_last());
        assert forall|i: int, j: int| 0 <= i && j == i + 1 && j < m.len() implies
            !merger::can_merge(#[trigger] m[i], #[trigger] m[j]) by {
            assert(m[i] == before[i]);
            if j < before.len() {
                assert(!merger::can_merge(before[i], before[j]));
                assert(m[j].line_start == before[j].line_start && m[j].line_end
                    >= before[j].line_end);
            }
        }
    }
}

/// A chunk that none covers cannot be joined to any before it.
proof fn lemma_uncovered_apart(m: Seq<MergeView>, file: Seq<char>, i: int, j: int)
    requires
        strict(SortBy::Start, m),
        merger_laws::one_file(m, file),
        merger_laws::all_ranges(m),
        neighbours_apart(m),
        0 <= i < j < m.len(),
        forall|q: int| 0 <= q < m.len() && q != j ==> !merger::covers(#[trigger] m[q], m[j]),
    ensures
        !merger::can_merge(m[i], m[j]),
{
    let next = m[i + 1];
    assert(!merger::can_merge(m[i], next));
    assert(merger::rank_of(SortBy::Start, m[i]) < merger::rank_of(SortBy::Start, next));
    assert(merger_laws::is_range(m[i]) && merger_laws::is_range(next));
    if i + 1 < j {
        assert(merger::rank_of(SortBy::Start, next) < merger::rank_of(SortBy::Start, m[j]));
        assert(!merger::covers(m[i + 1], m[j]));
        assert(m[i + 1].file == m[j].file);
    }
}

/// What remains of the chunks of a file: some of the merged ones, each of which
/// no other merged one covers.
proof fn lemma_kept(s: Seq<MergeView>, file: Seq<char>)
    requires
        all_differ(s),
    ensures
        ({
            let m = merger::merged(ordered(s, file));
            let r = merger::file_result(s, file);
            &&& strict(SortBy::Start, m)
            &&& merger_laws::one_file(m, file)
            &&& merger_laws::all_ranges(m)
            &&& neighbours_apart(m)
            &&& scores_differ(m)
            &&& merger_laws::within(r, m)
            &&& forall|i: int, q: int|
                0 <= i < r.len() && 0 <= q < m.len() && m[q] != r[i] ==> !merger::covers(
                    #[trigger] m[q],
                    #[trigger] r[i],
                )
        }),
{
    let o = ordered(s, file);
    let m = merger::merged(o);
    let w = merger::sorted(SortBy::Width, m);
    let r = merger::file_result(s, file);
    lemma_ordered(s, file);
    lemma_differ_within(s, o);
    lemma_merged_keys(o);
    lemma_merged_apart(o);
    assert(merger_laws::ascending(SortBy::Start, o)) by {
        assert forall|i: int, j: int| 0 <= i < j < o.len() implies merger::rank_of(
            SortBy::Start,
            #[trigger] o[i],
        ) <= merger::rank_of(SortBy::Start, #[trigger] o[j]) by {}
    }
    merger_laws::lemma_merged_shape(o, file);
    merger_laws::law_sorted_keeps_all(SortBy::Width, m);
    merger_laws::law_sorted_is_ascending(SortBy::Width, m);
    merger_laws::lemma_ranges_within(w, m);
    merger_laws::lemma_survivors(w);
    merger_laws::lemma_survivors_none_covered(w);
    assert forall|i: int| 0 <= i < r.len() implies m.contains(#[trigger] r[i]) by {
        assert(w.contains(r[i]));
        let k = choose|k: int| 0 <= k < w.len() && #[trigger] w[k] == r[i];
        assert(m.contains(w[k]));
    }
    assert forall|i: int, q: int|
        0 <= i < r.len() && 0 <= q < m.len() && m[q] != r[i] implies !merger::covers(
        #[trigger] m[q],
        #[trigger] r[i],
    ) by {
        if merger::covers(m[q], r[i]) {
            assert(w.contains(m[q]));
            let x = choose|x: int| 0 <= x < w.len() && #[trigger] w[x] == m[q];
            assert(merger::covered_by_any(r, w[x]));
            let k = choose|k: int| 0 <= k < r.len() && merger::covers(#[trigger] r[k], w[x]);
            merger_laws::lemma_covers_trans(r[k], m[q], r[i]);
            if k == i {
                assert(m.contains(r[i]));
                let y = choose|y: int| 0 <= y < m.len() && #[trigger] m[y] == r[i];
                assert(m[y].line_start == m[q].line_start);
                if y < q {
                    assert(merger::rank_of(SortBy::Start, m[y]) < merger::rank_of(
                        SortBy::Start,
                        m[q],
                    ));
                } else {
                    assert(merger::rank_of(SortBy::Start, m[q]) < merger::rank_of(
                        SortBy::Start,
                        m[y],
                    ));
                }
            } else {
                assert(!merger::covers(r[k], r[i]));
            }
        }
    }
}

/// What remains of the chunks of a file depends only on which they are.
proof fn lemma_file_result_same(a: Seq<MergeView>, b: Seq<MergeView>, file: Seq<char>)
    requires
        starts_differ(a),
        starts_differ(b),
        same_members(a, b),
    ensures
        merger::file_result(a, file) == merger::file_result(b, file),
{
    let (x, y) = (ordered(a, file), ordered(b, file));
    lemma_ordered(a, file);
    lemma_ordered(b, file);
    assert forall|i: int| 0 <= i < x.len() implies y.contains(#[trigger] x[i]) by {
        assert(x.contains(x[i]));
        let k = choose|k: int| 0 <= k < a.len() && #[trigger] a[k] == x[i];
        assert(b.contains(a[k]));
    }
    assert forall|i: int| 0 <= i < y.len() implies x.contains(#[trigger] y[i]) by {
        assert(y.contains(y[i]));
        let k = choose|k: int| 0 <= k < b.len() && #[trigger] b[k] == y[i];
        assert(a.contains(b[k]));
    }
    lemma_strict_unique(SortBy::Start, x, y);
}

/// Where a list has of some file what remains of that file's chunks in another,
/// just that remains.
proof fn lemma_file_result_again(s: Seq<MergeView>, r: Seq<MergeView>, file: Seq<char>)
    requires
        all_differ(s),
        starts_differ(r),
        forall|c: MergeView| #[trigger]
            r.contains(c) && c.file == file <==> merger::file_result(s, file).contains(c),
    ensures
        same_members(merger::file_result(r, file), merger::file_result(s, file)),
{
    let kept = merger::file_result(s, file);
    let m = merger::merged(ordered(s, file));
    let t = ordered(r, file);
    lemma_kept(s, file);
    lemma_ordered(r, file);
    assert forall|i: int| 0 <= i < t.len() implies kept.contains(#[trigger] t[i]) by {
        assert(t.contains(t[i]));
        assert(r.contains(t[i]));
    }
    assert forall|i: int| 0 <= i < kept.len() implies t.contains(#[trigger] kept[i]) by {
        assert(kept.contains(kept[i]));
        assert(r.contains(kept[i]));
    }
    assert forall|i: int| 0 <= i < t.len() implies {
        &&& m.contains(#[trigger] t[i])
        &&& forall|q: int|
            0 <= q < m.len() && m[q] != t[i] ==> !merger::covers(#[trigger] m[q], t[i])
    } by {
        let k = choose|k: int| 0 <= k < kept.len() && #[trigger] kept[k] == t[i];
        assert(m.contains(kept[k]));
    }
    assert forall|i: int, j: int| 0 <= i < j < t.len() implies !merger::can_merge(
        #[trigger] t[i],
        #[trigger] t[j],
    ) by {
        assert(m.contains(t[i]) && m.contains(t[j]));
        let x = choose|x: int| 0 <= x < m.len() && #[trigger] m[x] == t[i];
        let y = choose|y: int| 0 <= y < m.len() && #[trigger] m[y] == t[j];
        assert(merger::rank_of(SortBy::Start, t[i]) < merger::rank_of(SortBy::Start, t[j]));
        if y < x {
            assert(merger::rank_of(SortBy::Start, m[y]) < merger::rank_of(SortBy::Start, m[x]));
        }
        assert forall|q: int| 0 <= q < m.len() && q != y implies !merger::covers(
            #[trigger] m[q],
            m[y],
        ) by {
            if q < y {
                assert(merger::rank_of(SortBy::Start, m[q]) < merger::rank_of(SortBy::Start, m[y]));
            } else {
                assert(merger::rank_of(SortBy::Start, m[y]) < merger::rank_of(SortBy::Start, m[q]));
            }
            assert(m[q] != t[j]);
        }
        lemma_uncovered_apart(m, file, x, y);
    }
    lemma_merged_same(t);
    assert forall|i: int, j: int|
        0 <= i < t.len() && 0 <= j < t.len() && i != j implies !merger::covers(
        #[trigger] t[i],
        #[trigger] t[j],
    ) by {
        assert(m.contains(t[i]) && m.contains(t[j]));
        let x = choose|x: int| 0 <= x < m.len() && #[trigger] m[x] == t[i];
        assert(t[i] != t[j]);
        assert(m[x] != t[j]);
    }
    let w = merger::sorted(SortBy::Width, t);
    merger_laws::lemma_sorted_none_covered(SortBy::Width, t);
    lemma_survivors_same(w);
    merger_laws::law_sorted_keeps_all(SortBy::Width, t);
    assert forall|i: int| 0 <= i < w.len() implies kept.contains(#[trigger] w[i]) by {
        assert(t.contains(w[i]));
        let k = choose|k: int| 0 <= k < t.len() && #[trigger] t[k] == w[i];
        assert(kept.contains(t[k]));
    }
    assert forall|i: int| 0 <= i < kept.len() implies w.contains(#[trigger] kept[i]) by {
        assert(t.contains(kept[i]));
        let k = choose|k: int| 0 <= k < t.len() && #[trigger] t[k] == kept[i];
        assert(w.contains(t[k]));
    }
}

proof fn lemma_survivors_differ(s: Seq<MergeView>)
    requires
        scores_differ(s),
    ensures
        scores_differ(merger::survivors(s)),
    decreases s.len(),
{
    if s.len() > 0 {
        let t = s.drop_last();
        let v = merger::survivors(t);
        assert forall|i: int, j: int| 0 <= i < j < t.len() implies (#[trigger] t[i]).score != (
        #[trigger] t[j]).score by {
            assert(s[i].score != s[j].score);
        }
        lemma_survivors_differ(t);
        merger_laws::lemma_survivors(t);
        assert forall|i: int| 0 <= i < v.len() implies (#[trigger] v[i]).score
            != s.last().score by {
            assert(t.contains(v[i]));
            let k = choose|k: int| 0 <= k < t.len() && #[trigger] t[k] == v[i];
            assert(s[k].score != s[s.len() - 1].score);
        }
    }
}

/// Some chunk of the file has the score.
spec fn scored_in(s: Seq<MergeView>, file: Seq<char>, score: i32) -> bool {
    exists|i: int|
        0 <= i < s.len() && (#[trigger] s[i]).file == file && s[i].score == score
}

/// The scores of what remains of a file are scores of that file's chunks, and
/// differ as those do.
proof fn lemma_file_result_scores(s: Seq<MergeView>, file: Seq<char>)
    requires
        all_differ(s),
    ensures
        scores_differ(merger::file_result(s, file)),
        forall|i: int|
            0 <= i < merger::file_result(s, file).len() ==> scored_in(
                s,
                file,
                (#[trigger] merger::file_result(s, file)[i]).score,
            ),
{
    let o = ordered(s, file);
    let m = merger::merged(o);
    let w = merger::sorted(SortBy::Width, m);
    let r = merger::file_result(s, file);
    lemma_kept(s, file);
    lemma_ordered(s, file);
    lemma_merged_keys(o);
    lemma_no_duplicates(m);
    merger_laws::law_sorted_keeps_all(SortBy::Width, m);
    lemma_permuted(m, w);
    lemma_differ_within(m, w);
    lemma_survivors_differ(w);
    assert forall|i: int| 0 <= i < r.len() implies scored_in(s, file, (#[trigger] r[i]).score) by {
        assert(m.contains(r[i]));
        let k = choose|k: int| 0 <= k < m.len() && #[trigger] m[k] == r[i];
        assert(has_score(o, m[k].score));
        let x = choose|x: int| 0 <= x < o.len() && (#[trigger] o[x]).score == m[k].score;
        assert(s.contains(o[x]));
        let y = choose|y: int| 0 <= y < s.len() && #[trigger] s[y] == o[x];
        assert(s[y].file == file);
    }
}

// ─── The chunks of all files ───

/// What remains of several files is what remains of each of them.
proof fn lemma_files_result_members(s: Seq<MergeView>, files: Seq<Seq<char>>)
    ensures
        forall|c: MergeView| #[trigger]
            merger::files_result(s, files).contains(c) <==> files.contains(c.file)
                && merger::file_result(s, c.file).contains(c),
    decreases files.len(),
{
    let all = merger::files_result(s, files);
    if files.len() > 0 {
        let some = files.drop_last();
        let a = merger::files_result(s, some);
        let f = files.last();
        let b = merger::file_result(s, f);
        lemma_files_result_members(s, some);
        merger_laws::lemma_file_result_file(s, f);
        assert(all == a + b);
        assert forall|c: MergeView| #[trigger] all.contains(c) <==> files.contains(c.file)
            && merger::file_result(s, c.file).contains(c) by {
            if all.contains(c) {
                let i = choose|i: int| 0 <= i < all.len() && #[trigger] all[i] == c;
                if i < a.len() {
                    assert(a[i] == c);
                    assert(a.contains(c));
                    let k = choose|k: int| 0 <= k < some.len() && #[trigger] some[k] == c.file;
                    assert(files[k] == c.file);
                } else {
                    assert(b[i - a.len()] == c);
                    assert(c.file == f);
                    assert(files[files.len() - 1] == c.file);
                    assert(b.contains(c));
                }
            }
            if files.contains(c.file) && merger::file_result(s, c.file).contains(c) {
                let k = choose|k: int| 0 <= k < files.len() && #[trigger] files[k] == c.file;
                if k < some.len() {
                    assert(some[k] == c.file);
                    assert(some.contains(c.file));
                    assert(a.contains(c));
                    let i = choose|i: int| 0 <= i < a.len() && #[trigger] a[i] == c;
                    assert(all[i] == c);
                } else {
                    let i = choose|i: int| 0 <= i < b.len() && #[trigger] b[i] == c;
                    assert(all[a.len() + i] == c);
                }
            }
        }
    }
}

/// A file of which something remains is the file of a chunk.
proof fn lemma_result_is_mentioned(s: Seq<MergeView>, c: MergeView)
    requires
        merger::file_result(s, c.file).contains(c),
    ensures
        merger::files_of(s).contains(c.file),
{
    let g = merger::of_file(s, c.file);
    let o = merger::sorted(SortBy::Start, g);
    let m = merger::merged(o);
    let w = merger::sorted(SortBy::Width, m);
    let r = merger::file_result(s, c.file);
    merger_laws::lemma_survivors(w);
    merger_laws::law_sorted_keeps_all(SortBy::Width, m);
    merger_laws::law_sorted_keeps_all(SortBy::Start, g);
    merger_laws::lemma_of_file(s, c.file);
    merger_laws::lemma_files_of(s);
    let i = choose|i: int| 0 <= i < r.len() && #[trigger] r[i] == c;
    assert(w.contains(r[i]));
    assert(m.len() > 0);
    assert(o.len() > 0);
    assert(s.contains(g[0]));
    let k = choose|k: int| 0 <= k < s.len() && #[trigger] s[k] == g[0];
    assert(s[k].file == c.file);
}

/// What remains in all is what remains of each file.
proof fn lemma_all_members(s: Seq<MergeView>)
    ensures
        forall|c: MergeView| #[trigger]
            merger::files_result(s, merger::files_of(s)).contains(c) <==> merger::file_result(
                s,
                c.file,
            ).contains(c),
{
    lemma_files_result_members(s, merger::files_of(s));
    assert forall|c: MergeView| #[trigger]
        merger::files_result(s, merger::files_of(s)).contains(c) <==> merger::file_result(
            s,
            c.file,
        ).contains(c) by {
        if merger::file_result(s, c.file).contains(c) {
            lemma_result_is_mentioned(s, c);
        }
    }
}

proof fn lemma_files_result_scores(s: Seq<MergeView>, files: Seq<Seq<char>>)
    requires
        all_differ(s),
        files.no_duplicates(),
    ensures
        scores_differ(merger::files_result(s, files)),
        forall|i: int|
            0 <= i < merger::files_result(s, files).len() ==> scored_in(
                s,
                (#[trigger] merger::files_result(s, files)[i]).file,
                merger::files_result(s, files)[i].score,
            ),
    decreases files.len(),
{
    let all = merger::files_result(s, files);
    if files.len() > 0 {
        let some = files.drop_last();
        let a = merger::files_result(s, some);
        let f = files.last();
        let b = merger::file_result(s, f);
        lemma_files_result_scores(s, some);
        lemma_files_result_members(s, some);
        lemma_file_result_scores(s, f);
        merger_laws::lemma_file_result_file(s, f);
        assert(all == a + b);
        assert forall|i: int| 0 <= i < all.len() implies scored_in(
            s,
            (#[trigger] all[i]).file,
            all[i].score,
        ) by {
            if i < a.len() {
                assert(all[i] == a[i]);
            } else {
                assert(all[i] == b[i - a.len()]);
            }
        }
        assert forall|i: int, j: int| 0 <= i < j < all.len() implies (#[trigger] all[i]).score != (
        #[trigger] all[j]).score by {
            if j < a.len() {
                assert(a[i].score != a[j].score);
            } else if i >= a.len() {
                assert(b[i - a.len()].score != b[j - a.len()].score);
            } else {
                assert(all[i] == a[i] && all[j] == b[j - a.len()]);
                assert(a.contains(a[i]));
                assert(some.contains(a[i].file));
                let k = choose|k: int| 0 <= k < some.len() && #[trigger] some[k] == a[i].file;
                assert(files[k] != files[files.len() - 1]);
                assert(scored_in(s, a[i].file, a[i].score));
                assert(scored_in(s, f, all[j].score));
                let x = choose|x: int|
                    0 <= x < s.len() && (#[trigger] s[x]).file == a[i].file && s[x].score
                        == a[i].score;
                let y = choose|y: int|
                    0 <= y < s.len() && (#[trigger] s[y]).file == f && s[y].score == all[j].score;
                if x < y {
                    assert(s[x].score != s[y].score);
                } else {
                    assert(s[y].score != s[x].score);
                }
            }
        }
    }
}

/// The result of a merge: in strict order of the scores, and what remains of each
/// file.
proof fn lemma_merged_all(s: Seq<MergeView>)
    requires
        all_differ(s),
    ensures
        strict(SortBy::Score, merger::merged_all(s)),
        all_differ(merger::merged_all(s)),
        forall|c: MergeView| #[trigger]
            merger::merged_all(s).contains(c) <==> merger::file_result(s, c.file).contains(c),
{
    let u = merger::files_result(s, merger::files_of(s));
    let r = merger::merged_all(s);
    lemma_deduped_same(s);
    merger_laws::lemma_files_of(s);
    lemma_files_result_scores(s, merger::files_of(s));
    lemma_all_members(s);
    lemma_no_duplicates(u);
    merger_laws::law_sorted_keeps_all(SortBy::Score, u);
    merger_laws::law_sorted_is_ascending(SortBy::Score, u);
    lemma_permuted(u, r);
    lemma_differ_within(u, r);
    assert forall|c: MergeView| #[trigger]
        r.contains(c) <==> merger::file_result(s, c.file).contains(c) by {
        if r.contains(c) {
            let i = choose|i: int| 0 <= i < r.len() && #[trigger] r[i] == c;
            assert(u.contains(r[i]));
        }
        if u.contains(c) {
            let i = choose|i: int| 0 <= i < u.len() && #[trigger] u[i] == c;
            assert(r.contains(u[i]));
        }
        assert(u.contains(c) <==> merger::file_result(s, c.file).contains(c));
    }
    assert forall|i: int, j: int| 0 <= i < j < r.len() implies merger::rank_of(
        SortBy::Score,
        #[trigger] r[i],
    ) < merger::rank_of(SortBy::Score, #[trigger] r[j]) by {
        assert(merger::rank_of(SortBy::Score, r[i]) <= merger::rank_of(SortBy::Score, r[j]));
        assert(r[i].score != r[j].score);
    }
    assert forall|i: int| 0 <= i < r.len() implies merger_laws::is_range(#[trigger] r[i]) by {
        assert(r.contains(r[i]));
        lemma_member(s, r[i]);
    }
    assert forall|i: int, j: int|
        0 <= i < j < r.len() && (#[trigger] r[i]).file == (#[trigger] r[j]).file implies
        r[i].line_start != r[j].line_start by {
        assert(r.contains(r[i]) && r.contains(r[j]));
        lemma_member(s, r[i]);
        lemma_member(s, r[j]);
        lemma_kept(s, r[i].file);
        let m = merger::merged(ordered(s, r[i].file));
        let x = choose|x: int| 0 <= x < m.len() && #[trigger] m[x] == r[i];
        let y = choose|y: int| 0 <= y < m.len() && #[trigger] m[y] == r[j];
        if x < y {
            assert(merger::rank_of(SortBy::Start, m[x]) < merger::rank_of(SortBy::Start, m[y]));
        } else if y < x {
            assert(merger::rank_of(SortBy::Start, m[y]) < merger::rank_of(SortBy::Start, m[x]));
        }
    }
}

/// What remains of a file is one of its merged chunks.
proof fn lemma_member(s: Seq<MergeView>, c: MergeView)
    requires
        all_differ(s),
        merger::file_result(s, c.file).contains(c),
    ensures
        merger::merged(ordered(s, c.file)).contains(c),
        merger_laws::is_range(c),
{
    let r = merger::file_result(s, c.file);
    let m = merger::merged(ordered(s, c.file));
    lemma_kept(s, c.file);
    let i = choose|i: int| 0 <= i < r.len() && #[trigger] r[i] == c;
    assert(m.contains(r[i]));
    let k = choose|k: int| 0 <= k < m.len() && #[trigger] m[k] == c;
    assert(merger_laws::is_range(m[k]));
}

// ─── How many remain ───

/// How many chunks are of one of the files.
spec fn count_in(s: Seq<MergeView>, files: Seq<Seq<char>>) -> nat
    decreases s.len(),
{
    if s.len() == 0 {
        0
    } else {
        count_in(s.drop_last(), files) + if files.contains(s.last().file) {
            1nat
        } else {
            0
        }
    }
}

proof fn lemma_count_split(s: Seq<MergeView>, files: Seq<Seq<char>>)
    requires
        files.len() > 0,
        files.no_duplicates(),
    ensures
        count_in(s, files) == count_in(s, files.drop_last()) + merger::of_file(
            s,
            files.last(),
        ).len(),
        count_in(s, files) <= s.len(),
    decreases s.len(),
{
    if s.len() > 0 {
        let f = s.last().file;
        let some = files.drop_last();
        lemma_count_split(s.drop_last(), files);
        if some.contains(f) {
            let k = choose|k: int| 0 <= k < some.len() && #[trigger] some[k] == f;
            assert(files[k] == f);
            assert(files[k] != files[files.len() - 1]);
        }
        if f == files.last() {
            assert(files[files.len() - 1] == f);
        }
        if files.contains(f) {
            let k = choose|k: int| 0 <= k < files.len() && #[trigger] files[k] == f;
            if k < some.len() {
                assert(some[k] == f);
            }
        }
    }
}

proof fn lemma_never_more(s: Seq<MergeView>)
    ensures
        merger::merged(s).len() <= s.len(),
        merger::survivors(s).len() <= s.len(),
        merger::deduped(s).len() <= s.len(),
    decreases s.len(),
{
    if s.len() > 0 {
        lemma_never_more(s.drop_last());
    }
}

proof fn lemma_files_result_len(s: Seq<MergeView>, files: Seq<Seq<char>>)
    requires
        files.no_duplicates(),
    ensures
        merger::files_result(s, files).len() <= count_in(s, files),
    decreases files.len(),
{
    if files.len() > 0 {
        let g = merger::of_file(s, files.last());
        let m = merger::merged(merger::sorted(SortBy::Start, g));
        lemma_files_result_len(s, files.drop_last());
        lemma_count_split(s, files);
        merger_laws::law_sorted_keeps_all(SortBy::Start, g);
        merger_laws::law_sorted_keeps_all(SortBy::Width, m);
        lemma_never_more(merger::sorted(SortBy::Start, g));
        lemma_never_more(merger::sorted(SortBy::Width, m));
    }
}

// ─── The laws ───

/// The order of the hits is irrelevant: where their scores and their starts
/// differ, every permutation of them gives the same result under every cap.
/// Otherwise the order decides which of two equal ones comes first.
pub proof fn law_order_of_hits_is_irrelevant(s: Seq<MergeView>, p: Seq<MergeView>, top_k: nat)
    requires
        all_differ(s),
        p.to_multiset() == s.to_multiset(),
    ensures
        merger::at_most(merger::merged_all(p), top_k as int) == merger::at_most(
            merger::merged_all(s),
            top_k as int,
        ),
{
    let (a, b) = (merger::merged_all(s), merger::merged_all(p));
    lemma_no_duplicates(s);
    lemma_permuted(s, p);
    lemma_differ_within(s, p);
    lemma_merged_all(s);
    lemma_merged_all(p);
    assert forall|i: int| 0 <= i < a.len() implies b.contains(#[trigger] a[i]) by {
        assert(a.contains(a[i]));
        lemma_file_result_same(s, p, a[i].file);
    }
    assert forall|i: int| 0 <= i < b.len() implies a.contains(#[trigger] b[i]) by {
        assert(b.contains(b[i]));
        lemma_file_result_same(s, p, b[i].file);
    }
    lemma_strict_unique(SortBy::Score, a, b);
}

/// The cap keeps the best: whatever it is, the result is the first part of the
/// one under a cap of as many as there are hits, which cuts nothing off.
pub proof fn law_cap_keeps_the_best(s: Seq<MergeView>, top_k: nat)
    ensures
        merger::at_most(merger::merged_all(s), s.len() as int) == merger::merged_all(s),
        merger::at_most(merger::merged_all(s), top_k as int).is_prefix_of(
            merger::merged_all(s),
        ),
        top_k <= merger::merged_all(s).len() ==> merger::at_most(
            merger::merged_all(s),
            top_k as int,
        ).len() == top_k,
        top_k >= merger::merged_all(s).len() ==> merger::at_most(
            merger::merged_all(s),
            top_k as int,
        ) == merger::merged_all(s),
{
    let u = merger::deduped(s);
    let files = merger::files_of(u);
    lemma_never_more(s);
    merger_laws::lemma_files_of(u);
    lemma_files_result_len(u, files);
    if files.len() > 0 {
        lemma_count_split(u, files);
    }
    merger_laws::law_sorted_keeps_all(SortBy::Score, merger::files_result(u, files));
}

/// Merging what was merged changes nothing, where the scores and the starts of
/// the hits differ.
pub proof fn law_merging_again_changes_nothing(s: Seq<MergeView>)
    requires
        all_differ(s),
    ensures
        merger::merged_all(merger::merged_all(s)) == merger::merged_all(s),
        ({
            let r = merger::at_most(merger::merged_all(s), s.len() as int);
            merger::at_most(merger::merged_all(r), s.len() as int) == r
        }),
{
    law_cap_keeps_the_best(s, 0);
    let r = merger::merged_all(s);
    let again = merger::merged_all(r);
    lemma_merged_all(s);
    lemma_merged_all(r);
    assert forall|file: Seq<char>| #[trigger]
        same_members(merger::file_result(r, file), merger::file_result(s, file)) by {
        merger_laws::lemma_file_result_file(s, file);
        assert forall|c: MergeView| #[trigger]
            r.contains(c) && c.file == file <==> merger::file_result(s, file).contains(c) by {
            if merger::file_result(s, file).contains(c) {
                let i = choose|i: int|
                    0 <= i < merger::file_result(s, file).len() && #[trigger] merger::file_result(
                        s,
                        file,
                    )[i] == c;
                assert(c.file == file);
            }
        }
        lemma_file_result_again(s, r, file);
    }
    assert forall|i: int| 0 <= i < r.len() implies again.contains(#[trigger] r[i]) by {
        let c = r[i];
        assert(r.contains(c));
        let kept = merger::file_result(s, c.file);
        assert(same_members(merger::file_result(r, c.file), kept));
        let k = choose|k: int| 0 <= k < kept.len() && #[trigger] kept[k] == c;
        assert(merger::file_result(r, c.file).contains(kept[k]));
    }
    assert forall|i: int| 0 <= i < again.len() implies r.contains(#[trigger] again[i]) by {
        let c = again[i];
        assert(again.contains(c));
        let kept = merger::file_result(r, c.file);
        assert(same_members(kept, merger::file_result(s, c.file)));
        let k = choose|k: int| 0 <= k < kept.len() && #[trigger] kept[k] == c;
        assert(merger::file_result(s, c.file).contains(kept[k]));
    }
    lemma_strict_unique(SortBy::Score, again, r);
}

}
