//! What holds of every merge of search hits.
use vstd::prelude::*;

use crate::query::merger::SortBy;

verus! {

/// A chunk whose last line does not precede its first.
pub open spec fn is_range(c: crate::query::merger::MergeView) -> bool {
    c.line_start <= c.line_end
}

pub open spec fn all_ranges(s: Seq<crate::query::merger::MergeView>) -> bool {
    forall|i: int| 0 <= i < s.len() ==> is_range(#[trigger] s[i])
}

/// The list is in ascending order of the given rank.
pub open spec fn ascending(by: SortBy, s: Seq<crate::query::merger::MergeView>) -> bool {
    forall|i: int, j: int|
        0 <= i < j < s.len() ==> crate::query::merger::rank_of(by, #[trigger] s[i])
            <= crate::query::merger::rank_of(by, #[trigger] s[j])
}

/// No chunk covers another.
pub open spec fn none_covered(s: Seq<crate::query::merger::MergeView>) -> bool {
    forall|i: int, j: int|
        0 <= i < s.len() && 0 <= j < s.len() && i != j ==> !crate::query::merger::covers(
            #[trigger] s[i],
            #[trigger] s[j],
        )
}

pub open spec fn has_line(c: crate::query::merger::MergeView, line: int) -> bool {
    c.line_start <= line <= c.line_end
}

/// Some chunk of the list that the given one covers holds the line.
pub open spec fn holds_within(
    s: Seq<crate::query::merger::MergeView>,
    c: crate::query::merger::MergeView,
    line: int,
) -> bool {
    exists|i: int|
        0 <= i < s.len() && crate::query::merger::covers(c, #[trigger] s[i]) && has_line(
            s[i],
            line,
        )
}

/// Every line of the chunk is held by a chunk of the list that it covers, or is a
/// single line between two that are.
pub open spec fn bridges_single_lines(
    s: Seq<crate::query::merger::MergeView>,
    c: crate::query::merger::MergeView,
) -> bool {
    forall|line: int| #[trigger]
        has_line(c, line) ==> holds_within(s, c, line) || (holds_within(s, c, line - 1)
            && holds_within(s, c, line + 1))
}

/// The chunk is one of the list, or no longer than the limit for merged chunks.
pub open spec fn is_short_or_unchanged(
    s: Seq<crate::query::merger::MergeView>,
    c: crate::query::merger::MergeView,
) -> bool {
    s.contains(c) || c.line_end - c.line_start + 1 <= crate::query::merger::MAX_MERGED_LINES
}

/// The chunk covers one of the list, whose score it has, bridges single lines at
/// most, and is no longer than the limit for merged chunks unless it is one of the
/// list.
pub open spec fn comes_from(
    s: Seq<crate::query::merger::MergeView>,
    c: crate::query::merger::MergeView,
) -> bool {
    &&& exists|i: int|
        0 <= i < s.len() && crate::query::merger::covers(c, #[trigger] s[i]) && s[i].score
            == c.score
    &&& is_short_or_unchanged(s, c)
    &&& bridges_single_lines(s, c)
}

/// Every element of the first list is one of the second.
pub open spec fn within(
    a: Seq<crate::query::merger::MergeView>,
    b: Seq<crate::query::merger::MergeView>,
) -> bool {
    forall|i: int| 0 <= i < a.len() ==> b.contains(#[trigger] a[i])
}

// ─── Sorting ───

proof fn lemma_inserted_split(
    by: SortBy,
    s: Seq<crate::query::merger::MergeView>,
    c: crate::query::merger::MergeView,
) -> (k: int)
    ensures
        0 <= k <= s.len(),
        crate::query::merger::inserted(by, s, c) == s.take(k).push(c) + s.skip(k),
        forall|j: int|
            k <= j < s.len() ==> crate::query::merger::rank_of(by, #[trigger] s[j])
                > crate::query::merger::rank_of(by, c),
        k > 0 ==> crate::query::merger::rank_of(by, s[k - 1]) <= crate::query::merger::rank_of(
            by,
            c,
        ),
    decreases s.len(),
{
    if s.len() == 0 || crate::query::merger::rank_of(by, s.last())
        <= crate::query::merger::rank_of(by, c) {
        let k = s.len() as int;
        assert(s.take(k).push(c) + s.skip(k) =~= s.push(c));
        k
    } else {
        let t = s.drop_last();
        let k = lemma_inserted_split(by, t, c);
        assert((t.take(k).push(c) + t.skip(k)).push(s.last()) =~= s.take(k).push(c) + s.skip(k));
        assert forall|j: int| k <= j < s.len() implies crate::query::merger::rank_of(
            by,
            #[trigger] s[j],
        ) > crate::query::merger::rank_of(by, c) by {
            if j < t.len() {
                assert(t[j] == s[j]);
            }
        }
        if k > 0 {
            assert(t[k - 1] == s[k - 1]);
        }
        k
    }
}

proof fn lemma_inserted_ascending(
    by: SortBy,
    s: Seq<crate::query::merger::MergeView>,
    c: crate::query::merger::MergeView,
)
    requires
        ascending(by, s),
    ensures
        ascending(by, crate::query::merger::inserted(by, s, c)),
{
    let k = lemma_inserted_split(by, s, c);
    let t = crate::query::merger::inserted(by, s, c);
    assert forall|i: int, j: int| 0 <= i < j < t.len() implies crate::query::merger::rank_of(
        by,
        #[trigger] t[i],
    ) <= crate::query::merger::rank_of(by, #[trigger] t[j]) by {
        if i < k {
            assert(t[i] == s[i]);
            assert(crate::query::merger::rank_of(by, s[i]) <= crate::query::merger::rank_of(
                by,
                s[k - 1],
            ));
        }
        if i > k {
            assert(t[i] == s[i - 1]);
        }
        if j < k {
            assert(t[j] == s[j]);
        }
        if j > k {
            assert(t[j] == s[j - 1]);
        }
    }
}

/// Whatever has been sorted is in order.
pub proof fn law_sorted_is_ascending(by: SortBy, s: Seq<crate::query::merger::MergeView>)
    ensures
        ascending(by, crate::query::merger::sorted(by, s)),
    decreases s.len(),
{
    if s.len() > 0 {
        law_sorted_is_ascending(by, s.drop_last());
        lemma_inserted_ascending(by, crate::query::merger::sorted(by, s.drop_last()), s.last());
    }
}

proof fn lemma_inserted_members(
    by: SortBy,
    s: Seq<crate::query::merger::MergeView>,
    c: crate::query::merger::MergeView,
)
    ensures
        crate::query::merger::inserted(by, s, c).len() == s.len() + 1,
        crate::query::merger::inserted(by, s, c).to_multiset() == s.to_multiset().insert(c),
{
    broadcast use vstd::seq_lib::group_to_multiset_ensures;

    let k = lemma_inserted_split(by, s, c);
    let t = crate::query::merger::inserted(by, s, c);
    assert(s.take(k) + s.skip(k) =~= s);
    vstd::seq_lib::lemma_multiset_commutative(s.take(k), s.skip(k));
    vstd::seq_lib::lemma_multiset_commutative(s.take(k).push(c), s.skip(k));
    assert(s.take(k).push(c).to_multiset() =~= s.take(k).to_multiset().insert(c));
    assert(t.to_multiset() =~= s.to_multiset().insert(c));
}

/// Sorting neither adds nor drops anything.
pub proof fn law_sorted_keeps_all(by: SortBy, s: Seq<crate::query::merger::MergeView>)
    ensures
        crate::query::merger::sorted(by, s).len() == s.len(),
        crate::query::merger::sorted(by, s).to_multiset() == s.to_multiset(),
        within(crate::query::merger::sorted(by, s), s),
        within(s, crate::query::merger::sorted(by, s)),
    decreases s.len(),
{
    broadcast use vstd::seq_lib::group_to_multiset_ensures;

    if s.len() > 0 {
        let t = s.drop_last();
        law_sorted_keeps_all(by, t);
        lemma_inserted_members(by, crate::query::merger::sorted(by, t), s.last());
        assert(s =~= t.push(s.last()));
        assert(s.to_multiset() =~= t.to_multiset().insert(s.last()));
        let r = crate::query::merger::sorted(by, s);
        assert forall|i: int| 0 <= i < r.len() implies s.contains(#[trigger] r[i]) by {
            assert(r.contains(r[i]));
            assert(r.to_multiset().count(r[i]) > 0);
        }
        assert forall|i: int| 0 <= i < s.len() implies r.contains(#[trigger] s[i]) by {
            assert(s.contains(s[i]));
            assert(s.to_multiset().count(s[i]) > 0);
        }
    } else {
        assert(crate::query::merger::sorted(by, s) =~= s);
    }
}

pub proof fn lemma_sorted_none_covered(by: SortBy, s: Seq<crate::query::merger::MergeView>)
    requires
        none_covered(s),
    ensures
        none_covered(crate::query::merger::sorted(by, s)),
    decreases s.len(),
{
    if s.len() > 0 {
        let t = s.drop_last();
        let c = s.last();
        let u = crate::query::merger::sorted(by, t);
        assert(none_covered(t)) by {
            assert forall|i: int, j: int|
                0 <= i < t.len() && 0 <= j < t.len() && i != j implies !crate::query::merger::covers(
                #[trigger] t[i],
                #[trigger] t[j],
            ) by {
                assert(t[i] == s[i] && t[j] == s[j]);
            }
        }
        lemma_sorted_none_covered(by, t);
        law_sorted_keeps_all(by, t);
        assert forall|i: int| 0 <= i < u.len() implies !crate::query::merger::covers(
            #[trigger] u[i],
            c,
        ) && !crate::query::merger::covers(c, u[i]) by {
            assert(t.contains(u[i]));
            let n = choose|n: int| 0 <= n < t.len() && t[n] == u[i];
            assert(s[n] == t[n]);
            assert(s[s.len() - 1] == c);
        }
        let k = lemma_inserted_split(by, u, c);
        let r = crate::query::merger::sorted(by, s);
        assert forall|i: int, j: int|
            0 <= i < r.len() && 0 <= j < r.len() && i != j implies !crate::query::merger::covers(
            #[trigger] r[i],
            #[trigger] r[j],
        ) by {
            let a = if i < k {
                i
            } else {
                i - 1
            };
            let b = if j < k {
                j
            } else {
                j - 1
            };
            if i != k {
                assert(r[i] == u[a]);
            } else {
                assert(r[i] == c);
            }
            if j != k {
                assert(r[j] == u[b]);
            } else {
                assert(r[j] == c);
            }
        }
    }
}

// ─── Containment ───

/// What is dropped for being covered is covered by what is kept, and what is
/// kept comes from the list.
pub proof fn lemma_survivors(s: Seq<crate::query::merger::MergeView>)
    ensures
        forall|i: int|
            0 <= i < s.len() ==> crate::query::merger::covered_by_any(
                crate::query::merger::survivors(s),
                #[trigger] s[i],
            ),
        within(crate::query::merger::survivors(s), s),
    decreases s.len(),
{
    if s.len() > 0 {
        let t = s.drop_last();
        let before = crate::query::merger::survivors(t);
        let after = crate::query::merger::survivors(s);
        lemma_survivors(t);
        assert forall|i: int| 0 <= i < s.len() implies crate::query::merger::covered_by_any(
            after,
            #[trigger] s[i],
        ) by {
            if i < t.len() {
                assert(t[i] == s[i]);
                assert(crate::query::merger::covered_by_any(before, t[i]));
                let k = choose|k: int|
                    0 <= k < before.len() && crate::query::merger::covers(
                        #[trigger] before[k],
                        s[i],
                    );
                assert(after[k] == before[k]);
            } else if !crate::query::merger::covered_by_any(before, s.last()) {
                assert(crate::query::merger::covers(after[after.len() - 1], s[i]));
            }
        }
        assert forall|k: int| 0 <= k < after.len() implies s.contains(#[trigger] after[k]) by {
            if k < before.len() {
                assert(t.contains(before[k]));
                let n = choose|n: int| 0 <= n < t.len() && t[n] == before[k];
                assert(s[n] == after[k]);
            } else {
                assert(s[s.len() - 1] == after[k]);
            }
        }
    }
}

pub proof fn lemma_survivors_none_covered(s: Seq<crate::query::merger::MergeView>)
    requires
        ascending(SortBy::Width, s),
        all_ranges(s),
    ensures
        none_covered(crate::query::merger::survivors(s)),
    decreases s.len(),
{
    if s.len() > 0 {
        let t = s.drop_last();
        let c = s.last();
        let before = crate::query::merger::survivors(t);
        let after = crate::query::merger::survivors(s);
        assert(ascending(SortBy::Width, t)) by {
            assert forall|i: int, j: int| 0 <= i < j < t.len() implies crate::query::merger::rank_of(
                SortBy::Width,
                #[trigger] t[i],
            ) <= crate::query::merger::rank_of(SortBy::Width, #[trigger] t[j]) by {
                assert(t[i] == s[i] && t[j] == s[j]);
            }
        }
        assert(all_ranges(t)) by {
            assert forall|i: int| 0 <= i < t.len() implies is_range(#[trigger] t[i]) by {
                assert(t[i] == s[i]);
            }
        }
        lemma_survivors_none_covered(t);
        lemma_survivors(t);
        if !crate::query::merger::covered_by_any(before, c) {
            assert forall|i: int, j: int|
                0 <= i < after.len() && 0 <= j < after.len() && i
                    != j implies !crate::query::merger::covers(
                #[trigger] after[i],
                #[trigger] after[j],
            ) by {
                if i < before.len() && j < before.len() {
                    assert(after[i] == before[i] && after[j] == before[j]);
                } else if j == before.len() {
                    assert(after[i] == before[i]);
                    assert(!crate::query::merger::covers(before[i], c));
                } else {
                    assert(after[j] == before[j]);
                    assert(t.contains(before[j]));
                    let n = choose|n: int| 0 <= n < t.len() && t[n] == before[j];
                    assert(s[n] == t[n]);
                    assert(s[s.len() - 1] == c);
                    assert(is_range(s[n]) && is_range(s[s.len() - 1]));
                    assert(crate::query::merger::rank_of(SortBy::Width, s[n])
                        <= crate::query::merger::rank_of(SortBy::Width, s[s.len() - 1]));
                    assert(!crate::query::merger::covers(before[j], c));
                }
            }
        }
    }
}

// ─── Merging ───

pub proof fn lemma_covers_trans(
    a: crate::query::merger::MergeView,
    b: crate::query::merger::MergeView,
    c: crate::query::merger::MergeView,
)
    requires
        crate::query::merger::covers(a, b),
        crate::query::merger::covers(b, c),
    ensures
        crate::query::merger::covers(a, c),
{
}

pub open spec fn one_file(s: Seq<crate::query::merger::MergeView>, file: Seq<char>) -> bool {
    forall|i: int| 0 <= i < s.len() ==> (#[trigger] s[i]).file == file
}

proof fn lemma_comes_from_longer(
    s: Seq<crate::query::merger::MergeView>,
    t: Seq<crate::query::merger::MergeView>,
    c: crate::query::merger::MergeView,
)
    requires
        comes_from(s, c),
        within(s, t),
    ensures
        comes_from(t, c),
{
    let i = choose|i: int|
        0 <= i < s.len() && crate::query::merger::covers(c, #[trigger] s[i]) && s[i].score
            == c.score;
    assert(t.contains(s[i]));
    let k = choose|k: int| 0 <= k < t.len() && t[k] == s[i];
    assert(crate::query::merger::covers(c, t[k]));
    if s.contains(c) {
        let j = choose|j: int| 0 <= j < s.len() && #[trigger] s[j] == c;
        assert(t.contains(s[j]));
    }
    assert forall|line: int| #[trigger] holds_within(s, c, line) implies holds_within(
        t,
        c,
        line,
    ) by {
        lemma_holds_longer(s, t, c, line);
    }
    assert forall|line: int| #[trigger] has_line(c, line) implies holds_within(
        t,
        c,
        line,
    ) || (holds_within(t, c, line - 1) && holds_within(t, c, line + 1)) by {
        assert(holds_within(s, c, line) || (holds_within(s, c, line - 1) && holds_within(
            s,
            c,
            line + 1,
        )));
    }
}

proof fn lemma_holds_longer(
    s: Seq<crate::query::merger::MergeView>,
    t: Seq<crate::query::merger::MergeView>,
    c: crate::query::merger::MergeView,
    line: int,
)
    requires
        holds_within(s, c, line),
        within(s, t),
    ensures
        holds_within(t, c, line),
{
    let i = choose|i: int|
        0 <= i < s.len() && crate::query::merger::covers(c, #[trigger] s[i]) && has_line(
            s[i],
            line,
        );
    assert(t.contains(s[i]));
    let k = choose|k: int| 0 <= k < t.len() && t[k] == s[i];
    assert(crate::query::merger::covers(c, t[k]));
}

/// A line that a part holds is one that the whole holds.
proof fn lemma_holds_wider(
    s: Seq<crate::query::merger::MergeView>,
    part: crate::query::merger::MergeView,
    c: crate::query::merger::MergeView,
    line: int,
)
    requires
        holds_within(s, part, line),
        crate::query::merger::covers(c, part),
    ensures
        holds_within(s, c, line),
{
    let i = choose|i: int|
        0 <= i < s.len() && crate::query::merger::covers(part, #[trigger] s[i]) && has_line(
            s[i],
            line,
        );
    lemma_covers_trans(c, part, s[i]);
}

/// Two chunks that can be joined have a gap of one line at most between them.
proof fn lemma_pair_bridges(
    s: Seq<crate::query::merger::MergeView>,
    a: crate::query::merger::MergeView,
    b: crate::query::merger::MergeView,
)
    requires
        bridges_single_lines(s, a),
        s.contains(b),
        is_range(a),
        is_range(b),
        crate::query::merger::can_merge(a, b),
        crate::query::merger::covers(crate::query::merger::merged_pair(a, b), a),
        crate::query::merger::covers(crate::query::merger::merged_pair(a, b), b),
    ensures
        bridges_single_lines(s, crate::query::merger::merged_pair(a, b)),
{
    let c = crate::query::merger::merged_pair(a, b);
    let k = choose|k: int| 0 <= k < s.len() && #[trigger] s[k] == b;
    let end = a.line_end as int;
    assert(holds_within(s, a, end)) by {
        assert(has_line(a, end));
        if !holds_within(s, a, end) {
            assert(holds_within(s, a, end + 1));
            let i = choose|i: int|
                0 <= i < s.len() && crate::query::merger::covers(a, #[trigger] s[i])
                    && has_line(s[i], end + 1);
        }
    }
    lemma_holds_wider(s, a, c, end);
    assert forall|line: int| #[trigger] has_line(c, line) implies holds_within(
        s,
        c,
        line,
    ) || (holds_within(s, c, line - 1) && holds_within(s, c, line + 1)) by {
        assert(crate::query::merger::covers(c, s[k]));
        if line <= end {
            assert(has_line(a, line));
            if holds_within(s, a, line) {
                lemma_holds_wider(s, a, c, line);
            } else {
                lemma_holds_wider(s, a, c, line - 1);
                lemma_holds_wider(s, a, c, line + 1);
            }
        } else if line >= b.line_start {
            assert(has_line(s[k], line));
        } else {
            assert(line - 1 == end);
            assert(has_line(s[k], line + 1));
        }
    }
}

/// One of the chunks begins on that line.
pub open spec fn begins(s: Seq<crate::query::merger::MergeView>, line: u32) -> bool {
    exists|j: int| 0 <= j < s.len() && (#[trigger] s[j]).line_start == line
}

proof fn lemma_drop_last(s: Seq<crate::query::merger::MergeView>, file: Seq<char>)
    requires
        s.len() > 0,
        ascending(SortBy::Start, s),
        one_file(s, file),
        all_ranges(s),
    ensures
        ascending(SortBy::Start, s.drop_last()),
        one_file(s.drop_last(), file),
        all_ranges(s.drop_last()),
        within(s.drop_last(), s),
        s.last().file == file,
        is_range(s.last()),
        forall|line: u32| #[trigger] begins(s.drop_last(), line) ==> line <= s.last().line_start,
{
    let t = s.drop_last();
    assert forall|i: int| 0 <= i < t.len() implies #[trigger] t[i] == s[i] by {}
    assert forall|i: int| 0 <= i < t.len() implies s.contains(#[trigger] t[i]) by {
        assert(s[i] == t[i]);
    }
    assert(s[s.len() - 1] == s.last());
    assert forall|line: u32| #[trigger] begins(t, line) implies line <= s.last().line_start by {
        let j = choose|j: int| 0 <= j < t.len() && (#[trigger] t[j]).line_start == line;
        assert(crate::query::merger::rank_of(SortBy::Start, s[j])
            <= crate::query::merger::rank_of(SortBy::Start, s[s.len() - 1]));
    }
}

/// Merged chunks are ranges of the same file and begin where one of the list
/// does.
pub proof fn lemma_merged_shape(s: Seq<crate::query::merger::MergeView>, file: Seq<char>)
    requires
        ascending(SortBy::Start, s),
        one_file(s, file),
        all_ranges(s),
    ensures
        one_file(crate::query::merger::merged(s), file),
        all_ranges(crate::query::merger::merged(s)),
        forall|i: int|
            0 <= i < crate::query::merger::merged(s).len() ==> begins(
                s,
                (#[trigger] crate::query::merger::merged(s)[i]).line_start,
            ),
    decreases s.len(),
{
    if s.len() > 0 {
        let t = s.drop_last();
        let before = crate::query::merger::merged(t);
        let m = crate::query::merger::merged(s);
        lemma_drop_last(s, file);
        lemma_merged_shape(t, file);
        assert forall|i: int| 0 <= i < m.len() implies (#[trigger] m[i]).file == file && is_range(
            m[i],
        ) && begins(s, m[i].line_start) by {
            if i < before.len() {
                assert(is_range(before[i]));
                assert(m[i].line_start == before[i].line_start);
                assert(begins(t, before[i].line_start));
                let j = choose|j: int|
                    0 <= j < t.len() && (#[trigger] t[j]).line_start == before[i].line_start;
                assert(s[j].line_start == m[i].line_start);
            } else {
                assert(s[s.len() - 1].line_start == m[i].line_start);
            }
        }
    }
}

/// A merged pair covers both of its parts.
proof fn lemma_pair_covers(s: Seq<crate::query::merger::MergeView>, file: Seq<char>)
    requires
        s.len() > 0,
        ascending(SortBy::Start, s),
        one_file(s, file),
        all_ranges(s),
        crate::query::merger::merged(s.drop_last()).len() > 0,
    ensures
        ({
            let a = crate::query::merger::merged(s.drop_last()).last();
            let both = crate::query::merger::merged_pair(a, s.last());
            &&& crate::query::merger::covers(both, a)
            &&& crate::query::merger::covers(both, s.last())
        }),
{
    let before = crate::query::merger::merged(s.drop_last());
    lemma_drop_last(s, file);
    lemma_merged_shape(s.drop_last(), file);
    assert(before[before.len() - 1] == before.last());
    assert(begins(s.drop_last(), before.last().line_start));
}

/// Merging leaves nothing uncovered.
proof fn lemma_merged_covers(s: Seq<crate::query::merger::MergeView>, file: Seq<char>)
    requires
        ascending(SortBy::Start, s),
        one_file(s, file),
        all_ranges(s),
    ensures
        forall|i: int|
            0 <= i < s.len() ==> crate::query::merger::covered_by_any(
                crate::query::merger::merged(s),
                #[trigger] s[i],
            ),
    decreases s.len(),
{
    if s.len() > 0 {
        let t = s.drop_last();
        let before = crate::query::merger::merged(t);
        let m = crate::query::merger::merged(s);
        lemma_drop_last(s, file);
        lemma_merged_covers(t, file);
        if before.len() > 0 {
            lemma_pair_covers(s, file);
        }
        assert forall|i: int| 0 <= i < s.len() implies crate::query::merger::covered_by_any(
            m,
            #[trigger] s[i],
        ) by {
            if i < t.len() {
                assert(t[i] == s[i]);
                assert(crate::query::merger::covered_by_any(before, t[i]));
                let k = choose|k: int|
                    0 <= k < before.len() && crate::query::merger::covers(
                        #[trigger] before[k],
                        t[i],
                    );
                if k < m.len() - 1 {
                    assert(m[k] == before[k]);
                } else {
                    assert(k == before.len() - 1);
                    assert(before[k] == before.last());
                    assert(crate::query::merger::covers(m[k], before[k]));
                    lemma_covers_trans(m[k], before[k], s[i]);
                }
                assert(crate::query::merger::covers(m[k], s[i]));
            } else {
                assert(crate::query::merger::covers(m[m.len() - 1], s[i]));
            }
        }
    }
}

/// A merged chunk covers chunks of the list, has the score of one of them, and
/// is not too long.
proof fn lemma_merged_from(s: Seq<crate::query::merger::MergeView>, file: Seq<char>)
    requires
        ascending(SortBy::Start, s),
        one_file(s, file),
        all_ranges(s),
    ensures
        forall|i: int|
            0 <= i < crate::query::merger::merged(s).len() ==> comes_from(
                s,
                #[trigger] crate::query::merger::merged(s)[i],
            ),
    decreases s.len(),
{
    if s.len() > 0 {
        let t = s.drop_last();
        let c = s.last();
        let before = crate::query::merger::merged(t);
        let m = crate::query::merger::merged(s);
        lemma_drop_last(s, file);
        lemma_merged_from(t, file);
        assert(s[s.len() - 1] == c);
        assert forall|i: int| 0 <= i < m.len() implies comes_from(s, #[trigger] m[i]) by {
            if i < before.len() && m[i] == before[i] {
                lemma_comes_from_longer(t, s, before[i]);
            } else if i == before.len() {
                assert(crate::query::merger::covers(c, s[s.len() - 1]));
                assert(s.contains(c));
                assert forall|line: int| #[trigger] has_line(c, line) implies holds_within(
                    s,
                    c,
                    line,
                ) by {
                    assert(has_line(s[s.len() - 1], line));
                }
            } else {
                let a = before.last();
                lemma_pair_covers(s, file);
                lemma_merged_shape(t, file);
                assert(comes_from(t, before[i]));
                assert(is_range(before[before.len() - 1]));
                lemma_comes_from_longer(t, s, a);
                assert(s.contains(c));
                lemma_pair_bridges(s, a, c);
                if a.score >= c.score {
                    let n = choose|n: int|
                        0 <= n < t.len() && crate::query::merger::covers(a, #[trigger] t[n])
                            && t[n].score == a.score;
                    lemma_covers_trans(m[i], a, t[n]);
                    assert(s[n] == t[n]);
                    assert(crate::query::merger::covers(m[i], s[n]));
                } else {
                    assert(crate::query::merger::covers(m[i], s[s.len() - 1]));
                }
            }
        }
    }
}

// ─── One file ───

pub proof fn lemma_of_file(s: Seq<crate::query::merger::MergeView>, file: Seq<char>)
    ensures
        one_file(crate::query::merger::of_file(s, file), file),
        within(crate::query::merger::of_file(s, file), s),
        forall|i: int|
            0 <= i < s.len() && (#[trigger] s[i]).file == file
                ==> crate::query::merger::of_file(s, file).contains(s[i]),
    decreases s.len(),
{
    if s.len() > 0 {
        let t = s.drop_last();
        let before = crate::query::merger::of_file(t, file);
        let after = crate::query::merger::of_file(s, file);
        lemma_of_file(t, file);
        assert forall|i: int| 0 <= i < after.len() implies s.contains(#[trigger] after[i]) by {
            if i < before.len() {
                assert(t.contains(before[i]));
                let n = choose|n: int| 0 <= n < t.len() && t[n] == before[i];
                assert(s[n] == after[i]);
            } else {
                assert(s[s.len() - 1] == after[i]);
            }
        }
        assert forall|i: int| 0 <= i < s.len() && (#[trigger] s[i]).file
            == file implies after.contains(s[i]) by {
            if i < t.len() {
                assert(t[i] == s[i]);
                assert(before.contains(t[i]));
                let n = choose|n: int| 0 <= n < before.len() && before[n] == t[i];
                assert(after[n] == s[i]);
            } else {
                assert(after[after.len() - 1] == s[i]);
            }
        }
    }
}

pub proof fn lemma_ranges_within(
    a: Seq<crate::query::merger::MergeView>,
    b: Seq<crate::query::merger::MergeView>,
)
    requires
        within(a, b),
        all_ranges(b),
    ensures
        all_ranges(a),
{
    assert forall|i: int| 0 <= i < a.len() implies is_range(#[trigger] a[i]) by {
        assert(b.contains(a[i]));
        let n = choose|n: int| 0 <= n < b.len() && b[n] == a[i];
        assert(is_range(b[n]));
    }
}

pub proof fn lemma_one_file_within(
    a: Seq<crate::query::merger::MergeView>,
    b: Seq<crate::query::merger::MergeView>,
    file: Seq<char>,
)
    requires
        within(a, b),
        one_file(b, file),
    ensures
        one_file(a, file),
{
    assert forall|i: int| 0 <= i < a.len() implies (#[trigger] a[i]).file == file by {
        assert(b.contains(a[i]));
        let n = choose|n: int| 0 <= n < b.len() && b[n] == a[i];
        assert(b[n].file == file);
    }
}

proof fn lemma_covered_within(
    a: Seq<crate::query::merger::MergeView>,
    b: Seq<crate::query::merger::MergeView>,
    c: crate::query::merger::MergeView,
)
    requires
        crate::query::merger::covered_by_any(a, c),
        within(a, b),
    ensures
        crate::query::merger::covered_by_any(b, c),
{
    let k = choose|k: int| 0 <= k < a.len() && crate::query::merger::covers(#[trigger] a[k], c);
    assert(b.contains(a[k]));
    let n = choose|n: int| 0 <= n < b.len() && b[n] == a[k];
    assert(crate::query::merger::covers(b[n], c));
}

proof fn lemma_file_result(s: Seq<crate::query::merger::MergeView>, file: Seq<char>)
    requires
        all_ranges(s),
    ensures
        ({
            let r = crate::query::merger::file_result(s, file);
            &&& one_file(r, file)
            &&& none_covered(r)
            &&& forall|i: int|
                0 <= i < s.len() && (#[trigger] s[i]).file == file
                    ==> crate::query::merger::covered_by_any(r, s[i])
            &&& forall|i: int| 0 <= i < r.len() ==> comes_from(s, #[trigger] r[i])
        }),
{
    let g = crate::query::merger::of_file(s, file);
    let o = crate::query::merger::sorted(SortBy::Start, g);
    let m = crate::query::merger::merged(o);
    let w = crate::query::merger::sorted(SortBy::Width, m);
    let r = crate::query::merger::survivors(w);
    lemma_of_file(s, file);
    lemma_ranges_within(g, s);
    law_sorted_keeps_all(SortBy::Start, g);
    law_sorted_is_ascending(SortBy::Start, g);
    lemma_ranges_within(o, g);
    lemma_one_file_within(o, g, file);
    lemma_merged_shape(o, file);
    lemma_merged_covers(o, file);
    lemma_merged_from(o, file);
    law_sorted_keeps_all(SortBy::Width, m);
    law_sorted_is_ascending(SortBy::Width, m);
    lemma_ranges_within(w, m);
    lemma_one_file_within(w, m, file);
    lemma_survivors(w);
    lemma_survivors_none_covered(w);
    lemma_one_file_within(r, w, file);
    assert forall|i: int| 0 <= i < s.len() && (#[trigger] s[i]).file
        == file implies crate::query::merger::covered_by_any(r, s[i]) by {
        assert(g.contains(s[i]));
        let a = choose|a: int| 0 <= a < g.len() && g[a] == s[i];
        assert(o.contains(g[a]));
        let b = choose|b: int| 0 <= b < o.len() && o[b] == g[a];
        assert(crate::query::merger::covered_by_any(m, o[b]));
        let c = choose|c: int|
            0 <= c < m.len() && crate::query::merger::covers(#[trigger] m[c], o[b]);
        assert(w.contains(m[c]));
        let d = choose|d: int| 0 <= d < w.len() && w[d] == m[c];
        assert(crate::query::merger::covered_by_any(r, w[d]));
        let e = choose|e: int|
            0 <= e < r.len() && crate::query::merger::covers(#[trigger] r[e], w[d]);
        lemma_covers_trans(r[e], w[d], s[i]);
    }
    assert forall|i: int| 0 <= i < r.len() implies comes_from(s, #[trigger] r[i]) by {
        assert(w.contains(r[i]));
        let d = choose|d: int| 0 <= d < w.len() && w[d] == r[i];
        assert(m.contains(w[d]));
        let c = choose|c: int| 0 <= c < m.len() && m[c] == w[d];
        assert(comes_from(o, m[c]));
        lemma_comes_from_longer(o, g, r[i]);
        lemma_comes_from_longer(g, s, r[i]);
    }
}

// ─── All files ───

pub proof fn lemma_files_of(s: Seq<crate::query::merger::MergeView>)
    ensures
        crate::query::merger::files_of(s).no_duplicates(),
        forall|i: int|
            0 <= i < s.len() ==> crate::query::merger::files_of(s).contains(
                (#[trigger] s[i]).file,
            ),
    decreases s.len(),
{
    if s.len() > 0 {
        let t = s.drop_last();
        let before = crate::query::merger::files_of(t);
        let after = crate::query::merger::files_of(s);
        lemma_files_of(t);
        assert forall|i: int| 0 <= i < s.len() implies after.contains((#[trigger] s[i]).file) by {
            if i < t.len() {
                assert(t[i] == s[i]);
                assert(before.contains(t[i].file));
                let n = choose|n: int| 0 <= n < before.len() && before[n] == t[i].file;
                assert(after[n] == s[i].file);
            } else if !before.contains(s.last().file) {
                assert(after[after.len() - 1] == s[i].file);
            }
        }
    }
}

proof fn lemma_files_result(
    s: Seq<crate::query::merger::MergeView>,
    files: Seq<Seq<char>>,
)
    requires
        all_ranges(s),
        files.no_duplicates(),
    ensures
        ({
            let r = crate::query::merger::files_result(s, files);
            &&& none_covered(r)
            &&& forall|i: int| 0 <= i < r.len() ==> files.contains((#[trigger] r[i]).file)
            &&& forall|i: int|
                0 <= i < s.len() && files.contains((#[trigger] s[i]).file)
                    ==> crate::query::merger::covered_by_any(r, s[i])
            &&& forall|i: int| 0 <= i < r.len() ==> comes_from(s, #[trigger] r[i])
        }),
    decreases files.len(),
{
    if files.len() > 0 {
        let rest = files.drop_last();
        let file = files.last();
        let a = crate::query::merger::files_result(s, rest);
        let b = crate::query::merger::file_result(s, file);
        let r = crate::query::merger::files_result(s, files);
        assert(rest.no_duplicates());
        assert(!rest.contains(file)) by {
            if rest.contains(file) {
                let n = choose|n: int| 0 <= n < rest.len() && rest[n] == file;
                assert(files[n] == files[files.len() - 1]);
            }
        }
        lemma_files_result(s, rest);
        lemma_file_result(s, file);
        assert forall|i: int| 0 <= i < r.len() implies files.contains((#[trigger] r[i]).file)
            && comes_from(s, r[i]) by {
            if i < a.len() {
                assert(r[i] == a[i]);
                assert(rest.contains(a[i].file));
                let n = choose|n: int| 0 <= n < rest.len() && rest[n] == a[i].file;
                assert(files[n] == r[i].file);
            } else {
                assert(r[i] == b[i - a.len()]);
                assert(files[files.len() - 1] == r[i].file);
            }
        }
        assert forall|i: int, j: int|
            0 <= i < r.len() && 0 <= j < r.len() && i != j implies !crate::query::merger::covers(
            #[trigger] r[i],
            #[trigger] r[j],
        ) by {
            if i < a.len() {
                assert(r[i] == a[i]);
                assert(rest.contains(a[i].file));
            } else {
                assert(r[i] == b[i - a.len()]);
            }
            if j < a.len() {
                assert(r[j] == a[j]);
                assert(rest.contains(a[j].file));
            } else {
                assert(r[j] == b[j - a.len()]);
            }
        }
        assert forall|i: int| 0 <= i < s.len() && files.contains(
            (#[trigger] s[i]).file,
        ) implies crate::query::merger::covered_by_any(r, s[i]) by {
            if s[i].file == file {
                let k = choose|k: int|
                    0 <= k < b.len() && crate::query::merger::covers(#[trigger] b[k], s[i]);
                assert(r[a.len() + k] == b[k]);
            } else {
                let n = choose|n: int| 0 <= n < files.len() && files[n] == s[i].file;
                assert(rest[n] == s[i].file);
                assert(rest.contains(s[i].file));
                let k = choose|k: int|
                    0 <= k < a.len() && crate::query::merger::covers(#[trigger] a[k], s[i]);
                assert(r[k] == a[k]);
            }
        }
    }
}

pub proof fn lemma_range_at(
    s: Seq<crate::query::merger::MergeView>,
    c: crate::query::merger::MergeView,
)
    ensures
        0 <= crate::query::merger::range_at(s, c) <= s.len(),
        crate::query::merger::range_at(s, c) < s.len() ==> crate::query::merger::same_range(
            s[crate::query::merger::range_at(s, c)],
            c,
        ),
    decreases s.len(),
{
    if s.len() > 0 && !crate::query::merger::same_range(s[0], c) {
        lemma_range_at(s.drop_first(), c);
    }
}

proof fn lemma_range_at_first(
    s: Seq<crate::query::merger::MergeView>,
    c: crate::query::merger::MergeView,
    i: int,
)
    requires
        0 <= i < crate::query::merger::range_at(s, c),
        i < s.len(),
    ensures
        !crate::query::merger::same_range(s[i], c),
    decreases s.len(),
{
    if i > 0 {
        lemma_range_at_first(s.drop_first(), c, i - 1);
    }
}

/// Some chunk of the list has the same range and scores no less.
pub open spec fn has_range(
    s: Seq<crate::query::merger::MergeView>,
    c: crate::query::merger::MergeView,
) -> bool {
    exists|i: int|
        0 <= i < s.len() && crate::query::merger::same_range(#[trigger] s[i], c) && s[i].score
            >= c.score
}

/// Of the chunks with one range, one that scores highest is kept.
pub proof fn law_dedup_keeps_the_best(s: Seq<crate::query::merger::MergeView>)
    ensures
        within(crate::query::merger::deduped(s), s),
        forall|i: int|
            0 <= i < s.len() ==> has_range(crate::query::merger::deduped(s), #[trigger] s[i]),
    decreases s.len(),
{
    if s.len() > 0 {
        let t = s.drop_last();
        let c = s.last();
        let before = crate::query::merger::deduped(t);
        let after = crate::query::merger::deduped(s);
        let at = crate::query::merger::range_at(before, c);
        law_dedup_keeps_the_best(t);
        lemma_range_at(before, c);
        assert(s[s.len() - 1] == c);
        assert forall|i: int| 0 <= i < after.len() implies s.contains(#[trigger] after[i]) by {
            if i < before.len() && after[i] == before[i] {
                assert(t.contains(before[i]));
                let n = choose|n: int| 0 <= n < t.len() && t[n] == before[i];
                assert(s[n] == after[i]);
            } else {
                assert(after[i] == c);
            }
        }
        assert forall|i: int| 0 <= i < s.len() implies has_range(after, #[trigger] s[i]) by {
            if i < t.len() {
                assert(t[i] == s[i]);
                assert(has_range(before, t[i]));
                let k = choose|k: int|
                    0 <= k < before.len() && crate::query::merger::same_range(
                        #[trigger] before[k],
                        t[i],
                    ) && before[k].score >= t[i].score;
                assert(crate::query::merger::same_range(after[k], s[i]));
            } else if at < before.len() {
                assert(crate::query::merger::same_range(after[at], s[i]));
            } else {
                assert(crate::query::merger::same_range(after[before.len() as int], s[i]));
            }
        }
    }
}

/// No two chunks that are kept have the same range.
pub proof fn law_dedup_ranges_differ(s: Seq<crate::query::merger::MergeView>, i: int, j: int)
    requires
        0 <= i < j < crate::query::merger::deduped(s).len(),
    ensures
        !crate::query::merger::same_range(
            crate::query::merger::deduped(s)[i],
            crate::query::merger::deduped(s)[j],
        ),
    decreases s.len(),
{
    let before = crate::query::merger::deduped(s.drop_last());
    let c = s.last();
    lemma_range_at(before, c);
    if j < before.len() {
        law_dedup_ranges_differ(s.drop_last(), i, j);
    } else {
        lemma_range_at_first(before, c, i);
    }
}

// ─── Files ───

proof fn lemma_merged_file(s: Seq<crate::query::merger::MergeView>, file: Seq<char>)
    requires
        one_file(s, file),
    ensures
        one_file(crate::query::merger::merged(s), file),
    decreases s.len(),
{
    if s.len() > 0 {
        let t = s.drop_last();
        let before = crate::query::merger::merged(t);
        let m = crate::query::merger::merged(s);
        assert forall|i: int| 0 <= i < t.len() implies (#[trigger] t[i]).file == file by {
            assert(t[i] == s[i]);
        }
        lemma_merged_file(t, file);
        assert forall|i: int| 0 <= i < m.len() implies (#[trigger] m[i]).file == file by {
            if i < before.len() {
                assert(m[i].file == before[i].file);
            } else {
                assert(m[i] == s[s.len() - 1]);
            }
        }
    }
}

pub proof fn lemma_file_result_file(s: Seq<crate::query::merger::MergeView>, file: Seq<char>)
    ensures
        one_file(crate::query::merger::file_result(s, file), file),
{
    let g = crate::query::merger::of_file(s, file);
    let o = crate::query::merger::sorted(SortBy::Start, g);
    let m = crate::query::merger::merged(o);
    let w = crate::query::merger::sorted(SortBy::Width, m);
    lemma_of_file(s, file);
    law_sorted_keeps_all(SortBy::Start, g);
    lemma_one_file_within(o, g, file);
    lemma_merged_file(o, file);
    law_sorted_keeps_all(SortBy::Width, m);
    lemma_one_file_within(w, m, file);
    lemma_survivors(w);
    lemma_one_file_within(crate::query::merger::survivors(w), w, file);
}

proof fn lemma_files_result_files(
    s: Seq<crate::query::merger::MergeView>,
    files: Seq<Seq<char>>,
)
    ensures
        forall|i: int|
            0 <= i < crate::query::merger::files_result(s, files).len() ==> files.contains(
                (#[trigger] crate::query::merger::files_result(s, files)[i]).file,
            ),
    decreases files.len(),
{
    if files.len() > 0 {
        let rest = files.drop_last();
        let a = crate::query::merger::files_result(s, rest);
        let b = crate::query::merger::file_result(s, files.last());
        let r = crate::query::merger::files_result(s, files);
        lemma_files_result_files(s, rest);
        lemma_file_result_file(s, files.last());
        assert forall|i: int| 0 <= i < r.len() implies files.contains((#[trigger] r[i]).file) by {
            if i < a.len() {
                assert(r[i] == a[i]);
                assert(rest.contains(a[i].file));
                let n = choose|n: int| 0 <= n < rest.len() && rest[n] == a[i].file;
                assert(files[n] == r[i].file);
            } else {
                assert(r[i] == b[i - a.len()]);
                assert(files[files.len() - 1] == r[i].file);
            }
        }
    }
}

/// One of the chunks is of that file.
pub open spec fn mentions(s: Seq<crate::query::merger::MergeView>, file: Seq<char>) -> bool {
    exists|i: int| 0 <= i < s.len() && (#[trigger] s[i]).file == file
}

pub proof fn lemma_files_of_mentioned(s: Seq<crate::query::merger::MergeView>)
    ensures
        forall|i: int|
            0 <= i < crate::query::merger::files_of(s).len() ==> mentions(
                s,
                #[trigger] crate::query::merger::files_of(s)[i],
            ),
    decreases s.len(),
{
    if s.len() > 0 {
        let t = s.drop_last();
        let before = crate::query::merger::files_of(t);
        let after = crate::query::merger::files_of(s);
        lemma_files_of_mentioned(t);
        assert forall|i: int| 0 <= i < after.len() implies mentions(s, #[trigger] after[i]) by {
            if i < before.len() {
                assert(mentions(t, before[i]));
                let n = choose|n: int| 0 <= n < t.len() && (#[trigger] t[n]).file == before[i];
                assert(s[n].file == after[i]);
            } else {
                assert(s[s.len() - 1].file == after[i]);
            }
        }
    }
}

/// Merging brings in no file: every chunk of the result is of the file of a hit.
pub proof fn law_merge_keeps_to_the_files(s: Seq<crate::query::merger::MergeView>, top_k: nat)
    ensures
        ({
            let r = crate::query::merger::at_most(crate::query::merger::merged_all(s), top_k as int);
            forall|i: int| 0 <= i < r.len() ==> mentions(s, (#[trigger] r[i]).file)
        }),
{
    let unique = crate::query::merger::deduped(s);
    let files = crate::query::merger::files_of(unique);
    let all = crate::query::merger::files_result(unique, files);
    let m = crate::query::merger::merged_all(s);
    let r = crate::query::merger::at_most(m, top_k as int);
    law_dedup_keeps_the_best(s);
    lemma_files_of_mentioned(unique);
    lemma_files_result_files(unique, files);
    law_sorted_keeps_all(SortBy::Score, all);
    assert forall|i: int| 0 <= i < r.len() implies mentions(s, (#[trigger] r[i]).file) by {
        assert(r[i] == m[i]);
        assert(all.contains(m[i]));
        let n = choose|n: int| 0 <= n < all.len() && all[n] == m[i];
        assert(files.contains(all[n].file));
        let k = choose|k: int| 0 <= k < files.len() && files[k] == all[n].file;
        assert(mentions(unique, files[k]));
        let u = choose|u: int|
            0 <= u < unique.len() && (#[trigger] unique[u]).file == files[k];
        assert(s.contains(unique[u]));
        let v = choose|v: int| 0 <= v < s.len() && s[v] == unique[u];
        assert(s[v].file == r[i].file);
    }
}

// ─── The laws ───

/// The result is ordered by score, best first, and holds at most `top_k` chunks.
pub proof fn law_merge_is_ordered_and_capped(
    s: Seq<crate::query::merger::MergeView>,
    top_k: nat,
)
    ensures
        ({
            let r = crate::query::merger::at_most(crate::query::merger::merged_all(s), top_k as int);
            &&& r.len() <= top_k
            &&& forall|i: int, j: int|
                0 <= i < j < r.len() ==> (#[trigger] r[i]).score >= (#[trigger] r[j]).score
        }),
{
    let unique = crate::query::merger::deduped(s);
    let all = crate::query::merger::files_result(unique, crate::query::merger::files_of(unique));
    law_sorted_is_ascending(SortBy::Score, all);
    let m = crate::query::merger::merged_all(s);
    let r = crate::query::merger::at_most(m, top_k as int);
    assert forall|i: int, j: int| 0 <= i < j < r.len() implies (#[trigger] r[i]).score >= (
    #[trigger] r[j]).score by {
        assert(r[i] == m[i] && r[j] == m[j]);
        assert(crate::query::merger::rank_of(SortBy::Score, m[i])
            <= crate::query::merger::rank_of(SortBy::Score, m[j]));
    }
}

/// Before the cap, every line that a hit covers is covered by the result.
pub proof fn law_merge_covers_every_hit(s: Seq<crate::query::merger::MergeView>)
    requires
        all_ranges(s),
    ensures
        forall|i: int|
            0 <= i < s.len() ==> crate::query::merger::covered_by_any(
                crate::query::merger::merged_all(s),
                #[trigger] s[i],
            ),
{
    let unique = crate::query::merger::deduped(s);
    let files = crate::query::merger::files_of(unique);
    let all = crate::query::merger::files_result(unique, files);
    let m = crate::query::merger::merged_all(s);
    law_dedup_keeps_the_best(s);
    lemma_ranges_within(unique, s);
    lemma_files_of(unique);
    lemma_files_result(unique, files);
    law_sorted_keeps_all(SortBy::Score, all);
    assert forall|i: int| 0 <= i < s.len() implies crate::query::merger::covered_by_any(
        m,
        #[trigger] s[i],
    ) by {
        assert(has_range(unique, s[i]));
        let k = choose|k: int|
            0 <= k < unique.len() && crate::query::merger::same_range(#[trigger] unique[k], s[i])
                && unique[k].score >= s[i].score;
        assert(files.contains(unique[k].file));
        assert(crate::query::merger::covered_by_any(all, unique[k]));
        lemma_covered_within(all, m, unique[k]);
        let n = choose|n: int|
            0 <= n < m.len() && crate::query::merger::covers(#[trigger] m[n], unique[k]);
        assert(crate::query::merger::covers(m[n], s[i]));
    }
}

/// No chunk of the result lies inside another.
pub proof fn law_merge_none_inside_another(
    s: Seq<crate::query::merger::MergeView>,
    top_k: nat,
)
    requires
        all_ranges(s),
    ensures
        none_covered(
            crate::query::merger::at_most(crate::query::merger::merged_all(s), top_k as int),
        ),
{
    let unique = crate::query::merger::deduped(s);
    let files = crate::query::merger::files_of(unique);
    let all = crate::query::merger::files_result(unique, files);
    law_dedup_keeps_the_best(s);
    lemma_ranges_within(unique, s);
    lemma_files_of(unique);
    lemma_files_result(unique, files);
    lemma_sorted_none_covered(SortBy::Score, all);
    let m = crate::query::merger::merged_all(s);
    let r = crate::query::merger::at_most(m, top_k as int);
    assert forall|i: int, j: int|
        0 <= i < r.len() && 0 <= j < r.len() && i != j implies !crate::query::merger::covers(
        #[trigger] r[i],
        #[trigger] r[j],
    ) by {
        assert(r[i] == m[i] && r[j] == m[j]);
    }
}

/// Every chunk of the result comes from the hits: it covers one whose score it has,
/// bridges single lines at most, and is one of them where it is longer than the
/// limit for merged chunks.
pub proof fn law_merge_comes_from_hits(
    s: Seq<crate::query::merger::MergeView>,
    top_k: nat,
)
    requires
        all_ranges(s),
    ensures
        ({
            let r = crate::query::merger::at_most(crate::query::merger::merged_all(s), top_k as int);
            forall|i: int| 0 <= i < r.len() ==> comes_from(s, #[trigger] r[i])
        }),
{
    let unique = crate::query::merger::deduped(s);
    let files = crate::query::merger::files_of(unique);
    let all = crate::query::merger::files_result(unique, files);
    law_dedup_keeps_the_best(s);
    lemma_ranges_within(unique, s);
    lemma_files_of(unique);
    lemma_files_result(unique, files);
    law_sorted_keeps_all(SortBy::Score, all);
    let m = crate::query::merger::merged_all(s);
    let r = crate::query::merger::at_most(m, top_k as int);
    assert forall|i: int| 0 <= i < r.len() implies comes_from(s, #[trigger] r[i]) by {
        assert(r[i] == m[i]);
        assert(all.contains(m[i]));
        let n = choose|n: int| 0 <= n < all.len() && all[n] == m[i];
        assert(comes_from(unique, all[n]));
        lemma_comes_from_longer(unique, s, r[i]);
    }
}

/// A result bridges gaps of one line at most: each of its lines is a line of a hit
/// that it covers, or the only line between two such hits.
pub proof fn law_merge_bridges_single_lines(
    s: Seq<crate::query::merger::MergeView>,
    top_k: nat,
)
    requires
        all_ranges(s),
    ensures
        ({
            let r = crate::query::merger::at_most(crate::query::merger::merged_all(s), top_k as int);
            forall|i: int| 0 <= i < r.len() ==> bridges_single_lines(s, #[trigger] r[i])
        }),
{
    law_merge_comes_from_hits(s, top_k);
    let r = crate::query::merger::at_most(crate::query::merger::merged_all(s), top_k as int);
    assert forall|i: int| 0 <= i < r.len() implies bridges_single_lines(s, #[trigger] r[i]) by {
        assert(comes_from(s, r[i]));
    }
}

proof fn lemma_merged_lengths(s: Seq<crate::query::merger::MergeView>)
    ensures
        forall|i: int|
            0 <= i < crate::query::merger::merged(s).len() ==> is_short_or_unchanged(
                s,
                #[trigger] crate::query::merger::merged(s)[i],
            ),
    decreases s.len(),
{
    if s.len() > 0 {
        let t = s.drop_last();
        let before = crate::query::merger::merged(t);
        let m = crate::query::merger::merged(s);
        lemma_merged_lengths(t);
        assert(s[s.len() - 1] == s.last());
        assert forall|i: int| 0 <= i < m.len() implies is_short_or_unchanged(
            s,
            #[trigger] m[i],
        ) by {
            if i < before.len() && m[i] == before[i] && t.contains(before[i]) {
                let k = choose|k: int| 0 <= k < t.len() && #[trigger] t[k] == before[i];
                assert(s[k] == m[i]);
            }
        }
    }
}

proof fn lemma_short_or_unchanged_within(
    a: Seq<crate::query::merger::MergeView>,
    b: Seq<crate::query::merger::MergeView>,
    c: crate::query::merger::MergeView,
)
    requires
        is_short_or_unchanged(a, c),
        within(a, b),
    ensures
        is_short_or_unchanged(b, c),
{
    if a.contains(c) {
        let k = choose|k: int| 0 <= k < a.len() && #[trigger] a[k] == c;
        assert(b.contains(a[k]));
    }
}

proof fn lemma_files_lengths(
    s: Seq<crate::query::merger::MergeView>,
    files: Seq<Seq<char>>,
)
    ensures
        forall|i: int|
            0 <= i < crate::query::merger::files_result(s, files).len() ==> is_short_or_unchanged(
                s,
                #[trigger] crate::query::merger::files_result(s, files)[i],
            ),
    decreases files.len(),
{
    if files.len() > 0 {
        let a = crate::query::merger::files_result(s, files.drop_last());
        let g = crate::query::merger::of_file(s, files.last());
        let o = crate::query::merger::sorted(SortBy::Start, g);
        let m = crate::query::merger::merged(o);
        let w = crate::query::merger::sorted(SortBy::Width, m);
        let b = crate::query::merger::file_result(s, files.last());
        let r = crate::query::merger::files_result(s, files);
        lemma_files_lengths(s, files.drop_last());
        lemma_of_file(s, files.last());
        law_sorted_keeps_all(SortBy::Start, g);
        lemma_merged_lengths(o);
        law_sorted_keeps_all(SortBy::Width, m);
        lemma_survivors(w);
        assert forall|i: int| 0 <= i < r.len() implies is_short_or_unchanged(
            s,
            #[trigger] r[i],
        ) by {
            if i < a.len() {
                assert(r[i] == a[i]);
            } else {
                assert(r[i] == b[i - a.len()]);
                assert(w.contains(b[i - a.len()]));
                let d = choose|d: int| 0 <= d < w.len() && #[trigger] w[d] == r[i];
                assert(m.contains(w[d]));
                let e = choose|e: int| 0 <= e < m.len() && #[trigger] m[e] == r[i];
                assert(is_short_or_unchanged(o, m[e]));
                lemma_short_or_unchanged_within(o, g, r[i]);
                lemma_short_or_unchanged_within(g, s, r[i]);
            }
        }
    }
}

/// A result that is longer than the limit for merged chunks is a single hit,
/// unchanged.
pub proof fn law_merge_leaves_long_hits_alone(
    s: Seq<crate::query::merger::MergeView>,
    top_k: nat,
)
    ensures
        ({
            let r = crate::query::merger::at_most(crate::query::merger::merged_all(s), top_k as int);
            forall|i: int|
                0 <= i < r.len() && (#[trigger] r[i]).line_end - r[i].line_start + 1
                    > crate::query::merger::MAX_MERGED_LINES ==> s.contains(r[i])
        }),
{
    let unique = crate::query::merger::deduped(s);
    let files = crate::query::merger::files_of(unique);
    let all = crate::query::merger::files_result(unique, files);
    let m = crate::query::merger::merged_all(s);
    let r = crate::query::merger::at_most(m, top_k as int);
    law_dedup_keeps_the_best(s);
    lemma_files_lengths(unique, files);
    law_sorted_keeps_all(SortBy::Score, all);
    assert forall|i: int|
        0 <= i < r.len() && (#[trigger] r[i]).line_end - r[i].line_start + 1
            > crate::query::merger::MAX_MERGED_LINES implies s.contains(r[i]) by {
        assert(r[i] == m[i]);
        assert(all.contains(m[i]));
        let n = choose|n: int| 0 <= n < all.len() && #[trigger] all[n] == m[i];
        assert(is_short_or_unchanged(unique, all[n]));
        lemma_short_or_unchanged_within(unique, s, r[i]);
    }
}

}
