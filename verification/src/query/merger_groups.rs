//! What merging makes of the chunks that it joins.
use vstd::prelude::*;

use crate::lists;
use crate::query::merger::{MergeView, SortBy};
use crate::query::{merger, merger_laws};

verus! {

// ─── Groups ───

/// The name is the first of those that are given at all.
pub open spec fn is_first_given(names: Seq<Option<Seq<char>>>, name: Option<Seq<char>>) -> bool {
    match name {
        Some(_) => exists|i: int|
            0 <= i < names.len() && #[trigger] names[i] == name && forall|j: int|
                0 <= j < i ==> (#[trigger] names[j]) is None,
        None => forall|j: int| 0 <= j < names.len() ==> (#[trigger] names[j]) is None,
    }
}

/// The chunk stands for a group: it has the file and the first line of the first
/// of them, the last line of those that reach furthest, the score of those that
/// score highest, and the first symbol that one of them names. One alone stands
/// for itself; several are not longer than 60 lines.
pub open spec fn stands_for(group: Seq<MergeView>, c: MergeView) -> bool {
    &&& group.len() > 0
    &&& c.file == group[0].file
    &&& c.line_start == group[0].line_start
    &&& forall|i: int| 0 <= i < group.len() ==> (#[trigger] group[i]).line_end <= c.line_end
    &&& exists|i: int| 0 <= i < group.len() && (#[trigger] group[i]).line_end == c.line_end
    &&& forall|i: int| 0 <= i < group.len() ==> (#[trigger] group[i]).score <= c.score
    &&& exists|i: int| 0 <= i < group.len() && (#[trigger] group[i]).score == c.score
    &&& is_first_given(group.map_values(|g: MergeView| g.symbol), c.symbol)
    &&& is_first_given(group.map_values(|g: MergeView| g.symbol_fqn), c.symbol_fqn)
    &&& group.len() == 1 ==> c == group[0]
    &&& group.len() > 1 ==> c.line_end - c.line_start + 1 <= 60
}

/// The chunk cannot be joined to the one before it: more than one line lies
/// between, or both together would be longer than 60 lines.
pub open spec fn is_apart(a: MergeView, b: MergeView) -> bool {
    b.line_start > a.line_end + 2 || a.line_end - a.line_start + 1 > 60 || b.line_end - a.line_start
        + 1 > 60
}

/// The cuts part the list into consecutive groups, one for each chunk of the
/// second list, which stands for it; the first of each group could not be joined
/// to what stands for the group before.
pub open spec fn are_cuts(s: Seq<MergeView>, m: Seq<MergeView>, cuts: Seq<int>) -> bool {
    &&& cuts.len() == m.len() + 1
    &&& cuts[0] == 0
    &&& cuts[m.len() as int] == s.len()
    &&& forall|k: int| 0 <= k < m.len() ==> #[trigger] is_group(s, m, cuts, k)
}

/// The chunk with the given number stands for the group between its cuts.
pub open spec fn is_group(s: Seq<MergeView>, m: Seq<MergeView>, cuts: Seq<int>, k: int) -> bool {
    &&& 0 <= cuts[k] < cuts[k + 1] <= s.len()
    &&& stands_for(s.subrange(cuts[k], cuts[k + 1]), m[k])
    &&& k > 0 ==> is_apart(m[k - 1], s[cuts[k]])
}

proof fn lemma_first_given_push(
    names: Seq<Option<Seq<char>>>,
    name: Option<Seq<char>>,
    next: Option<Seq<char>>,
)
    requires
        is_first_given(names, name),
    ensures
        is_first_given(
            names.push(next),
            if name is Some {
                name
            } else {
                next
            },
        ),
{
    let all = names.push(next);
    if name is Some {
        let i = choose|i: int|
            0 <= i < names.len() && #[trigger] names[i] == name && forall|j: int|
                0 <= j < i ==> (#[trigger] names[j]) is None;
        assert(all[i] == name);
        assert forall|j: int| 0 <= j < i implies (#[trigger] all[j]) is None by {
            assert(all[j] == names[j]);
        }
    } else {
        let n = names.len() as int;
        assert(all[n] == next);
        assert forall|j: int| 0 <= j < n implies (#[trigger] all[j]) is None by {
            assert(all[j] == names[j]);
        }
    }
}

proof fn lemma_alone(c: MergeView)
    ensures
        stands_for(seq![c], c),
{
    let g = seq![c];
    assert(g[0] == c);
    let a = g.map_values(|g: MergeView| g.symbol);
    let b = g.map_values(|g: MergeView| g.symbol_fqn);
    assert(a[0] == c.symbol);
    assert(b[0] == c.symbol_fqn);
}

/// Joining one more chunk to what stands for a group gives what stands for the
/// group with that chunk.
proof fn lemma_stands_for_push(group: Seq<MergeView>, a: MergeView, b: MergeView)
    requires
        stands_for(group, a),
        merger::can_merge(a, b),
    ensures
        stands_for(group.push(b), merger::merged_pair(a, b)),
{
    let all = group.push(b);
    let c = merger::merged_pair(a, b);
    let n = group.len() as int;
    assert(all[n] == b);
    assert(all[0] == group[0]);
    assert forall|i: int| 0 <= i < all.len() implies (#[trigger] all[i]).line_end <= c.line_end
        && all[i].score <= c.score by {
        if i < n {
            assert(all[i] == group[i]);
        }
    }
    let e = choose|i: int| 0 <= i < n && (#[trigger] group[i]).line_end == a.line_end;
    let h = choose|i: int| 0 <= i < n && (#[trigger] group[i]).score == a.score;
    assert(all[e] == group[e]);
    assert(all[h] == group[h]);
    let f = |g: MergeView| g.symbol;
    let q = |g: MergeView| g.symbol_fqn;
    lemma_first_given_push(group.map_values(f), a.symbol, b.symbol);
    lemma_first_given_push(group.map_values(q), a.symbol_fqn, b.symbol_fqn);
    assert(all.map_values(f) =~= group.map_values(f).push(b.symbol));
    assert(all.map_values(q) =~= group.map_values(q).push(b.symbol_fqn));
}

/// The merge pass joins consecutive chunks and nothing else: what comes out
/// stands, one for one and in order, for groups that together are all that went
/// in.
pub proof fn law_merging_joins_groups(s: Seq<MergeView>) -> (cuts: Seq<int>)
    ensures
        are_cuts(s, merger::merged(s), cuts),
    decreases s.len(),
{
    let m = merger::merged(s);
    if s.len() == 0 {
        seq![0int]
    } else {
        let t = s.drop_last();
        let c = s.last();
        let before = merger::merged(t);
        let had = law_merging_joins_groups(t);
        let n = before.len() as int;
        if n > 0 && merger::can_merge(before.last(), c) {
            let cuts = had.update(n, s.len() as int);
            assert(m =~= before.update(n - 1, merger::merged_pair(before.last(), c)));
            assert(is_group(t, before, had, n - 1));
            assert(s.subrange(cuts[n - 1], cuts[n]) =~= t.subrange(had[n - 1], had[n]).push(c));
            lemma_stands_for_push(t.subrange(had[n - 1], had[n]), before[n - 1], c);
            assert forall|k: int| 0 <= k < n implies #[trigger] is_group(s, m, cuts, k) by {
                assert(is_group(t, before, had, k));
                assert(s[had[k]] == t[had[k]]);
                if k < n - 1 {
                    assert(s.subrange(cuts[k], cuts[k + 1]) =~= t.subrange(had[k], had[k + 1]));
                }
            }
            cuts
        } else {
            let cuts = had.push(s.len() as int);
            assert(m == before.push(c));
            assert(s.subrange(cuts[n], cuts[n + 1]) =~= seq![c]);
            lemma_alone(c);
            assert forall|k: int| 0 <= k < m.len() implies #[trigger] is_group(s, m, cuts, k) by {
                if k < n {
                    assert(is_group(t, before, had, k));
                    assert(s[had[k]] == t[had[k]]);
                    assert(s.subrange(cuts[k], cuts[k + 1]) =~= t.subrange(had[k], had[k + 1]));
                }
            }
            cuts
        }
    }
}

/// The group that a chunk of the list falls into.
proof fn lemma_group_of(s: Seq<MergeView>, m: Seq<MergeView>, cuts: Seq<int>, i: int) -> (k: int)
    requires
        are_cuts(s, m, cuts),
        0 <= i < s.len(),
    ensures
        0 <= k < m.len(),
        cuts[k] <= i < cuts[k + 1],
{
    lemma_group_below(s, m, cuts, i, m.len() as int)
}

proof fn lemma_group_below(
    s: Seq<MergeView>,
    m: Seq<MergeView>,
    cuts: Seq<int>,
    i: int,
    n: int,
) -> (k: int)
    requires
        are_cuts(s, m, cuts),
        0 <= n <= m.len(),
        0 <= i < cuts[n],
    ensures
        0 <= k < n,
        cuts[k] <= i < cuts[k + 1],
    decreases n,
{
    if n > 0 {
        assert(is_group(s, m, cuts, n - 1));
    }
    if cuts[n - 1] <= i {
        n - 1
    } else {
        lemma_group_below(s, m, cuts, i, n - 1)
    }
}

/// No hit loses score by being joined: for every chunk that goes into the merge
/// pass some chunk that comes out of it covers it and scores no less.
pub proof fn law_joining_loses_no_score(s: Seq<MergeView>, file: Seq<char>, i: int)
    requires
        merger_laws::ascending(SortBy::Start, s),
        merger_laws::one_file(s, file),
        0 <= i < s.len(),
    ensures
        exists|k: int|
            0 <= k < merger::merged(s).len() && {
                let c = #[trigger] merger::merged(s)[k];
                &&& c.file == s[i].file
                &&& c.line_start <= s[i].line_start
                &&& s[i].line_end <= c.line_end
                &&& s[i].score <= c.score
            },
{
    let m = merger::merged(s);
    let cuts = law_merging_joins_groups(s);
    let k = lemma_group_of(s, m, cuts, i);
    assert(is_group(s, m, cuts, k));
    let group = s.subrange(cuts[k], cuts[k + 1]);
    assert(stands_for(group, m[k]));
    assert(group[i - cuts[k]] == s[i]);
    assert(group[0] == s[cuts[k]]);
    if cuts[k] < i {
        assert(merger::rank_of(SortBy::Start, s[cuts[k]]) <= merger::rank_of(SortBy::Start, s[i]));
    }
    assert(m[k].line_start <= s[i].line_start);
}

/// The score of what is joined is the highest of the two, and neither reaches
/// beyond what they become together.
pub proof fn law_pairs_keep_the_best(a: MergeView, b: MergeView)
    requires
        a.file == b.file,
        a.line_start <= b.line_start,
    ensures
        ({
            let c = merger::merged_pair(a, b);
            &&& c.score >= a.score
            &&& c.score >= b.score
            &&& c.score == a.score || c.score == b.score
            &&& merger::covers(c, a)
            &&& merger::covers(c, b)
            &&& c.line_start == a.line_start
            &&& c.line_end == a.line_end || c.line_end == b.line_end
        }),
{
}

// ─── Contents ───

/// The chunk shows the lines of the file that it names, the last of which is not
/// empty.
pub open spec fn shows_file(c: MergeView, all: Seq<Seq<char>>) -> bool {
    &&& 1 <= c.line_start <= c.line_end <= all.len()
    &&& all[c.line_end - 1].len() > 0
    &&& c.content == crate::text::joined(all.subrange(c.line_start - 1, c.line_end as int), "\n"@)
}

/// Lines as they are read from a file.
pub open spec fn are_lines(all: Seq<Seq<char>>) -> bool {
    &&& forall|i: int, k: int|
        0 <= i < all.len() && 0 <= k < all[i].len() ==> #[trigger] all[i][k] != '\n'
    &&& forall|i: int| 0 <= i < all.len() && (#[trigger] all[i]).len() > 0 ==> all[i].last() != '\r'
}

/// Two chunks that show their lines of a file, with no line between them, show
/// all of these lines together, each once and in order.
pub proof fn law_joined_pair_shows_the_file(a: MergeView, b: MergeView, all: Seq<Seq<char>>)
    requires
        are_lines(all),
        shows_file(a, all),
        shows_file(b, all),
        a.line_start <= b.line_start <= a.line_end + 1,
    ensures
        shows_file(merger::merged_pair(a, b), all),
{
    reveal_strlit("\n");
    let (s, e) = (b.line_start - 1, b.line_end as int);
    let part = all.subrange(s, e);
    assert forall|i: int, k: int| 0 <= i < part.len() && 0 <= k < part[i].len() implies
        #[trigger] part[i][k] != '\n' by {
        assert(all[s + i][k] != '\n');
    }
    assert forall|i: int| 0 <= i < part.len() && (#[trigger] part[i]).len() > 0 implies
        part[i].last() != '\r' by {
        assert(part[i] == all[s + i]);
    }
    assert(part.last() == all[e - 1]);
    crate::text::law_lines_with_blank_ones_of_joined(part);
    let over = merger::overlap_of(a, b);
    let head = all.subrange(a.line_start - 1, a.line_end as int);
    let c = merger::merged_pair(a, b);
    if b.line_end > a.line_end {
        let rest = part.skip(over);
        assert(rest =~= all.subrange(a.line_end as int, e));
        assert(rest.last() == all[e - 1]);
        let tail = crate::text::joined(rest, "\n"@);
        assert(merger::without_lines(b.content, over) == tail);
        lemma_joined_not_empty(rest);
        crate::text::law_joined_is_put_together(head, rest, "\n"@);
        assert(head + rest =~= all.subrange(a.line_start - 1, e));
        assert(a.content.push('\n') + tail =~= a.content + "\n"@ + tail);
    } else {
        assert(over >= part.len());
        assert(merger::without_lines(b.content, over).len() == 0);
    }
}

proof fn lemma_joined_not_empty(parts: Seq<Seq<char>>)
    requires
        parts.len() > 0,
        parts.last().len() > 0,
    ensures
        crate::text::joined(parts, "\n"@).len() > 0,
{
    let n = parts.len() - 1;
    let (a, b) = (parts.take(n), seq![parts.last()]);
    crate::text::law_joined_is_put_together(a, b, "\n"@);
    crate::text::law_joined_is_put_together(b, b, "\n"@);
    assert(a + b =~= parts);
    if n == 0 {
        assert(parts =~= b);
    }
}

/// Where one line lies between two chunks, the second follows the first on a line
/// of its own.
pub proof fn law_bridged_pair_shows_both(a: MergeView, b: MergeView)
    requires
        b.line_start > a.line_end,
        b.content.len() > 0,
        crate::text::joined(crate::text::lines_of(b.content), "\n"@) == b.content,
    ensures
        merger::merged_pair(a, b).content == a.content + seq!['\n'] + b.content,
{
    let all = crate::text::lines_of(b.content);
    assert(all.skip(0) =~= all);
    if all.len() == 0 {
        crate::text::law_joined_is_put_together(all, all, "\n"@);
        assert(all =~= Seq::empty());
    }
    assert(a.content.push('\n') + b.content =~= a.content + seq!['\n'] + b.content);
}

/// Chunks that show their lines of a file still do when they are merged, as long
/// as none begins two lines behind the end of another.
pub proof fn law_merged_contents_show_the_file(
    s: Seq<MergeView>,
    file: Seq<char>,
    all: Seq<Seq<char>>,
)
    requires
        merger_laws::ascending(SortBy::Start, s),
        merger_laws::one_file(s, file),
        are_lines(all),
        forall|i: int| 0 <= i < s.len() ==> shows_file(#[trigger] s[i], all),
        forall|i: int, j: int|
            0 <= i < s.len() && 0 <= j < s.len() ==> (#[trigger] s[j]).line_start != (
            #[trigger] s[i]).line_end + 2,
    ensures
        forall|k: int|
            0 <= k < merger::merged(s).len() ==> shows_file(#[trigger] merger::merged(s)[k], all),
    decreases s.len(),
{
    let m = merger::merged(s);
    if s.len() > 0 {
        let t = s.drop_last();
        let c = s.last();
        let before = merger::merged(t);
        assert forall|i: int| 0 <= i < t.len() implies shows_file(#[trigger] t[i], all) by {
            assert(t[i] == s[i]);
        }
        assert forall|i: int, j: int| 0 <= i < t.len() && 0 <= j < t.len() implies (
        #[trigger] t[j]).line_start != (#[trigger] t[i]).line_end + 2 by {
            assert(t[i] == s[i] && t[j] == s[j]);
        }
        assert forall|i: int, j: int| 0 <= i < j < t.len() implies merger::rank_of(
            SortBy::Start,
            #[trigger] t[i],
        ) <= merger::rank_of(SortBy::Start, #[trigger] t[j]) by {
            assert(t[i] == s[i] && t[j] == s[j]);
        }
        assert(merger_laws::one_file(t, file)) by {
            assert forall|i: int| 0 <= i < t.len() implies (#[trigger] t[i]).file == file by {
                assert(t[i] == s[i]);
            }
        }
        law_merged_contents_show_the_file(t, file, all);
        assert(s[s.len() - 1] == c);
        assert(shows_file(c, all));
        let n = before.len() as int;
        if n > 0 && merger::can_merge(before.last(), c) {
            let a = before.last();
            let cuts = law_merging_joins_groups(t);
            assert(is_group(t, before, cuts, n - 1));
            let group = t.subrange(cuts[n - 1], cuts[n]);
            assert(stands_for(group, before[n - 1]));
            let e = choose|i: int|
                0 <= i < group.len() && (#[trigger] group[i]).line_end == a.line_end;
            assert(group[e] == s[cuts[n - 1] + e]);
            assert(c.line_start != s[cuts[n - 1] + e].line_end + 2);
            assert(group[0] == s[cuts[n - 1]]);
            assert(merger::rank_of(SortBy::Start, s[cuts[n - 1]]) <= merger::rank_of(
                SortBy::Start,
                s[s.len() - 1],
            ));
            assert(shows_file(before[n - 1], all));
            law_joined_pair_shows_the_file(a, c, all);
        }
        assert forall|k: int| 0 <= k < m.len() implies shows_file(#[trigger] m[k], all) by {
            if k < n && m[k] == before[k] {
                assert(shows_file(before[k], all));
            }
        }
    }
}

// ─── Files ───

/// The chunks of a file are all of that file, in their order.
pub proof fn law_chunks_of_a_file(s: Seq<MergeView>, file: Seq<char>)
    ensures
        merger::of_file(s, file) == s.filter(|c: MergeView| c.file == file),
    decreases s.len(),
{
    reveal(Seq::filter);
    if s.len() > 0 {
        law_chunks_of_a_file(s.drop_last(), file);
    } else {
        assert(merger::of_file(s, file) =~= s.filter(|c: MergeView| c.file == file));
    }
}

/// Some of the chunks of one file stand behind the one.
pub open spec fn is_made_of_some(s: Seq<MergeView>, c: MergeView) -> bool {
    exists|group: Seq<MergeView>| #[trigger]
        stands_for(group, c) && merger_laws::within(group, s) && merger_laws::one_file(
            group,
            c.file,
        )
}

proof fn lemma_made_of(s: Seq<MergeView>, o: Seq<MergeView>, file: Seq<char>)
    requires
        merger_laws::within(o, s),
        merger_laws::one_file(o, file),
    ensures
        forall|k: int|
            0 <= k < merger::merged(o).len() ==> is_made_of_some(
                s,
                #[trigger] merger::merged(o)[k],
            ),
{
    let m = merger::merged(o);
    let cuts = law_merging_joins_groups(o);
    assert forall|k: int| 0 <= k < m.len() implies is_made_of_some(s, #[trigger] m[k]) by {
        assert(is_group(o, m, cuts, k));
        let group = o.subrange(cuts[k], cuts[k + 1]);
        assert(stands_for(group, m[k]));
        assert forall|i: int| 0 <= i < group.len() implies s.contains(#[trigger] group[i]) by {
            assert(group[i] == o[cuts[k] + i]);
        }
        assert forall|i: int| 0 <= i < group.len() implies (#[trigger] group[i]).file
            == m[k].file by {
            assert(group[i] == o[cuts[k] + i]);
            assert(group[0] == o[cuts[k]]);
        }
    }
}

proof fn lemma_file_made_of(s: Seq<MergeView>, all: Seq<MergeView>, file: Seq<char>)
    requires
        merger_laws::within(s, all),
    ensures
        forall|k: int|
            0 <= k < merger::file_result(s, file).len() ==> is_made_of_some(
                all,
                #[trigger] merger::file_result(s, file)[k],
            ),
{
    let g = merger::of_file(s, file);
    let o = merger::sorted(SortBy::Start, g);
    let m = merger::merged(o);
    let w = merger::sorted(SortBy::Width, m);
    let r = merger::survivors(w);
    merger_laws::lemma_of_file(s, file);
    merger_laws::law_sorted_keeps_all(SortBy::Start, g);
    merger_laws::law_sorted_keeps_all(SortBy::Width, m);
    merger_laws::lemma_survivors(w);
    merger_laws::lemma_one_file_within(o, g, file);
    assert(merger_laws::within(o, all)) by {
        assert forall|i: int| 0 <= i < o.len() implies all.contains(#[trigger] o[i]) by {
            assert(g.contains(o[i]));
            let a = choose|a: int| 0 <= a < g.len() && g[a] == o[i];
            assert(s.contains(g[a]));
            let b = choose|b: int| 0 <= b < s.len() && s[b] == g[a];
            assert(all.contains(s[b]));
        }
    }
    lemma_made_of(all, o, file);
    assert forall|k: int| 0 <= k < r.len() implies is_made_of_some(all, #[trigger] r[k]) by {
        assert(w.contains(r[k]));
        let a = choose|a: int| 0 <= a < w.len() && w[a] == r[k];
        assert(m.contains(w[a]));
        let b = choose|b: int| 0 <= b < m.len() && m[b] == w[a];
        assert(is_made_of_some(all, m[b]));
    }
}

proof fn lemma_files_made_of(s: Seq<MergeView>, all: Seq<MergeView>, files: Seq<Seq<char>>)
    requires
        merger_laws::within(s, all),
    ensures
        forall|k: int|
            0 <= k < merger::files_result(s, files).len() ==> is_made_of_some(
                all,
                #[trigger] merger::files_result(s, files)[k],
            ),
    decreases files.len(),
{
    if files.len() > 0 {
        let r = merger::files_result(s, files);
        let a = merger::files_result(s, files.drop_last());
        let b = merger::file_result(s, files.last());
        lemma_files_made_of(s, all, files.drop_last());
        lemma_file_made_of(s, all, files.last());
        assert forall|k: int| 0 <= k < r.len() implies is_made_of_some(all, #[trigger] r[k]) by {
            if k < a.len() {
                assert(r[k] == a[k]);
            } else {
                assert(r[k] == b[k - a.len()]);
            }
        }
    }
}

/// Everything that merging returns stands for hits of one file: it has the
/// highest of their scores, reaches from the first line of the first to the
/// furthest, and names the first symbol that one of them names.
pub proof fn law_results_stand_for_hits(s: Seq<MergeView>, k: int)
    requires
        0 <= k < merger::merged_all(s).len(),
    ensures
        is_made_of_some(s, merger::merged_all(s)[k]),
{
    let unique = merger::deduped(s);
    let all = merger::files_result(unique, merger::files_of(unique));
    let m = merger::merged_all(s);
    merger_laws::law_dedup_keeps_the_best(s);
    lemma_files_made_of(unique, s, merger::files_of(unique));
    merger_laws::law_sorted_keeps_all(SortBy::Score, all);
    assert(all.contains(m[k]));
    let a = choose|a: int| 0 <= a < all.len() && all[a] == m[k];
    assert(is_made_of_some(s, all[a]));
}

/// The cap takes the first elements and nothing else away.
pub proof fn law_cap_keeps_the_first(s: Seq<MergeView>, top_k: nat)
    ensures
        merger::at_most(s, top_k as int).is_prefix_of(s),
        s.len() <= top_k ==> merger::at_most(s, top_k as int) == s,
        s.len() > top_k ==> merger::at_most(s, top_k as int).len() == top_k,
{
    assert(s =~= s.subrange(0, s.len() as int));
    if s.len() > top_k {
        assert(s.take(top_k as int) =~= s.subrange(0, top_k as int));
    }
}

// ─── Order ───

proof fn lemma_filter_push(s: Seq<MergeView>, c: MergeView, p: spec_fn(MergeView) -> bool)
    ensures
        s.push(c).filter(p) == if p(c) {
            s.filter(p).push(c)
        } else {
            s.filter(p)
        },
{
    reveal(Seq::filter);
    assert(s.push(c).drop_last() =~= s);
}

proof fn lemma_inserted_filter(by: SortBy, s: Seq<MergeView>, c: MergeView, rank: int)
    requires
        merger_laws::ascending(by, s),
    ensures
        ({
            let p = |m: MergeView| merger::rank_of(by, m) == rank;
            merger::inserted(by, s, c).filter(p) == s.push(c).filter(p)
        }),
    decreases s.len(),
{
    reveal(Seq::filter);
    let p = |m: MergeView| merger::rank_of(by, m) == rank;
    if s.len() == 0 || merger::rank_of(by, s.last()) <= merger::rank_of(by, c) {
    } else {
        let t = s.drop_last();
        assert forall|i: int, j: int| 0 <= i < j < t.len() implies merger::rank_of(
            by,
            #[trigger] t[i],
        ) <= merger::rank_of(by, #[trigger] t[j]) by {
            assert(t[i] == s[i] && t[j] == s[j]);
        }
        lemma_inserted_filter(by, t, c, rank);
        let all = merger::inserted(by, t, c);
        assert(all.push(s.last()).drop_last() =~= all);
        assert(s.push(c).drop_last() =~= s);
        assert(t.push(c).drop_last() =~= t);
        lemma_filter_push(all, s.last(), p);
        lemma_filter_push(t, c, p);
        lemma_filter_push(t, s.last(), p);
        lemma_filter_push(s, c, p);
        assert(t.push(s.last()) =~= s);
        assert(all.push(s.last()).filter(p) =~= s.push(c).filter(p));
    }
}

/// Sorting is stable: chunks that are equal in it keep their order.
pub proof fn law_sorting_is_stable(by: SortBy, s: Seq<MergeView>, rank: int)
    ensures
        ({
            let p = |m: MergeView| merger::rank_of(by, m) == rank;
            merger::sorted(by, s).filter(p) == s.filter(p)
        }),
    decreases s.len(),
{
    reveal(Seq::filter);
    let p = |m: MergeView| merger::rank_of(by, m) == rank;
    if s.len() > 0 {
        let t = s.drop_last();
        law_sorting_is_stable(by, t, rank);
        merger_laws::law_sorted_is_ascending(by, t);
        let u = merger::sorted(by, t);
        lemma_inserted_filter(by, u, s.last(), rank);
        assert(u.push(s.last()).drop_last() =~= u);
        assert(merger::sorted(by, s).filter(p) =~= s.filter(p));
    } else {
        assert(merger::sorted(by, s).filter(p) =~= s.filter(p));
    }
}

/// What chunks are sorted by: their first lines, ascending; their numbers of lines
/// and their scores, descending.
pub proof fn law_ranks(a: MergeView, b: MergeView)
    requires
        a.line_start <= a.line_end,
        b.line_start <= b.line_end,
    ensures
        merger::rank_of(SortBy::Start, a) <= merger::rank_of(SortBy::Start, b) <==> a.line_start
            <= b.line_start,
        merger::rank_of(SortBy::Width, a) <= merger::rank_of(SortBy::Width, b) <==> a.line_end
            - a.line_start >= b.line_end - b.line_start,
        merger::rank_of(SortBy::Score, a) <= merger::rank_of(SortBy::Score, b) <==> a.score
            >= b.score,
{
}

/// The files come in the order in which they first occur, each once.
pub proof fn law_files_come_in_order(s: Seq<MergeView>)
    ensures
        lists::are_firsts(merger::files_of(s), s.map_values(|c: MergeView| c.file)),
    decreases s.len(),
{
    let f = |c: MergeView| c.file;
    if s.len() == 0 {
        assert(s.map_values(f) =~= Seq::empty());
    } else {
        let t = s.drop_last();
        law_files_come_in_order(t);
        lists::lemma_firsts_push(merger::files_of(t), t.map_values(f), s.last().file);
        assert(s.map_values(f) =~= t.map_values(f).push(s.last().file));
    }
}

/// The range of a chunk.
pub open spec fn range_of(c: MergeView) -> (Seq<char>, u32, u32) {
    (c.file, c.line_start, c.line_end)
}

/// The chunk is the first of those that score highest in its range.
pub open spec fn is_first_best(s: Seq<MergeView>, i: int) -> bool {
    &&& 0 <= i < s.len()
    &&& forall|j: int|
        0 <= j < s.len() && range_of(#[trigger] s[j]) == range_of(s[i]) ==> s[j].score <= s[i].score
            && (j < i ==> s[j].score < s[i].score)
}

/// There is one chunk for each range, in the order in which the ranges first occur,
/// and it is the first of those that score highest in it.
pub proof fn law_duplicates_give_way_to_the_best(s: Seq<MergeView>)
    ensures
        lists::are_firsts(
            merger::deduped(s).map_values(|c: MergeView| range_of(c)),
            s.map_values(|c: MergeView| range_of(c)),
        ),
        forall|k: int|
            0 <= k < merger::deduped(s).len() ==> exists|i: int| #[trigger]
                is_first_best(s, i) && s[i] == #[trigger] merger::deduped(s)[k],
    decreases s.len(),
{
    let f = |c: MergeView| range_of(c);
    let d = merger::deduped(s);
    if s.len() == 0 {
        assert(d.map_values(f) =~= Seq::empty());
        assert(s.map_values(f) =~= Seq::empty());
    } else {
        let t = s.drop_last();
        let c = s.last();
        let before = merger::deduped(t);
        law_duplicates_give_way_to_the_best(t);
        merger_laws::lemma_range_at(before, c);
        lists::lemma_firsts_push(before.map_values(f), t.map_values(f), range_of(c));
        assert(s.map_values(f) =~= t.map_values(f).push(range_of(c)));
        let at = merger::range_at(before, c);
        let n = t.len() as int;
        if at < before.len() {
            assert(before.map_values(f)[at] == range_of(c));
            assert(before.map_values(f).contains(range_of(c)));
            assert(d.map_values(f) =~= before.map_values(f));
        } else {
            lemma_not_there(before, c);
            assert(d.map_values(f) =~= before.map_values(f).push(range_of(c)));
            assert(!before.map_values(f).contains(range_of(c))) by {
                if before.map_values(f).contains(range_of(c)) {
                    let k = choose|k: int|
                        0 <= k < before.len() && before.map_values(f)[k] == range_of(c);
                    assert(range_of(before[k]) == range_of(c));
                }
            }
        }
        assert forall|k: int| 0 <= k < d.len() implies exists|i: int| #[trigger]
            is_first_best(s, i) && s[i] == #[trigger] d[k] by {
            if k < before.len() && d[k] == before[k] && !(at == k && c.score
                > before[k].score) {
                let i = choose|i: int| #[trigger] is_first_best(t, i) && t[i] == before[k];
                assert(s[i] == t[i]);
                assert(is_first_best(s, i)) by {
                    assert forall|j: int| 0 <= j < s.len() && range_of(#[trigger] s[j]) == range_of(
                        s[i],
                    ) implies s[j].score <= s[i].score && (j < i ==> s[j].score
                        < s[i].score) by {
                        if j < n {
                            assert(s[j] == t[j]);
                        } else {
                            assert(s[j] == c);
                            if at < before.len() {
                                lemma_same_place(before, t, k, at);
                            } else {
                                lemma_not_there(before, c);
                                assert(range_of(before[k]) != range_of(c));
                            }
                        }
                    }
                }
            } else {
                assert(d[k] == c);
                assert(s[n] == c);
                assert(is_first_best(s, n)) by {
                    assert forall|j: int| 0 <= j < s.len() && range_of(#[trigger] s[j]) == range_of(
                        s[n],
                    ) implies s[j].score <= s[n].score && (j < n ==> s[j].score
                        < s[n].score) by {
                        if j < n {
                            assert(s[j] == t[j]);
                            if at < before.len() {
                                let i = choose|i: int| #[trigger]
                                    is_first_best(t, i) && t[i] == before[at];
                                assert(t[j].score <= t[i].score);
                            } else {
                                assert(t.map_values(f)[j] == range_of(c));
                                assert(before.map_values(f).contains(t.map_values(f)[j]));
                            }
                        }
                    }
                }
            }
        }
    }
}

proof fn lemma_not_there(s: Seq<MergeView>, c: MergeView)
    requires
        merger::range_at(s, c) == s.len(),
    ensures
        forall|k: int| 0 <= k < s.len() ==> range_of(#[trigger] s[k]) != range_of(c),
    decreases s.len(),
{
    if s.len() > 0 {
        let rest = s.drop_first();
        merger_laws::lemma_range_at(rest, c);
        lemma_not_there(rest, c);
        assert forall|k: int| 0 <= k < s.len() implies range_of(#[trigger] s[k]) != range_of(
            c,
        ) by {
            if k > 0 {
                assert(s[k] == rest[k - 1]);
            }
        }
    }
}

/// In a list of different ranges the same range is the same place.
proof fn lemma_same_place(d: Seq<MergeView>, t: Seq<MergeView>, k: int, at: int)
    requires
        lists::are_firsts(
            d.map_values(|c: MergeView| range_of(c)),
            t.map_values(|c: MergeView| range_of(c)),
        ),
        0 <= k < d.len(),
        0 <= at < d.len(),
    ensures
        range_of(d[k]) == range_of(d[at]) ==> k == at,
{
    let f = |c: MergeView| range_of(c);
    assert(d.map_values(f)[k] == range_of(d[k]));
    assert(d.map_values(f)[at] == range_of(d[at]));
}

}
