//! The line ranges that a ranking selects from a chunk.
use vstd::prelude::*;

use crate::query::json::Json;

verus! {

/// Padding added on each side of an LLM-selected range before clamping to the
/// chunk bounds — absorbs off-by-a-line selections.
pub const RANGE_PAD: u32 = 2;

/// A range as it is written in JSON: an array of two numbers, of which the
/// first is not greater.
pub open spec fn pair_of(json: crate::query::json::JsonView) -> Option<(u64, u64)> {
    match json {
        crate::query::json::JsonView::Array(items) => if items.len() == 2 {
            match (items[0], items[1]) {
                (
                    crate::query::json::JsonView::Unsigned(s),
                    crate::query::json::JsonView::Unsigned(e),
                ) => if s <= e {
                    Some((s, e))
                } else {
                    None
                },
                _ => None,
            }
        } else {
            None
        },
        _ => None,
    }
}

fn read_pair(json: &Json) -> (r: Option<(u64, u64)>)
    ensures
        r == pair_of(json.view()),
{
    proof {
        crate::query::json::lemma_view(*json);
    }
    if let Json::Array(items) = json {
        assert(json.view() == crate::query::json::JsonView::Array(
            crate::query::json::json_views(items@),
        ));
        if items.len() == 2 {
            if let (Json::Unsigned(s), Json::Unsigned(e)) = (&items[0], &items[1]) {
                if *s <= *e {
                    return Some((*s, *e));
                }
            }
        }
    }
    None
}

/// A range with the padding, clamped to the bounds of the chunk, where anything
/// of it lies there.
pub open spec fn clamped(p: (u64, u64), chunk_start: u32, chunk_end: u32) -> Option<(u32, u32)> {
    let s = if p.0 >= chunk_start + RANGE_PAD {
        p.0 - RANGE_PAD
    } else {
        chunk_start as int
    };
    let e = if p.1 + RANGE_PAD <= chunk_end {
        p.1 + RANGE_PAD
    } else {
        chunk_end as int
    };
    if s <= e {
        Some((s as u32, e as u32))
    } else {
        None
    }
}

fn clamp(p: (u64, u64), chunk_start: u32, chunk_end: u32) -> (r: Option<(u32, u32)>)
    ensures
        r == clamped(p, chunk_start, chunk_end),
{
    let (start, end): (u64, u64) = (chunk_start as u64, chunk_end as u64);
    let padded_start: u64 = p.0.saturating_sub(RANGE_PAD as u64);
    let padded_end: u64 = p.1.saturating_add(RANGE_PAD as u64);
    let s: u64 = if padded_start >= start {
        padded_start
    } else {
        start
    };
    let e: u64 = if padded_end <= end {
        padded_end
    } else {
        end
    };
    if s > e {
        None
    } else {
        Some((s as u32, e as u32))
    }
}

/// The ranges that a list selects, in its order.
pub open spec fn ranges_in(
    list: Seq<crate::query::json::JsonView>,
    chunk_start: u32,
    chunk_end: u32,
) -> Seq<(u32, u32)>
    decreases list.len(),
{
    if list.len() == 0 {
        Seq::empty()
    } else {
        let before = ranges_in(list.drop_last(), chunk_start, chunk_end);
        match pair_of(list.last()) {
            Some(p) => match clamped(p, chunk_start, chunk_end) {
                Some(r) => before.push(r),
                None => before,
            },
            None => before,
        }
    }
}

fn read_ranges(list: &Vec<Json>, chunk_start: u32, chunk_end: u32) -> (r: Vec<(u32, u32)>)
    ensures
        r@ == ranges_in(crate::query::json::json_views(list@), chunk_start, chunk_end),
{
    let ghost all = crate::query::json::json_views(list@);
    let mut out: Vec<(u32, u32)> = Vec::new();
    let mut i: usize = 0;
    assert(all.take(0) =~= Seq::empty());
    while i < list.len()
        invariant
            all == crate::query::json::json_views(list@),
            i <= list@.len(),
            out@ == ranges_in(all.take(i as int), chunk_start, chunk_end),
        decreases list@.len() - i,
    {
        assert(all.take(i + 1).drop_last() =~= all.take(i as int));
        assert(all.take(i + 1).last() == list@[i as int].view());
        if let Some(p) = read_pair(&list[i]) {
            if let Some(r) = clamp(p, chunk_start, chunk_end) {
                out.push(r);
            }
        }
        i = i + 1;
    }
    assert(all.take(i as int) =~= all);
    out
}

/// A list in order of the first lines with one more range in its place.
pub open spec fn range_inserted(s: Seq<(u32, u32)>, r: (u32, u32)) -> Seq<(u32, u32)>
    decreases s.len(),
{
    if s.len() == 0 || s.last().0 <= r.0 {
        s.push(r)
    } else {
        range_inserted(s.drop_last(), r).push(s.last())
    }
}

/// The ranges in order of their first lines.
pub open spec fn ranges_sorted(s: Seq<(u32, u32)>) -> Seq<(u32, u32)>
    decreases s.len(),
{
    if s.len() == 0 {
        Seq::empty()
    } else {
        range_inserted(ranges_sorted(s.drop_last()), s.last())
    }
}

/// The ranges, each joined to the one before it where no line lies between.
pub open spec fn ranges_merged(s: Seq<(u32, u32)>) -> Seq<(u32, u32)>
    decreases s.len(),
{
    if s.len() == 0 {
        Seq::empty()
    } else {
        let before = ranges_merged(s.drop_last());
        let r = s.last();
        if before.len() > 0 && r.0 <= before.last().1 + 1 {
            before.drop_last().push(
                (
                    before.last().0,
                    if before.last().1 >= r.1 {
                        before.last().1
                    } else {
                        r.1
                    },
                ),
            )
        } else {
            before.push(r)
        }
    }
}

proof fn lemma_range_inserted_at(s: Seq<(u32, u32)>, r: (u32, u32), k: int)
    requires
        0 <= k <= s.len(),
        forall|j: int| k <= j < s.len() ==> (#[trigger] s[j]).0 > r.0,
        k > 0 ==> s[k - 1].0 <= r.0,
    ensures
        range_inserted(s, r) == s.take(k).push(r) + s.skip(k),
    decreases s.len(),
{
    if k == s.len() {
        assert(s.take(k).push(r) + s.skip(k) =~= s.push(r));
    } else {
        let t = s.drop_last();
        assert forall|j: int| k <= j < t.len() implies (#[trigger] t[j]).0 > r.0 by {
            assert(t[j] == s[j]);
        }
        lemma_range_inserted_at(t, r, k);
        assert((t.take(k).push(r) + t.skip(k)).push(s.last()) =~= s.take(k).push(r) + s.skip(k));
    }
}

fn sort_ranges(v: &Vec<(u32, u32)>) -> (r: Vec<(u32, u32)>)
    ensures
        r@ == ranges_sorted(v@),
{
    let mut out: Vec<(u32, u32)> = Vec::new();
    let mut i: usize = 0;
    assert(v@.take(0) =~= Seq::empty());
    while i < v.len()
        invariant
            i <= v@.len(),
            out@ == ranges_sorted(v@.take(i as int)),
        decreases v@.len() - i,
    {
        assert(v@.take(i + 1).drop_last() =~= v@.take(i as int));
        let own = v[i];
        let mut k: usize = out.len();
        while k > 0 && out[k - 1].0 > own.0
            invariant
                k <= out@.len(),
                forall|j: int| k <= j < out@.len() ==> (#[trigger] out@[j]).0 > own.0,
            decreases k,
        {
            k = k - 1;
        }
        proof {
            lemma_range_inserted_at(out@, own, k as int);
        }
        let ghost before = out@;
        out.insert(k, own);
        assert(out@ =~= before.take(k as int).push(own) + before.skip(k as int));
        i = i + 1;
    }
    assert(v@.take(i as int) =~= v@);
    out
}

fn merge_ranges(v: &Vec<(u32, u32)>) -> (r: Vec<(u32, u32)>)
    ensures
        r@ == ranges_merged(v@),
{
    let mut out: Vec<(u32, u32)> = Vec::new();
    let mut i: usize = 0;
    assert(v@.take(0) =~= Seq::empty());
    while i < v.len()
        invariant
            i <= v@.len(),
            out@ == ranges_merged(v@.take(i as int)),
        decreases v@.len() - i,
    {
        assert(v@.take(i + 1).drop_last() =~= v@.take(i as int));
        let (s, e) = v[i];
        let n: usize = out.len();
        let ghost before = out@;
        if n > 0 && s as u64 <= out[n - 1].1 as u64 + 1 {
            let last = out[n - 1];
            let both = (
                last.0,
                if last.1 >= e {
                    last.1
                } else {
                    e
                },
            );
            out.set(n - 1, both);
            assert(out@ =~= before.drop_last().push(both));
        } else {
            out.push((s, e));
        }
        i = i + 1;
    }
    assert(v@.take(i as int) =~= v@);
    out
}

/// What a list of ranges selects from a chunk; nothing where none is usable.
pub open spec fn sanitized(
    list: Seq<crate::query::json::JsonView>,
    chunk_start: u32,
    chunk_end: u32,
) -> Option<Seq<(u32, u32)>> {
    let ranges = ranges_in(list, chunk_start, chunk_end);
    if ranges.len() == 0 {
        None
    } else {
        Some(ranges_merged(ranges_sorted(ranges)))
    }
}

pub open spec fn opt_ranges(r: Option<Vec<(u32, u32)>>) -> Option<Seq<(u32, u32)>> {
    match r {
        Some(v) => Some(v@),
        None => None,
    }
}

/// Validate and normalize the LLM's `lines` array for one chunk:
/// - parse each [start, end] pair (skip malformed / start>end),
/// - pad by RANGE_PAD and clamp to [chunk_start, chunk_end],
/// - sort by start and merge overlapping/adjacent ranges (gap <= 1).
///
/// Returns `None` if no valid range survives (caller keeps the whole chunk).
pub fn sanitize_ranges(
    arr: &Vec<Json>,
    chunk_start: u32,
    chunk_end: u32,
) -> (r: Option<Vec<(u32, u32)>>)
    ensures
        opt_ranges(r) == sanitized(
            crate::query::json::json_views(arr@),
            chunk_start,
            chunk_end,
        ),
{
    let ranges = read_ranges(arr, chunk_start, chunk_end);
    if ranges.len() == 0 {
        return None;
    }
    Some(merge_ranges(&sort_ranges(&ranges)))
}

// ─── The laws ───

pub open spec fn holds_line(r: (u32, u32), line: int) -> bool {
    r.0 <= line <= r.1
}

/// Some range of the list holds the line.
pub open spec fn selects(s: Seq<(u32, u32)>, line: int) -> bool {
    exists|i: int| 0 <= i < s.len() && holds_line(#[trigger] s[i], line)
}

/// The ranges are in order, and between any two of them lies a line that none
/// holds.
pub open spec fn separated(s: Seq<(u32, u32)>) -> bool {
    forall|i: int, j: int|
        0 <= i < j < s.len() ==> (#[trigger] s[i]).1 + 1 < (#[trigger] s[j]).0
}

pub open spec fn all_in(s: Seq<(u32, u32)>, start: u32, end: u32) -> bool {
    forall|i: int| 0 <= i < s.len() ==> start <= (#[trigger] s[i]).0 <= s[i].1 <= end
}

spec fn starts_ascend(s: Seq<(u32, u32)>) -> bool {
    forall|i: int, j: int| 0 <= i < j < s.len() ==> (#[trigger] s[i]).0 <= (#[trigger] s[j]).0
}

proof fn lemma_selects_push(s: Seq<(u32, u32)>, r: (u32, u32), line: int)
    ensures
        selects(s.push(r), line) <==> selects(s, line) || holds_line(r, line),
{
    let t = s.push(r);
    if selects(s, line) {
        let i = choose|i: int| 0 <= i < s.len() && holds_line(#[trigger] s[i], line);
        assert(holds_line(t[i], line));
    }
    if holds_line(r, line) {
        assert(holds_line(t[s.len() as int], line));
    }
    if selects(t, line) {
        let i = choose|i: int| 0 <= i < t.len() && holds_line(#[trigger] t[i], line);
        if i < s.len() {
            assert(holds_line(s[i], line));
        }
    }
}

proof fn lemma_range_inserted(s: Seq<(u32, u32)>, r: (u32, u32), start: u32, end: u32, line: int)
    requires
        starts_ascend(s),
        all_in(s, start, end),
        start <= r.0 <= r.1 <= end,
    ensures
        starts_ascend(range_inserted(s, r)),
        all_in(range_inserted(s, r), start, end),
        selects(range_inserted(s, r), line) <==> selects(s, line) || holds_line(r, line),
        range_inserted(s, r).len() == s.len() + 1,
        forall|i: int|
            0 <= i < range_inserted(s, r).len() ==> (#[trigger] range_inserted(s, r)[i]).0
                <= r.0 || (s.len() > 0 && range_inserted(s, r)[i].0 <= s.last().0),
    decreases s.len(),
{
    if s.len() == 0 || s.last().0 <= r.0 {
        lemma_selects_push(s, r, line);
        assert forall|i: int| 0 <= i < s.len() implies (#[trigger] s[i]).0 <= r.0 by {
            assert(s[s.len() - 1] == s.last());
        }
    } else {
        let t = s.drop_last();
        assert forall|i: int| 0 <= i < t.len() implies #[trigger] t[i] == s[i] && t[i].0
            <= s.last().0 by {
            assert(s[s.len() - 1] == s.last());
        }
        lemma_range_inserted(t, r, start, end, line);
        let u = range_inserted(t, r);
        lemma_selects_push(u, s.last(), line);
        assert(t.push(s.last()) =~= s);
        lemma_selects_push(t, s.last(), line);
        assert(s[s.len() - 1] == s.last());
        assert forall|i: int| 0 <= i < u.len() implies (#[trigger] u[i]).0 <= s.last().0 by {
            if t.len() > 0 {
                assert(t[t.len() - 1] == t.last());
            }
        }
    }
}

proof fn lemma_ranges_sorted(s: Seq<(u32, u32)>, start: u32, end: u32, line: int)
    requires
        all_in(s, start, end),
    ensures
        starts_ascend(ranges_sorted(s)),
        all_in(ranges_sorted(s), start, end),
        selects(ranges_sorted(s), line) <==> selects(s, line),
        ranges_sorted(s).len() == s.len(),
    decreases s.len(),
{
    if s.len() > 0 {
        let t = s.drop_last();
        assert forall|i: int| 0 <= i < t.len() implies #[trigger] t[i] == s[i] by {}
        assert(s[s.len() - 1] == s.last());
        lemma_ranges_sorted(t, start, end, line);
        lemma_range_inserted(ranges_sorted(t), s.last(), start, end, line);
        assert(t.push(s.last()) =~= s);
        lemma_selects_push(t, s.last(), line);
    }
}

proof fn lemma_ranges_merged(s: Seq<(u32, u32)>, start: u32, end: u32, line: int)
    requires
        starts_ascend(s),
        all_in(s, start, end),
    ensures
        separated(ranges_merged(s)),
        all_in(ranges_merged(s), start, end),
        selects(ranges_merged(s), line) <==> selects(s, line),
        s.len() > 0 ==> ranges_merged(s).len() > 0 && ranges_merged(s).last().0 <= s.last().0,
    decreases s.len(),
{
    if s.len() > 0 {
        let t = s.drop_last();
        let r = s.last();
        let before = ranges_merged(t);
        let m = ranges_merged(s);
        assert forall|i: int| 0 <= i < t.len() implies #[trigger] t[i] == s[i] by {}
        assert(s[s.len() - 1] == r);
        lemma_ranges_merged(t, start, end, line);
        assert(t.push(r) =~= s);
        lemma_selects_push(t, r, line);
        if before.len() > 0 && r.0 <= before.last().1 + 1 {
            let a = before.last();
            let rest = before.drop_last();
            assert(before[before.len() - 1] == a);
            assert(rest.push(a) =~= before);
            assert(m =~= rest.push(m.last()));
            lemma_selects_push(rest, a, line);
            lemma_selects_push(rest, m.last(), line);
            assert(t[t.len() - 1] == t.last());
            assert(a.0 <= r.0);
            assert(holds_line(m.last(), line) <==> holds_line(a, line) || holds_line(r, line));
            assert forall|i: int, j: int| 0 <= i < j < m.len() implies (#[trigger] m[i]).1 + 1 < (
            #[trigger] m[j]).0 by {
                assert(m[i] == before[i]);
                assert(m[j].0 == before[j].0);
                assert(before[i].1 + 1 < before[j].0);
            }
        } else {
            lemma_selects_push(before, r, line);
            assert forall|i: int, j: int| 0 <= i < j < m.len() implies (#[trigger] m[i]).1 + 1 < (
            #[trigger] m[j]).0 by {
                assert(m[i] == before[i]);
                if j < before.len() {
                    assert(m[j] == before[j]);
                } else {
                    assert(before[before.len() - 1] == before.last());
                    if i < before.len() - 1 {
                        assert(before[i].1 + 1 < before[before.len() - 1].0);
                    }
                }
            }
        }
    }
}

proof fn lemma_ranges_in(
    list: Seq<crate::query::json::JsonView>,
    chunk_start: u32,
    chunk_end: u32,
)
    ensures
        all_in(ranges_in(list, chunk_start, chunk_end), chunk_start, chunk_end),
    decreases list.len(),
{
    if list.len() > 0 {
        lemma_ranges_in(list.drop_last(), chunk_start, chunk_end);
    }
}

/// A selection lies inside the chunk, is in order, and has no two ranges that
/// touch or overlap; it is never empty.
pub proof fn law_selection_is_normal(
    list: Seq<crate::query::json::JsonView>,
    chunk_start: u32,
    chunk_end: u32,
)
    ensures
        sanitized(list, chunk_start, chunk_end) matches Some(r) ==> {
            &&& r.len() > 0
            &&& separated(r)
            &&& all_in(r, chunk_start, chunk_end)
        },
{
    let ranges = ranges_in(list, chunk_start, chunk_end);
    lemma_ranges_in(list, chunk_start, chunk_end);
    lemma_ranges_sorted(ranges, chunk_start, chunk_end, 0);
    lemma_ranges_merged(ranges_sorted(ranges), chunk_start, chunk_end, 0);
}

/// A selection holds exactly the lines of the padded and clamped ranges.
pub proof fn law_selection_holds_the_ranges(
    list: Seq<crate::query::json::JsonView>,
    chunk_start: u32,
    chunk_end: u32,
    line: int,
)
    ensures
        sanitized(list, chunk_start, chunk_end) matches Some(r) ==> (selects(r, line) <==> selects(
            ranges_in(list, chunk_start, chunk_end),
            line,
        )),
{
    let ranges = ranges_in(list, chunk_start, chunk_end);
    lemma_ranges_in(list, chunk_start, chunk_end);
    lemma_ranges_sorted(ranges, chunk_start, chunk_end, line);
    lemma_ranges_merged(ranges_sorted(ranges), chunk_start, chunk_end, line);
}

/// Every line of the chunk that a well-formed pair asks for is selected.
pub proof fn law_asked_lines_are_selected(
    list: Seq<crate::query::json::JsonView>,
    chunk_start: u32,
    chunk_end: u32,
    i: int,
    line: int,
)
    requires
        0 <= i < list.len(),
        pair_of(list[i]) is Some,
        (pair_of(list[i])->0).0 <= line <= (pair_of(list[i])->0).1,
        chunk_start <= line <= chunk_end,
    ensures
        sanitized(list, chunk_start, chunk_end) matches Some(r) && selects(r, line),
{
    lemma_asked_in_ranges(list, chunk_start, chunk_end, i, line);
    law_selection_holds_the_ranges(list, chunk_start, chunk_end, line);
}

proof fn lemma_asked_in_ranges(
    list: Seq<crate::query::json::JsonView>,
    chunk_start: u32,
    chunk_end: u32,
    i: int,
    line: int,
)
    requires
        0 <= i < list.len(),
        pair_of(list[i]) is Some,
        (pair_of(list[i])->0).0 <= line <= (pair_of(list[i])->0).1,
        chunk_start <= line <= chunk_end,
    ensures
        selects(ranges_in(list, chunk_start, chunk_end), line),
    decreases list.len(),
{
    let before = ranges_in(list.drop_last(), chunk_start, chunk_end);
    if i < list.len() - 1 {
        lemma_asked_in_ranges(list.drop_last(), chunk_start, chunk_end, i, line);
        match pair_of(list.last()) {
            Some(p) => match clamped(p, chunk_start, chunk_end) {
                Some(r) => {
                    lemma_selects_push(before, r, line);
                },
                None => {},
            },
            None => {},
        }
    } else {
        let r = clamped(pair_of(list[i])->0, chunk_start, chunk_end)->0;
        lemma_selects_push(before, r, line);
    }
}

}
