//! What lists have in common.
use vstd::prelude::*;

verus! {

/// The first occurrence of the one comes before any of the other.
pub open spec fn precedes<A>(all: Seq<A>, x: A, y: A) -> bool {
    exists|p: int|
        0 <= p < all.len() && #[trigger] all[p] == x && forall|q: int|
            0 <= q <= p ==> #[trigger] all[q] != y
}

/// The first list has each element of the second once, in the order in which they
/// first occur.
pub open spec fn are_firsts<A>(a: Seq<A>, all: Seq<A>) -> bool {
    &&& a.no_duplicates()
    &&& forall|i: int| 0 <= i < a.len() ==> all.contains(#[trigger] a[i])
    &&& forall|i: int| 0 <= i < all.len() ==> a.contains(#[trigger] all[i])
    &&& forall|i: int, j: int|
        0 <= i < j < a.len() ==> precedes(all, #[trigger] a[i], #[trigger] a[j])
}

proof fn lemma_precedes_push<A>(all: Seq<A>, x: A, y: A, z: A)
    requires
        precedes(all, x, y),
    ensures
        precedes(all.push(z), x, y),
{
    let more = all.push(z);
    let p = choose|p: int|
        0 <= p < all.len() && #[trigger] all[p] == x && forall|q: int|
            0 <= q <= p ==> #[trigger] all[q] != y;
    assert(more[p] == x);
    assert forall|q: int| 0 <= q <= p implies #[trigger] more[q] != y by {
        assert(more[q] == all[q]);
    }
}

pub proof fn lemma_firsts_push<A>(a: Seq<A>, all: Seq<A>, x: A)
    requires
        are_firsts(a, all),
    ensures
        a.contains(x) ==> are_firsts(a, all.push(x)),
        !a.contains(x) ==> are_firsts(a.push(x), all.push(x)),
{
    let more = all.push(x);
    let b = if a.contains(x) {
        a
    } else {
        a.push(x)
    };
    assert forall|i: int| 0 <= i < b.len() implies more.contains(#[trigger] b[i]) by {
        if i < a.len() {
            assert(b[i] == a[i]);
            let k = choose|k: int| 0 <= k < all.len() && all[k] == a[i];
            assert(more[k] == b[i]);
        } else {
            assert(more[all.len() as int] == x);
        }
    }
    assert forall|i: int| 0 <= i < more.len() implies b.contains(#[trigger] more[i]) by {
        if i < all.len() {
            assert(more[i] == all[i]);
            let k = choose|k: int| 0 <= k < a.len() && a[k] == all[i];
            assert(b[k] == more[i]);
        } else if !a.contains(x) {
            assert(b[a.len() as int] == x);
        }
    }
    assert forall|i: int, j: int| 0 <= i < j < b.len() implies precedes(
        more,
        #[trigger] b[i],
        #[trigger] b[j],
    ) by {
        assert(b[i] == a[i]);
        if j < a.len() {
            assert(b[j] == a[j]);
            lemma_precedes_push(all, a[i], a[j], x);
        } else {
            let k = choose|k: int| 0 <= k < all.len() && all[k] == a[i];
            assert(more[k] == a[i]);
            assert forall|q: int| 0 <= q <= k implies #[trigger] more[q] != x by {
                assert(more[q] == all[q]);
                if all[q] == x {
                    assert(a.contains(all[q]));
                }
            }
        }
    }
}

}
