//! The places of a syntax tree: every node with the nodes that stand around it.
use vstd::prelude::*;

use crate::parsing::syntax::SyntaxView;

verus! {

/// A node and the nodes that it stands in, the outermost first.
pub struct Place {
    pub above: Seq<SyntaxView>,
    pub node: SyntaxView,
}

/// A node and everything below it, in the order of the source.
pub open spec fn places_at(node: SyntaxView, above: Seq<SyntaxView>) -> Seq<Place>
    decreases node, 0int,
{
    seq![Place { above, node }] + places_in(node.children, above.push(node))
}

/// The same of several nodes.
pub open spec fn places_in(nodes: Seq<SyntaxView>, above: Seq<SyntaxView>) -> Seq<Place>
    decreases nodes, 1int,
{
    if nodes.len() == 0 {
        Seq::empty()
    } else {
        places_in(nodes.drop_last(), above) + places_at(nodes.last(), above)
    }
}

/// All places of a tree.
pub open spec fn places_of(root: SyntaxView) -> Seq<Place> {
    places_at(root, Seq::empty())
}

proof fn lemma_places_hold_node(nodes: Seq<SyntaxView>, above: Seq<SyntaxView>, k: int)
    requires
        0 <= k < nodes.len(),
    ensures
        places_in(nodes, above).contains(Place { above, node: nodes[k] }),
    decreases nodes.len(),
{
    let all = places_in(nodes, above);
    let before = places_in(nodes.drop_last(), above);
    let p = Place { above, node: nodes[k] };
    if k == nodes.len() - 1 {
        assert(places_at(nodes.last(), above)[0] == p);
        assert(all[before.len() as int] == p);
    } else {
        lemma_places_hold_node(nodes.drop_last(), above, k);
        let i = choose|i: int| 0 <= i < before.len() && before[i] == p;
        assert(all[i] == p);
    }
}

proof fn lemma_places_at_closed(node: SyntaxView, above: Seq<SyntaxView>, p: Place, k: int)
    requires
        places_at(node, above).contains(p),
        0 <= k < p.node.children.len(),
    ensures
        places_at(node, above).contains(
            (Place { above: p.above.push(p.node), node: p.node.children[k] }),
        ),
    decreases node, 0int,
{
    let all = places_at(node, above);
    let below = places_in(node.children, above.push(node));
    let q = Place { above: p.above.push(p.node), node: p.node.children[k] };
    let i = choose|i: int| 0 <= i < all.len() && all[i] == p;
    if i == 0 {
        lemma_places_hold_node(node.children, above.push(node), k);
    } else {
        assert(below[i - 1] == p);
        assert(below.contains(p));
        lemma_places_in_closed(node.children, above.push(node), p, k);
    }
    let j = choose|j: int| 0 <= j < below.len() && below[j] == q;
    assert(all[j + 1] == q);
}

proof fn lemma_places_in_closed(nodes: Seq<SyntaxView>, above: Seq<SyntaxView>, p: Place, k: int)
    requires
        places_in(nodes, above).contains(p),
        0 <= k < p.node.children.len(),
    ensures
        places_in(nodes, above).contains(
            (Place { above: p.above.push(p.node), node: p.node.children[k] }),
        ),
    decreases nodes, 1int,
{
    let all = places_in(nodes, above);
    let before = places_in(nodes.drop_last(), above);
    let last = places_at(nodes.last(), above);
    let q = Place { above: p.above.push(p.node), node: p.node.children[k] };
    let i = choose|i: int| 0 <= i < all.len() && all[i] == p;
    if i < before.len() {
        assert(before[i] == p);
        assert(before.contains(p));
        lemma_places_in_closed(nodes.drop_last(), above, p, k);
        let j = choose|j: int| 0 <= j < before.len() && before[j] == q;
        assert(all[j] == q);
    } else {
        assert(last[i - before.len()] == p);
        assert(last.contains(p));
        lemma_places_at_closed(nodes.last(), above, p, k);
        let j = choose|j: int| 0 <= j < last.len() && last[j] == q;
        assert(all[before.len() + j] == q);
    }
}

/// No node of a tree is left out: the root is a place of it, and with every node
/// each of its children.
pub proof fn law_every_node_is_a_place(root: SyntaxView, p: Place, k: int)
    ensures
        places_of(root).contains((Place { above: Seq::empty(), node: root })),
        places_of(root).contains(p) && 0 <= k < p.node.children.len() ==> places_of(
            root,
        ).contains((Place { above: p.above.push(p.node), node: p.node.children[k] })),
{
    assert(places_of(root)[0] == (Place { above: Seq::empty(), node: root }));
    if places_of(root).contains(p) && 0 <= k < p.node.children.len() {
        lemma_places_at_closed(root, Seq::empty(), p, k);
    }
}

/// Each place follows directly on those before it: a node comes before what is
/// below it, and what is below it before its next sibling.
pub proof fn law_places_are_in_order(node: SyntaxView, above: Seq<SyntaxView>, k: int)
    requires
        0 <= k <= node.children.len(),
    ensures
        places_in(node.children.take(k), above.push(node)).is_prefix_of(
            places_at(node, above).skip(1),
        ),
    decreases node.children.len() - k,
{
    let all = places_in(node.children, above.push(node));
    let part = places_in(node.children.take(k), above.push(node));
    assert(places_at(node, above).skip(1) =~= all);
    if k == node.children.len() {
        assert(node.children.take(k) =~= node.children);
        assert(part =~= all.subrange(0, part.len() as int));
    } else {
        law_places_are_in_order(node, above, k + 1);
        let longer = node.children.take(k + 1);
        assert(longer.drop_last() =~= node.children.take(k));
        let next = places_in(longer, above.push(node));
        assert(part =~= next.subrange(0, part.len() as int));
        assert(part =~= all.subrange(0, part.len() as int)) by {
            assert forall|i: int| 0 <= i < part.len() implies part[i] == all[i] by {
                assert(next[i] == all.subrange(0, next.len() as int)[i]);
            }
        }
    }
}

}
