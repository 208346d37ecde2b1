//! Finding the symbols that edges point to.
use vstd::hash_map::StringHashMap;
use vstd::prelude::*;

use crate::parsing::relations::{EdgeKind, EdgeTarget, RawEdge};
use crate::parsing::symbols::{QualifiedSymbol, Symbol};
use crate::text::same_text;

verus! {

// ─── Symbol index ───

/// The symbols of the list with the given name, in its order.
pub open spec fn named(
    all: Seq<crate::parsing::symbols::QualifiedView>,
    name: Seq<char>,
) -> Seq<crate::parsing::symbols::QualifiedView>
    decreases all.len(),
{
    if all.len() == 0 {
        Seq::empty()
    } else if all.last().name == name {
        named(all.drop_last(), name).push(all.last())
    } else {
        named(all.drop_last(), name)
    }
}

/// Symbols by their names.
pub struct SymbolIndex {
    slots: StringHashMap<usize>,
    groups: Vec<Vec<QualifiedSymbol>>,
    all: Ghost<Seq<crate::parsing::symbols::QualifiedView>>,
}

impl View for SymbolIndex {
    type V = Seq<crate::parsing::symbols::QualifiedView>;

    /// All symbols, in the order in which they were added.
    closed spec fn view(&self) -> Seq<crate::parsing::symbols::QualifiedView> {
        self.all@
    }
}

impl SymbolIndex {
    /// Each name that occurs has a group of its own, which holds the symbols of
    /// that name.
    pub closed spec fn wf(&self) -> bool {
        &&& forall|name: Seq<char>| #[trigger]
            self.slots@.dom().contains(name) ==> {
                &&& self.slots@[name] < self.groups@.len()
                &&& crate::parsing::symbols::qualified_views(self.groups@[self.slots@[name] as int]@)
                    == named(self.all@, name)
                &&& named(self.all@, name).len() > 0
            }
        &&& forall|name: Seq<char>|
            !(#[trigger] self.slots@.dom().contains(name)) ==> named(self.all@, name).len() == 0
        &&& forall|a: Seq<char>, b: Seq<char>|
            #[trigger] self.slots@.dom().contains(a) && #[trigger] self.slots@.dom().contains(b)
                && self.slots@[a] == self.slots@[b] ==> a == b
    }

    pub fn new() -> (r: SymbolIndex)
        ensures
            r.wf(),
            r@ == Seq::<crate::parsing::symbols::QualifiedView>::empty(),
    {
        SymbolIndex { slots: StringHashMap::new(), groups: Vec::new(), all: Ghost(Seq::empty()) }
    }

    /// Adds a symbol behind those of the same name.
    pub fn add(&mut self, symbol: QualifiedSymbol)
        requires
            old(self).wf(),
        ensures
            final(self).wf(),
            final(self)@ == old(self)@.push(symbol@),
    {
        let ghost before = *self;
        let ghost added = symbol@;
        let name = symbol.name.clone();
        let found: Option<usize> = match self.slots.get(name.as_str()) {
            Some(slot) => Some(*slot),
            None => None,
        };
        match found {
            Some(slot) => {
                let mut group: Vec<QualifiedSymbol> = Vec::new();
                std::mem::swap(&mut self.groups[slot], &mut group);
                group.push(symbol);
                assert(crate::parsing::symbols::qualified_views(group@)
                    =~= crate::parsing::symbols::qualified_views(
                    before.groups@[slot as int]@,
                ).push(added));
                self.groups.set(slot, group);
            },
            None => {
                let slot: usize = self.groups.len();
                let mut group: Vec<QualifiedSymbol> = Vec::new();
                group.push(symbol);
                self.groups.push(group);
                self.slots.insert(name, slot);
                assert(crate::parsing::symbols::qualified_views(group@) =~= Seq::<
                    crate::parsing::symbols::QualifiedView,
                >::empty().push(added));
                assert(named(before.all@, added.name) =~= Seq::empty());
            },
        }
        self.all = Ghost(before.all@.push(added));
        proof {
            assert(self.all@.drop_last() =~= before.all@);
            assert forall|other: Seq<char>| other != added.name implies #[trigger] named(
                self.all@,
                other,
            ) == named(before.all@, other) by {}
            assert(named(self.all@, added.name) == named(before.all@, added.name).push(added));
            assert forall|other: Seq<char>| #[trigger]
                self.slots@.dom().contains(other) implies self.slots@[other] < self.groups@.len()
                && crate::parsing::symbols::qualified_views(
                self.groups@[self.slots@[other] as int]@,
            ) == named(self.all@, other) && named(self.all@, other).len() > 0 by {
                if other != added.name {
                    assert(before.slots@.dom().contains(other));
                    assert(named(self.all@, other) == named(before.all@, other));
                }
            }
            assert forall|other: Seq<char>|
                !(#[trigger] self.slots@.dom().contains(other)) implies named(
                self.all@,
                other,
            ).len() == 0 by {
                assert(!before.slots@.dom().contains(other));
                assert(named(self.all@, other) == named(before.all@, other));
            }
            assert forall|a: Seq<char>, b: Seq<char>|
                #[trigger] self.slots@.dom().contains(a) && #[trigger] self.slots@.dom().contains(
                    b,
                ) && self.slots@[a] == self.slots@[b] implies a == b by {
                if before.slots@.dom().contains(a) && before.slots@.dom().contains(b) {
                    assert(before.slots@[a] == before.slots@[b]);
                } else if before.slots@.dom().contains(a) {
                    assert(before.slots@[a] < before.groups@.len());
                } else if before.slots@.dom().contains(b) {
                    assert(before.slots@[b] < before.groups@.len());
                }
            }
        }
    }

    /// The symbols with the given name, in the order in which they were added;
    /// nothing where there is none.
    pub fn get(&self, name: &str) -> (r: Option<&Vec<QualifiedSymbol>>)
        requires
            self.wf(),
        ensures
            match r {
                Some(group) => {
                    &&& group@.len() > 0
                    &&& crate::parsing::symbols::qualified_views(group@) == named(self@, name@)
                },
                None => named(self@, name@).len() == 0,
            },
    {
        match self.slots.get(name) {
            Some(slot) => {
                assert(self.slots@.dom().contains(name@));
                Some(&self.groups[*slot])
            },
            None => None,
        }
    }
}

/// The qualified names of symbols.
pub open spec fn qualified_of(
    symbols: Seq<crate::parsing::symbols::SymbolView>,
) -> Seq<crate::parsing::symbols::QualifiedView> {
    Seq::new(symbols.len(), |i: int| symbols[i].qualified)
}

/// Indexes symbols by their names.
pub fn build_symbol_index(symbols: &Vec<Symbol>) -> (r: SymbolIndex)
    ensures
        r.wf(),
        r@ == qualified_of(crate::parsing::symbols::symbol_views(symbols@)),
{
    let ghost all = qualified_of(crate::parsing::symbols::symbol_views(symbols@));
    let mut index = SymbolIndex::new();
    let mut i: usize = 0;
    assert(all.take(0) =~= Seq::empty());
    while i < symbols.len()
        invariant
            all == qualified_of(crate::parsing::symbols::symbol_views(symbols@)),
            i <= symbols@.len(),
            index.wf(),
            index@ == all.take(i as int),
        decreases symbols@.len() - i,
    {
        index.add(symbols[i].qualified.clone());
        assert(all.take(i + 1) =~= all.take(i as int).push(all[i as int]));
        i = i + 1;
    }
    assert(all.take(i as int) =~= all);
    index
}

/// A symbol as the store lists it: file and name, without scopes.
pub fn stored_symbol(file: String, name: String) -> (r: QualifiedSymbol)
    ensures
        r@ == (crate::parsing::symbols::QualifiedView {
            file: file@,
            scope_path: Seq::empty(),
            name: name@,
        }),
{
    let r = QualifiedSymbol { file, scope_path: Vec::new(), name };
    assert(r@.scope_path =~= Seq::empty());
    r
}

// ─── Edge resolution ───

/// An edge whose target is known.
#[derive(Debug)]
pub struct ResolvedEdge {
    pub from: QualifiedSymbol,
    pub to: QualifiedSymbol,
    pub kind: EdgeKind,
    pub line: u32,
}

/// What a [`ResolvedEdge`] says.
pub struct ResolvedView {
    pub from: crate::parsing::symbols::QualifiedView,
    pub to: crate::parsing::symbols::QualifiedView,
    pub kind: EdgeKind,
    pub line: u32,
}

impl View for ResolvedEdge {
    type V = ResolvedView;

    open spec fn view(&self) -> ResolvedView {
        ResolvedView { from: self.from@, to: self.to@, kind: self.kind, line: self.line }
    }
}

pub open spec fn resolved_views(v: Seq<ResolvedEdge>) -> Seq<ResolvedView> {
    Seq::new(v.len(), |i: int| v[i]@)
}

/// The first symbol of the list that lies in the given file.
pub open spec fn first_in_file(
    all: Seq<crate::parsing::symbols::QualifiedView>,
    file: Seq<char>,
) -> Option<crate::parsing::symbols::QualifiedView>
    decreases all.len(),
{
    if all.len() == 0 {
        None
    } else if all[0].file == file {
        Some(all[0])
    } else {
        first_in_file(all.drop_first(), file)
    }
}

/// Which of the candidates an edge from the given file points to: one in the
/// same file where there is one, else the first.
pub open spec fn chosen(
    candidates: Seq<crate::parsing::symbols::QualifiedView>,
    file: Seq<char>,
) -> Option<crate::parsing::symbols::QualifiedView> {
    match first_in_file(candidates, file) {
        Some(q) => Some(q),
        None => if candidates.len() > 0 {
            Some(candidates[0])
        } else {
            None
        },
    }
}

/// What an edge points to, among the given symbols. Nothing where no symbol has
/// the name.
pub open spec fn target_of(
    edge: crate::parsing::relations::EdgeView,
    all: Seq<crate::parsing::symbols::QualifiedView>,
) -> Option<crate::parsing::symbols::QualifiedView> {
    match edge.to {
        crate::parsing::relations::TargetView::Resolved(q) => Some(q),
        crate::parsing::relations::TargetView::Unresolved { name, .. } => chosen(
            named(all, name),
            edge.from.file,
        ),
    }
}

/// The edges whose targets are found, in their order.
pub open spec fn resolved(
    edges: Seq<crate::parsing::relations::EdgeView>,
    all: Seq<crate::parsing::symbols::QualifiedView>,
) -> Seq<ResolvedView>
    decreases edges.len(),
{
    if edges.len() == 0 {
        Seq::empty()
    } else {
        let before = resolved(edges.drop_last(), all);
        let edge = edges.last();
        match target_of(edge, all) {
            Some(to) => before.push(
                ResolvedView { from: edge.from, to, kind: edge.kind, line: edge.line },
            ),
            None => before,
        }
    }
}

fn choose_candidate(candidates: &Vec<QualifiedSymbol>, file: &str) -> (r: Option<QualifiedSymbol>)
    ensures
        match r {
            Some(q) => chosen(crate::parsing::symbols::qualified_views(candidates@), file@) == Some(
                q@,
            ),
            None => chosen(crate::parsing::symbols::qualified_views(candidates@), file@) is None,
        },
{
    let ghost all = crate::parsing::symbols::qualified_views(candidates@);
    let mut i: usize = 0;
    assert(all.skip(0) =~= all);
    while i < candidates.len()
        invariant
            all == crate::parsing::symbols::qualified_views(candidates@),
            i <= candidates@.len(),
            first_in_file(all, file@) == first_in_file(all.skip(i as int), file@),
        decreases candidates@.len() - i,
    {
        assert(all.skip(i as int)[0] == candidates@[i as int]@);
        assert(all.skip(i as int).drop_first() =~= all.skip(i + 1));
        if same_text(candidates[i].file.as_str(), file) {
            return Some(candidates[i].clone());
        }
        i = i + 1;
    }
    if candidates.len() > 0 {
        assert(all[0] == candidates@[0]@);
        Some(candidates[0].clone())
    } else {
        None
    }
}

/// Finds the targets of edges. An edge that nothing is found for is dropped.
pub fn resolve_edges(edges: &Vec<RawEdge>, symbol_index: &SymbolIndex) -> (r: Vec<ResolvedEdge>)
    requires
        symbol_index.wf(),
    ensures
        resolved_views(r@) == resolved(
            crate::parsing::relations::edge_views(edges@),
            symbol_index@,
        ),
{
    let ghost all = crate::parsing::relations::edge_views(edges@);
    let mut out: Vec<ResolvedEdge> = Vec::new();
    let mut i: usize = 0;
    assert(all.take(0) =~= Seq::empty());
    assert(resolved_views(out@) =~= Seq::empty());
    while i < edges.len()
        invariant
            symbol_index.wf(),
            all == crate::parsing::relations::edge_views(edges@),
            i <= edges@.len(),
            resolved_views(out@) == resolved(all.take(i as int), symbol_index@),
        decreases edges@.len() - i,
    {
        assert(all.take(i + 1).drop_last() =~= all.take(i as int));
        assert(all.take(i + 1).last() == edges@[i as int]@);
        let edge = &edges[i];
        let target = match &edge.to {
            EdgeTarget::Resolved(q) => Some(q.clone()),
            EdgeTarget::Unresolved { name, .. } => match symbol_index.get(name.as_str()) {
                Some(candidates) => choose_candidate(candidates, edge.from.file.as_str()),
                None => None,
            },
        };
        if let Some(to) = target {
            let ghost before = resolved_views(out@);
            let done = ResolvedEdge {
                from: edge.from.clone(),
                to,
                kind: edge.kind,
                line: edge.line,
            };
            out.push(done);
            assert(resolved_views(out@) =~= before.push(done@));
        }
        i = i + 1;
    }
    assert(all.take(i as int) =~= all);
    out
}

// ─── The laws ───

proof fn lemma_named(
    all: Seq<crate::parsing::symbols::QualifiedView>,
    name: Seq<char>,
)
    ensures
        forall|i: int|
            0 <= i < named(all, name).len() ==> (#[trigger] named(all, name)[i]).name == name
                && all.contains(named(all, name)[i]),
        forall|i: int|
            0 <= i < all.len() && (#[trigger] all[i]).name == name ==> named(all, name).contains(
                all[i],
            ),
    decreases all.len(),
{
    if all.len() > 0 {
        let t = all.drop_last();
        let before = named(t, name);
        let after = named(all, name);
        lemma_named(t, name);
        assert forall|i: int| 0 <= i < after.len() implies (#[trigger] after[i]).name == name
            && all.contains(after[i]) by {
            if i < before.len() {
                assert(before[i].name == name);
                let k = choose|k: int| 0 <= k < t.len() && t[k] == before[i];
                assert(all[k] == after[i]);
            } else {
                assert(all[all.len() - 1] == after[i]);
            }
        }
        assert forall|i: int| 0 <= i < all.len() && (#[trigger] all[i]).name
            == name implies after.contains(all[i]) by {
            if i < t.len() {
                assert(t[i] == all[i]);
                assert(before.contains(t[i]));
                let k = choose|k: int| 0 <= k < before.len() && before[k] == t[i];
                assert(after[k] == all[i]);
            } else {
                assert(after[after.len() - 1] == all[i]);
            }
        }
    }
}

proof fn lemma_first_in_file(
    all: Seq<crate::parsing::symbols::QualifiedView>,
    file: Seq<char>,
)
    ensures
        match first_in_file(all, file) {
            Some(q) => q.file == file && all.contains(q),
            None => forall|i: int| 0 <= i < all.len() ==> (#[trigger] all[i]).file != file,
        },
    decreases all.len(),
{
    if all.len() > 0 && all[0].file != file {
        let t = all.drop_first();
        lemma_first_in_file(t, file);
        match first_in_file(t, file) {
            Some(q) => {
                let k = choose|k: int| 0 <= k < t.len() && t[k] == q;
                assert(all[k + 1] == q);
            },
            None => {
                assert forall|i: int| 0 <= i < all.len() implies (#[trigger] all[i]).file
                    != file by {
                    if i > 0 {
                        assert(t[i - 1] == all[i]);
                    }
                }
            },
        }
    } else if all.len() > 0 {
        assert(all.contains(all[0]));
    }
}

/// An edge by name points to a known symbol of that name, and to one in its own
/// file wherever there is one.
pub proof fn law_edges_prefer_their_own_file(
    edge: crate::parsing::relations::EdgeView,
    name: Seq<char>,
    all: Seq<crate::parsing::symbols::QualifiedView>,
)
    requires
        edge.to matches crate::parsing::relations::TargetView::Unresolved { name: n, .. } && n
            == name,
    ensures
        target_of(edge, all) matches Some(to) ==> {
            &&& all.contains(to)
            &&& to.name == name
            &&& (exists|i: int|
                0 <= i < all.len() && (#[trigger] all[i]).name == name && all[i].file
                    == edge.from.file) ==> to.file == edge.from.file
        },
{
    let candidates = named(all, name);
    lemma_named(all, name);
    lemma_first_in_file(candidates, edge.from.file);
    if target_of(edge, all) is Some {
        let to = target_of(edge, all)->0;
        if first_in_file(candidates, edge.from.file) is Some {
            let k = choose|k: int| 0 <= k < candidates.len() && candidates[k] == to;
            assert(candidates[k].name == name);
        } else {
            assert(candidates[0].name == name);
            if exists|i: int|
                0 <= i < all.len() && (#[trigger] all[i]).name == name && all[i].file
                    == edge.from.file {
                let i = choose|i: int|
                    0 <= i < all.len() && (#[trigger] all[i]).name == name && all[i].file
                        == edge.from.file;
                assert(candidates.contains(all[i]));
                let k = choose|k: int| 0 <= k < candidates.len() && candidates[k] == all[i];
                assert(candidates[k].file != edge.from.file);
            }
        }
    }
}

/// An edge by name is dropped exactly where no symbol has the name.
pub proof fn law_dropped_only_without_candidates(
    edge: crate::parsing::relations::EdgeView,
    name: Seq<char>,
    all: Seq<crate::parsing::symbols::QualifiedView>,
)
    requires
        edge.to matches crate::parsing::relations::TargetView::Unresolved { name: n, .. } && n
            == name,
    ensures
        target_of(edge, all) is None <==> forall|i: int|
            0 <= i < all.len() ==> (#[trigger] all[i]).name != name,
{
    let candidates = named(all, name);
    lemma_named(all, name);
    lemma_first_in_file(candidates, edge.from.file);
    if target_of(edge, all) is Some {
        if first_in_file(candidates, edge.from.file) is None {
            assert(candidates[0].name == name && all.contains(candidates[0]));
        } else {
            let q = first_in_file(candidates, edge.from.file)->0;
            let k = choose|k: int| 0 <= k < candidates.len() && candidates[k] == q;
            assert(candidates[k].name == name && all.contains(candidates[k]));
        }
    } else {
        assert forall|i: int| 0 <= i < all.len() implies (#[trigger] all[i]).name != name by {
            if all[i].name == name {
                assert(candidates.contains(all[i]));
            }
        }
    }
}

}
