//! What holds of the symbols and edges of every file.
use vstd::prelude::*;

use crate::parsing::extract::Family;
use crate::parsing::relations::EdgeKind;
use crate::parsing::symbols::SymbolKind;

verus! {

/// The scopes of what stands inside a definition.
pub open spec fn body_scope(symbol: crate::parsing::symbols::SymbolView) -> Seq<Seq<char>> {
    symbol.qualified.scope_path.push(symbol.qualified.name)
}

/// The definition may name scopes that do not stand around it, as the C++
/// definition `void A::f() {}` does.
pub open spec fn is_out_of_line(
    symbol: crate::parsing::symbols::SymbolView,
    qualifies: bool,
) -> bool {
    qualifies && symbol.kind == SymbolKind::Method
}

/// The first symbol is the parent of the second: the scopes of its body are those
/// of the second, or come first among them where that is defined out of line.
pub open spec fn is_parent(
    outer: crate::parsing::symbols::SymbolView,
    symbol: crate::parsing::symbols::SymbolView,
    qualifies: bool,
) -> bool {
    &&& symbol.parent_fqn == Some(crate::parsing::symbols::fqn_of(outer.qualified))
    &&& body_scope(outer) == symbol.qualified.scope_path || (is_out_of_line(symbol, qualifies)
        && body_scope(outer).is_prefix_of(symbol.qualified.scope_path))
}

/// The symbol's parent stands before it in the list; it has none exactly where it
/// is in no scope, or only in such as an out-of-line definition names.
pub open spec fn parent_precedes(
    symbols: Seq<crate::parsing::symbols::SymbolView>,
    i: int,
    qualifies: bool,
) -> bool {
    match symbols[i].parent_fqn {
        None => symbols[i].qualified.scope_path.len() == 0 || is_out_of_line(
            symbols[i],
            qualifies,
        ),
        Some(_) => exists|j: int|
            0 <= j < i && is_parent(#[trigger] symbols[j], symbols[i], qualifies),
    }
}

/// The edge starts at a symbol of the list.
pub open spec fn starts_in(
    from: crate::parsing::symbols::QualifiedView,
    symbols: Seq<crate::parsing::symbols::SymbolView>,
) -> bool {
    exists|j: int| 0 <= j < symbols.len() && (#[trigger] symbols[j]).qualified == from
}

/// A call of something that is known by its name alone.
pub open spec fn is_bare_call(edge: crate::parsing::relations::EdgeView) -> bool {
    &&& edge.kind == EdgeKind::Calls
    &&& edge.to matches crate::parsing::relations::TargetView::Unresolved { qualifier, .. }
    &&& qualifier is None
}

/// What holds of everything that one file yields.
pub open spec fn well_linked(
    qualifies: bool,
    file: Seq<char>,
    found: crate::parsing::c_family::CFound,
) -> bool {
    &&& forall|i: int|
        0 <= i < found.symbols.len() ==> (#[trigger] found.symbols[i]).qualified.file == file
    &&& forall|i: int|
        0 <= i < found.symbols.len() ==> #[trigger] parent_precedes(
            found.symbols,
            i,
            qualifies,
        )
    &&& forall|i: int|
        0 <= i < found.edges.len() ==> starts_in(
            (#[trigger] found.edges[i]).from,
            found.symbols,
        )
    &&& forall|i: int|
        0 <= i < found.edges.len() ==> is_bare_call(#[trigger] found.edges[i])
    &&& found.imports.no_duplicates()
    &&& forall|i: int| 0 <= i < found.imports.len() ==> (#[trigger] found.imports[i]).len() > 0
}

// ─── One traversal for five languages ───

spec fn own_parent(
    symbols: Seq<crate::parsing::symbols::SymbolView>,
    i: int,
    scope: Seq<Seq<char>>,
    parent: Option<Seq<char>>,
) -> bool {
    ||| symbols[i].parent_fqn == parent && symbols[i].qualified.scope_path == scope
    ||| symbols[i].parent_fqn is Some && parent_precedes(symbols, i, false)
}

spec fn own_start(
    from: crate::parsing::symbols::QualifiedView,
    symbols: Seq<crate::parsing::symbols::SymbolView>,
    file: Seq<char>,
    scope: Seq<Seq<char>>,
) -> bool {
    crate::parsing::symbols::scope_symbol(file, scope) == Some(from) || starts_in(from, symbols)
}

/// Everything hangs together, given the scopes and the definition around it.
spec fn linked(
    file: Seq<char>,
    found: crate::parsing::extract::Found,
    scope: Seq<Seq<char>>,
    parent: Option<Seq<char>>,
) -> bool {
    &&& forall|i: int|
        0 <= i < found.symbols.len() ==> (#[trigger] found.symbols[i]).qualified.file == file
    &&& forall|i: int|
        0 <= i < found.symbols.len() ==> #[trigger] own_parent(
            found.symbols,
            i,
            scope,
            parent,
        )
    &&& forall|i: int|
        0 <= i < found.edges.len() ==> own_start(
            (#[trigger] found.edges[i]).from,
            found.symbols,
            file,
            scope,
        )
    &&& forall|i: int|
        0 <= i < found.edges.len() ==> is_bare_call(#[trigger] found.edges[i])
}

proof fn lemma_starts_in_longer(
    from: crate::parsing::symbols::QualifiedView,
    before: Seq<crate::parsing::symbols::SymbolView>,
    symbols: Seq<crate::parsing::symbols::SymbolView>,
    after: Seq<crate::parsing::symbols::SymbolView>,
)
    requires
        starts_in(from, symbols),
    ensures
        starts_in(from, before + symbols + after),
{
    let j = choose|j: int| 0 <= j < symbols.len() && (#[trigger] symbols[j]).qualified == from;
    assert((before + symbols + after)[before.len() + j] == symbols[j]);
}

proof fn lemma_parent_precedes_longer(
    before: Seq<crate::parsing::symbols::SymbolView>,
    symbols: Seq<crate::parsing::symbols::SymbolView>,
    after: Seq<crate::parsing::symbols::SymbolView>,
    i: int,
    qualifies: bool,
)
    requires
        0 <= i < symbols.len(),
        parent_precedes(symbols, i, qualifies),
    ensures
        parent_precedes(before + symbols + after, before.len() + i, qualifies),
{
    let all = before + symbols + after;
    assert(all[before.len() + i] == symbols[i]);
    if symbols[i].parent_fqn is Some {
        let j = choose|j: int|
            0 <= j < i && is_parent(#[trigger] symbols[j], symbols[i], qualifies);
        assert(all[before.len() + j] == symbols[j]);
        assert(is_parent(all[before.len() + j], all[before.len() + i], qualifies));
    }
}

proof fn lemma_linked_append(
    file: Seq<char>,
    a: crate::parsing::extract::Found,
    b: crate::parsing::extract::Found,
    scope: Seq<Seq<char>>,
    parent: Option<Seq<char>>,
)
    requires
        linked(file, a, scope, parent),
        linked(file, b, scope, parent),
    ensures
        linked(file, a.followed_by(b), scope, parent),
{
    let none = Seq::<crate::parsing::symbols::SymbolView>::empty();
    let all = a.followed_by(b);
    assert(none + a.symbols + b.symbols =~= all.symbols);
    assert(a.symbols + b.symbols + none =~= all.symbols);
    assert forall|i: int| 0 <= i < all.symbols.len() implies #[trigger] own_parent(
        all.symbols,
        i,
        scope,
        parent,
    ) by {
        if i < a.symbols.len() {
            assert(own_parent(a.symbols, i, scope, parent));
            if parent_precedes(a.symbols, i, false) {
                lemma_parent_precedes_longer(none, a.symbols, b.symbols, i, false);
            }
        } else {
            let k = i - a.symbols.len();
            assert(own_parent(b.symbols, k, scope, parent));
            if parent_precedes(b.symbols, k, false) {
                lemma_parent_precedes_longer(a.symbols, b.symbols, none, k, false);
            }
        }
    }
    assert forall|i: int| 0 <= i < all.edges.len() implies own_start(
        (#[trigger] all.edges[i]).from,
        all.symbols,
        file,
        scope,
    ) by {
        let from = all.edges[i].from;
        if i < a.edges.len() {
            assert(a.edges[i] == all.edges[i]);
            if starts_in(from, a.symbols) {
                lemma_starts_in_longer(from, none, a.symbols, b.symbols);
            }
        } else {
            assert(b.edges[i - a.edges.len()] == all.edges[i]);
            if starts_in(from, b.symbols) {
                lemma_starts_in_longer(from, a.symbols, b.symbols, none);
            }
        }
    }
}

proof fn lemma_types_linked(
    file: Seq<char>,
    source: Seq<char>,
    nodes: Seq<crate::parsing::syntax::SyntaxView>,
    scope: Seq<Seq<char>>,
    parent: Option<Seq<char>>,
)
    ensures
        ({
            let types = crate::parsing::extract::types_in(file, source, nodes, scope, parent);
            forall|i: int|
                0 <= i < types.len() ==> (#[trigger] types[i]).qualified.file == file
                    && types[i].parent_fqn == parent && types[i].qualified.scope_path == scope
        }),
    decreases nodes.len(),
{
    if nodes.len() > 0 {
        lemma_types_linked(file, source, nodes.drop_last(), scope, parent);
    }
}

proof fn lemma_linked_at(
    family: Family,
    file: Seq<char>,
    source: Seq<char>,
    node: crate::parsing::syntax::SyntaxView,
    scope: Seq<Seq<char>>,
    parent: Option<Seq<char>>,
)
    ensures
        linked(
            file,
            crate::parsing::extract::found_at(family, file, source, node, scope, parent),
            scope,
            parent,
        ),
    decreases node, 0int,
{
    match crate::parsing::extract::role_of(family, node, source, scope) {
        crate::parsing::extract::RoleView::Skip => {},
        crate::parsing::extract::RoleView::Descend => {
            lemma_linked_in(family, file, source, node.children, scope, parent);
        },
        crate::parsing::extract::RoleView::Define { name, kind, opens } => {
            let symbol = crate::parsing::extract::symbol_of(
                file,
                node,
                name,
                kind,
                scope,
                parent,
            );
            if opens {
                let fqn = Some(crate::parsing::symbols::fqn_of(symbol.qualified));
                let inner = crate::parsing::extract::found_in(
                    family,
                    file,
                    source,
                    node.children,
                    scope.push(name),
                    fqn,
                );
                lemma_linked_in(family, file, source, node.children, scope.push(name), fqn);
                lemma_linked_below(file, symbol, inner, scope, parent);
            }
        },
        crate::parsing::extract::RoleView::Call { callee } => {
            let own = crate::parsing::extract::Found {
                symbols: Seq::empty(),
                edges: crate::parsing::extract::calls_of(file, node, callee, None, scope),
            };
            lemma_linked_in(family, file, source, node.children, scope, parent);
            assert(linked(file, own, scope, parent));
            lemma_linked_append(
                file,
                own,
                crate::parsing::extract::found_in(
                    family,
                    file,
                    source,
                    node.children,
                    scope,
                    parent,
                ),
                scope,
                parent,
            );
        },
        crate::parsing::extract::RoleView::TypeGroup => {
            lemma_types_linked(file, source, node.children, scope, parent);
        },
    }
}

/// What stands inside a definition is linked to it.
proof fn lemma_linked_below(
    file: Seq<char>,
    symbol: crate::parsing::symbols::SymbolView,
    inner: crate::parsing::extract::Found,
    scope: Seq<Seq<char>>,
    parent: Option<Seq<char>>,
)
    requires
        symbol.qualified.file == file,
        symbol.qualified.scope_path == scope,
        symbol.parent_fqn == parent,
        linked(
            file,
            inner,
            scope.push(symbol.qualified.name),
            Some(crate::parsing::symbols::fqn_of(symbol.qualified)),
        ),
    ensures
        linked(
            file,
            crate::parsing::extract::Found {
                symbols: seq![symbol],
                edges: Seq::empty(),
            }.followed_by(inner),
            scope,
            parent,
        ),
{
    let own = crate::parsing::extract::Found { symbols: seq![symbol], edges: Seq::empty() };
    let all = own.followed_by(inner);
    let none = Seq::<crate::parsing::symbols::SymbolView>::empty();
    let name = symbol.qualified.name;
    let fqn = Some(crate::parsing::symbols::fqn_of(symbol.qualified));
    assert(own.symbols + inner.symbols + none =~= all.symbols);
    assert(all.symbols[0] == symbol);
    assert forall|i: int| 0 <= i < all.symbols.len() implies #[trigger] own_parent(
        all.symbols,
        i,
        scope,
        parent,
    ) by {
        if i > 0 {
            assert(own_parent(inner.symbols, i - 1, scope.push(name), fqn));
            assert(all.symbols[i] == inner.symbols[i - 1]);
            if inner.symbols[i - 1].parent_fqn is Some && parent_precedes(
                inner.symbols,
                i - 1,
                false,
            ) {
                lemma_parent_precedes_longer(own.symbols, inner.symbols, none, i - 1, false);
            } else {
                assert(is_parent(all.symbols[0], all.symbols[i], false));
            }
        }
    }
    assert forall|i: int| 0 <= i < all.edges.len() implies own_start(
        (#[trigger] all.edges[i]).from,
        all.symbols,
        file,
        scope,
    ) by {
        let from = all.edges[i].from;
        assert(all.edges[i] == inner.edges[i]);
        if starts_in(from, inner.symbols) {
            lemma_starts_in_longer(from, own.symbols, inner.symbols, none);
        } else {
            assert(scope.push(name).drop_last() =~= scope);
            assert(all.symbols[0].qualified == from);
        }
    }
    assert forall|i: int| 0 <= i < all.edges.len() implies is_bare_call(
        #[trigger] all.edges[i],
    ) by {
        assert(all.edges[i] == inner.edges[i]);
    }
}

proof fn lemma_linked_in(
    family: Family,
    file: Seq<char>,
    source: Seq<char>,
    nodes: Seq<crate::parsing::syntax::SyntaxView>,
    scope: Seq<Seq<char>>,
    parent: Option<Seq<char>>,
)
    ensures
        linked(
            file,
            crate::parsing::extract::found_in(family, file, source, nodes, scope, parent),
            scope,
            parent,
        ),
    decreases nodes, 1int,
{
    if nodes.len() > 0 {
        lemma_linked_in(family, file, source, nodes.drop_last(), scope, parent);
        lemma_linked_at(family, file, source, nodes.last(), scope, parent);
        lemma_linked_append(
            file,
            crate::parsing::extract::found_in(
                family,
                file,
                source,
                nodes.drop_last(),
                scope,
                parent,
            ),
            crate::parsing::extract::found_at(family, file, source, nodes.last(), scope, parent),
            scope,
            parent,
        );
    }
}

// ─── C and C++ ───

/// The scopes and the definition around a node are those of symbols found before.
spec fn grounded(
    file: Seq<char>,
    symbols: Seq<crate::parsing::symbols::SymbolView>,
    scope: Seq<Seq<char>>,
    parent: Option<Seq<char>>,
) -> bool {
    &&& scope.len() > 0 ==> starts_in(
        crate::parsing::symbols::scope_symbol(file, scope)->0,
        symbols,
    )
    &&& match parent {
        None => scope.len() == 0,
        Some(fqn) => exists|j: int|
            0 <= j < symbols.len() && crate::parsing::symbols::fqn_of(
                (#[trigger] symbols[j]).qualified,
            ) == fqn && body_scope(symbols[j]) == scope,
    }
}

proof fn lemma_grounded_longer(
    file: Seq<char>,
    symbols: Seq<crate::parsing::symbols::SymbolView>,
    longer: Seq<crate::parsing::symbols::SymbolView>,
    scope: Seq<Seq<char>>,
    parent: Option<Seq<char>>,
)
    requires
        grounded(file, symbols, scope, parent),
        symbols.is_prefix_of(longer),
    ensures
        grounded(file, longer, scope, parent),
{
    let none = Seq::<crate::parsing::symbols::SymbolView>::empty();
    let rest = longer.skip(symbols.len() as int);
    assert(none + symbols + rest =~= longer);
    if scope.len() > 0 {
        lemma_starts_in_longer(
            crate::parsing::symbols::scope_symbol(file, scope)->0,
            none,
            symbols,
            rest,
        );
    }
    if parent is Some {
        let j = choose|j: int|
            0 <= j < symbols.len() && crate::parsing::symbols::fqn_of(
                (#[trigger] symbols[j]).qualified,
            ) == parent->0 && body_scope(symbols[j]) == scope;
        assert(longer[j] == symbols[j]);
    }
}

proof fn lemma_with_symbol(
    file: Seq<char>,
    before: crate::parsing::c_family::CFound,
    symbol: crate::parsing::symbols::SymbolView,
    scope: Seq<Seq<char>>,
)
    requires
        well_linked(true, file, before),
        symbol.qualified.file == file,
        grounded(file, before.symbols, scope, symbol.parent_fqn),
        symbol.qualified.scope_path == scope || (is_out_of_line(symbol, true)
            && scope.is_prefix_of(symbol.qualified.scope_path)),
    ensures
        well_linked(true, file, before.with_symbol(symbol)),
        before.symbols.is_prefix_of(before.with_symbol(symbol).symbols),
        grounded(
            file,
            before.with_symbol(symbol).symbols,
            body_scope(symbol),
            Some(crate::parsing::symbols::fqn_of(symbol.qualified)),
        ),
{
    let after = before.with_symbol(symbol);
    let none = Seq::<crate::parsing::symbols::SymbolView>::empty();
    let n = before.symbols.len() as int;
    assert(none + before.symbols + seq![symbol] =~= after.symbols);
    assert(before.symbols =~= after.symbols.subrange(0, n));
    assert(after.symbols[n] == symbol);
    assert forall|i: int| 0 <= i < after.symbols.len() implies #[trigger] parent_precedes(
        after.symbols,
        i,
        true,
    ) by {
        if i < n {
            assert(parent_precedes(before.symbols, i, true));
            lemma_parent_precedes_longer(none, before.symbols, seq![symbol], i, true);
        } else if symbol.parent_fqn is Some {
            let j = choose|j: int|
                0 <= j < n && crate::parsing::symbols::fqn_of(
                    (#[trigger] before.symbols[j]).qualified,
                ) == symbol.parent_fqn->0 && body_scope(before.symbols[j]) == scope;
            assert(after.symbols[j] == before.symbols[j]);
            assert(is_parent(after.symbols[j], after.symbols[i], true));
        }
    }
    assert forall|i: int| 0 <= i < after.edges.len() implies starts_in(
        (#[trigger] after.edges[i]).from,
        after.symbols,
    ) by {
        lemma_starts_in_longer(before.edges[i].from, none, before.symbols, seq![symbol]);
    }
    let inner = body_scope(symbol);
    assert(inner.drop_last() =~= symbol.qualified.scope_path);
    assert(after.symbols[n].qualified == crate::parsing::symbols::scope_symbol(file, inner)->0);
}

proof fn lemma_c_linked_at(
    file: Seq<char>,
    source: Seq<char>,
    node: crate::parsing::syntax::SyntaxView,
    scope: Seq<Seq<char>>,
    parent: Option<Seq<char>>,
    before: crate::parsing::c_family::CFound,
)
    requires
        well_linked(true, file, before),
        grounded(file, before.symbols, scope, parent),
    ensures
        ({
            let after = crate::parsing::c_family::c_found_at(
                file,
                source,
                node,
                scope,
                parent,
                before,
            );
            &&& well_linked(true, file, after)
            &&& before.symbols.is_prefix_of(after.symbols)
        }),
    decreases node, 0int,
{
    match crate::parsing::c_family::c_role(source, node, scope, before) {
        crate::parsing::c_family::CRole::Include(path) => {
            let imports = crate::parsing::imports::with_import(before.imports, path);
            assert(before.imports.no_duplicates() ==> imports.no_duplicates());
        },
        crate::parsing::c_family::CRole::Define { name, kind, scope: own } => {
            let symbol = crate::parsing::extract::symbol_of(file, node, name, kind, own, parent);
            assert(scope =~= own.subrange(0, scope.len() as int));
            lemma_with_symbol(file, before, symbol, scope);
            lemma_c_linked_in(
                file,
                source,
                node.children,
                own.push(name),
                Some(crate::parsing::symbols::fqn_of(symbol.qualified)),
                before.with_symbol(symbol),
            );
            lemma_prefix_trans(
                before.symbols,
                before.with_symbol(symbol).symbols,
                crate::parsing::c_family::c_found_at(
                    file,
                    source,
                    node,
                    scope,
                    parent,
                    before,
                ).symbols,
            );
        },
        crate::parsing::c_family::CRole::Call { callee, import_path } => {
            let calls = crate::parsing::extract::calls_of(file, node, callee, import_path, scope);
            let middle = crate::parsing::c_family::CFound {
                edges: before.edges + calls,
                ..before
            };
            assert forall|i: int| 0 <= i < middle.edges.len() implies starts_in(
                (#[trigger] middle.edges[i]).from,
                middle.symbols,
            ) && is_bare_call(middle.edges[i]) by {
                if i < before.edges.len() {
                    assert(middle.edges[i] == before.edges[i]);
                } else {
                    assert(middle.edges[i] == calls[i - before.edges.len()]);
                }
            }
            lemma_c_linked_in(file, source, node.children, scope, parent, middle);
        },
        crate::parsing::c_family::CRole::Descend => {
            lemma_c_linked_in(file, source, node.children, scope, parent, before);
        },
        crate::parsing::c_family::CRole::Skip => {},
    }
}

proof fn lemma_prefix_trans<A>(a: Seq<A>, b: Seq<A>, c: Seq<A>)
    requires
        a.is_prefix_of(b),
        b.is_prefix_of(c),
    ensures
        a.is_prefix_of(c),
{
    assert(a =~= c.subrange(0, a.len() as int)) by {
        assert forall|i: int| 0 <= i < a.len() implies a[i] == c[i] by {
            assert(a[i] == b.subrange(0, a.len() as int)[i]);
            assert(b[i] == c.subrange(0, b.len() as int)[i]);
        }
    }
}

proof fn lemma_c_linked_in(
    file: Seq<char>,
    source: Seq<char>,
    nodes: Seq<crate::parsing::syntax::SyntaxView>,
    scope: Seq<Seq<char>>,
    parent: Option<Seq<char>>,
    before: crate::parsing::c_family::CFound,
)
    requires
        well_linked(true, file, before),
        grounded(file, before.symbols, scope, parent),
    ensures
        ({
            let after = crate::parsing::c_family::c_found_in(
                file,
                source,
                nodes,
                scope,
                parent,
                before,
            );
            &&& well_linked(true, file, after)
            &&& before.symbols.is_prefix_of(after.symbols)
        }),
    decreases nodes, 1int,
{
    if nodes.len() > 0 {
        let middle = crate::parsing::c_family::c_found_in(
            file,
            source,
            nodes.drop_last(),
            scope,
            parent,
            before,
        );
        lemma_c_linked_in(file, source, nodes.drop_last(), scope, parent, before);
        lemma_grounded_longer(file, before.symbols, middle.symbols, scope, parent);
        lemma_c_linked_at(file, source, nodes.last(), scope, parent, middle);
        lemma_prefix_trans(
            before.symbols,
            middle.symbols,
            crate::parsing::c_family::c_found_at(
                file,
                source,
                nodes.last(),
                scope,
                parent,
                middle,
            ).symbols,
        );
    }
}

// ─── The laws ───

/// The languages in which a definition can name the scopes that it is in.
pub open spec fn qualifies(lang: crate::parsing::Lang) -> bool {
    lang == crate::parsing::Lang::C || lang == crate::parsing::Lang::Cpp
}

/// Whatever a file yields hangs together: every symbol lies in that file; it has
/// no parent exactly where it is in no scope, and otherwise its parent precedes
/// it, whose scopes followed by its name are the symbol's scopes; every edge is a
/// call that starts at one of the file's own symbols; and no include is listed
/// twice or empty. A C++ method that is defined out of line (`void A::f() {}`)
/// can be in more scopes than those of its parent's body.
pub proof fn law_file_is_well_linked(file: Seq<char>, source: Seq<char>)
    ensures
        well_linked(
            qualifies(crate::parsing::lang_of(crate::paths::extension_of(file))),
            file,
            crate::parsing::found_in_file(file, source),
        ),
{
    let lang = crate::parsing::lang_of(crate::paths::extension_of(file));
    law_rows_are_well_linked(lang, file, source, crate::parsing::rows_for(lang, source));
}

/// The same of whatever tree the grammar may yield.
pub proof fn law_rows_are_well_linked(
    lang: crate::parsing::Lang,
    file: Seq<char>,
    source: Seq<char>,
    rows: Option<Seq<crate::parsing::syntax::RowView>>,
)
    ensures
        well_linked(
            qualifies(lang),
            file,
            crate::parsing::found_in_rows(lang, file, source, rows),
        ),
{
    let none = crate::parsing::c_family::CFound::none();
    assert(well_linked(true, file, none) && well_linked(false, file, none));
    if rows is Some && crate::parsing::syntax::tree_from(rows->0) is Some {
        let root = crate::parsing::syntax::tree_from(rows->0)->0;
        lemma_c_linked_at(file, source, root, Seq::empty(), None, none);
        lemma_family_linked(Family::Python, file, source, root);
        lemma_family_linked(Family::JavaScript, file, source, root);
        lemma_family_linked(Family::Rust, file, source, root);
        lemma_family_linked(Family::Go, file, source, root);
        lemma_family_linked(Family::Java, file, source, root);
    }
}

proof fn lemma_family_linked(
    family: Family,
    file: Seq<char>,
    source: Seq<char>,
    root: crate::parsing::syntax::SyntaxView,
)
    ensures
        well_linked(false, file, crate::parsing::found_by_family(family, file, source, root)),
{
    lemma_linked_at(family, file, source, root, Seq::empty(), None);
    let found = crate::parsing::found_by_family(family, file, source, root);
    assert forall|i: int| 0 <= i < found.symbols.len() implies #[trigger] parent_precedes(
        found.symbols,
        i,
        false,
    ) by {
        assert(own_parent(found.symbols, i, Seq::empty(), None));
    }
}

/// Only C and C++ files have includes.
pub proof fn law_imports_are_of_c(file: Seq<char>, source: Seq<char>)
    requires
        crate::parsing::lang_of(crate::paths::extension_of(file)) != crate::parsing::Lang::C,
        crate::parsing::lang_of(crate::paths::extension_of(file)) != crate::parsing::Lang::Cpp,
    ensures
        crate::parsing::found_in_file(file, source).imports.len() == 0,
{
}

}
