//! What is found of a C or C++ file, told from the places of its tree.
use vstd::prelude::*;

use crate::lists;
use crate::parsing::c_family::CFound;
use crate::parsing::places::Place;
use crate::parsing::relations::{EdgeKind, EdgeView, TargetView};
use crate::parsing::symbols::{QualifiedView, SymbolKind, SymbolView};
use crate::parsing::syntax::{Field, SyntaxView};
use crate::parsing::{c_family, imports, places, symbols, syntax};

verus! {

// ─── Nodes ───

/// The name under which the node is a definition, and the scopes that are written
/// before it.
pub open spec fn definition_at(node: SyntaxView, source: Seq<char>) -> Option<
    (Seq<char>, Seq<Seq<char>>),
> {
    let kind = node.info.kind;
    let none = Seq::<Seq<char>>::empty();
    if kind == "function_definition"@ {
        match syntax::field_child(node, Field::Declarator) {
            Some(d) => match c_family::declarator_name_of(d, source) {
                Some((name, true)) => Some((name, c_family::scope_prefix_of(d, source))),
                Some((name, false)) => Some((name, none)),
                None => None,
            },
            None => None,
        }
    } else if kind == "class_specifier"@ || kind == "struct_specifier"@ {
        match syntax::field_child(node, Field::Name) {
            Some(n) => Some((syntax::text_of(n, source), none)),
            None => None,
        }
    } else if kind == "namespace_definition"@ {
        match syntax::field_child(node, Field::Name) {
            Some(n) => Some((syntax::text_of(n, source), none)),
            None => Some(("<anonymous>"@, none)),
        }
    } else {
        None
    }
}

/// What a call calls, where that is a name.
pub open spec fn callee_at(node: SyntaxView, source: Seq<char>) -> Option<Seq<char>> {
    match syntax::field_child(node, Field::Function) {
        Some(f) => if node.info.kind == "call_expression"@ {
            c_family::callee_of(f, source)
        } else {
            None
        },
        None => None,
    }
}

/// The line of a row; there is none beyond the greatest.
pub open spec fn line_at(row: usize) -> u32 {
    if row + 1 <= u32::MAX {
        (row + 1) as u32
    } else {
        u32::MAX
    }
}

// ─── What stands around a place ───

/// No node around is an include directive.
pub open spec fn is_looked_into(above: Seq<SyntaxView>) -> bool {
    forall|i: int| 0 <= i < above.len() ==> (#[trigger] above[i]).info.kind != "preproc_include"@
}

/// The names of the definitions around, the outermost first, each behind the
/// scopes that are written before it.
pub open spec fn scopes(above: Seq<SyntaxView>, source: Seq<char>) -> Seq<Seq<char>>
    decreases above.len(),
{
    if above.len() == 0 {
        Seq::empty()
    } else {
        let outer = scopes(above.drop_last(), source);
        match definition_at(above.last(), source) {
            Some((name, prefix)) => (outer + prefix).push(name),
            None => outer,
        }
    }
}

/// The innermost definition around.
pub open spec fn innermost(above: Seq<SyntaxView>, file: Seq<char>, source: Seq<char>) -> Option<
    QualifiedView,
>
    decreases above.len(),
{
    if above.len() == 0 {
        None
    } else {
        match definition_at(above.last(), source) {
            Some((name, prefix)) => Some(
                QualifiedView {
                    file,
                    scope_path: scopes(above.drop_last(), source) + prefix,
                    name,
                },
            ),
            None => innermost(above.drop_last(), file, source),
        }
    }
}

// ─── What a place yields ───

/// The path that an include directive names.
pub open spec fn included_at(p: Place, source: Seq<char>) -> Option<Seq<char>> {
    match syntax::field_child(p.node, Field::Path) {
        Some(n) => {
            let path = crate::text::trimmed(
                syntax::text_of(n, source),
                crate::text::TrimSet::Quotes,
            );
            if p.node.info.kind == "preproc_include"@ && is_looked_into(p.above) && path.len() > 0 {
                Some(path)
            } else {
                None
            }
        },
        None => None,
    }
}

pub open spec fn includes(earlier: Seq<Place>, source: Seq<char>) -> Seq<Seq<char>> {
    earlier.filter_map(|p: Place| included_at(p, source))
}

/// The call that the place is: from the innermost definition around it.
pub open spec fn call_at(
    p: Place,
    earlier: Seq<Place>,
    file: Seq<char>,
    source: Seq<char>,
) -> Option<EdgeView> {
    match (callee_at(p.node, source), innermost(p.above, file, source)) {
        (Some(name), Some(from)) => if is_looked_into(p.above) {
            Some(
                EdgeView {
                    from,
                    to: TargetView::Unresolved {
                        name,
                        import_path: c_family::import_for_call(
                            syntax::field_child(p.node, Field::Function)->0,
                            source,
                            name,
                            includes(earlier, source),
                        ),
                        qualifier: None,
                    },
                    kind: EdgeKind::Calls,
                    line: line_at(p.node.info.start_row),
                },
            )
        } else {
            None
        },
        _ => None,
    }
}

/// An earlier place is a class or struct of the name.
pub open spec fn is_type_of(p: Place, name: Seq<char>, source: Seq<char>) -> bool {
    &&& p.node.info.kind == "class_specifier"@ || p.node.info.kind == "struct_specifier"@
    &&& is_looked_into(p.above)
    &&& definition_at(p.node, source) matches Some(d) && d.0 == name
}

/// One of the scopes bears the name of a class or struct that stands earlier.
pub open spec fn is_in_type(
    above: Seq<SyntaxView>,
    earlier: Seq<Place>,
    source: Seq<char>,
) -> bool {
    exists|i: int, j: int|
        0 <= i < scopes(above, source).len() && 0 <= j < earlier.len() && is_type_of(
            #[trigger] earlier[j],
            #[trigger] scopes(above, source)[i],
            source,
        )
}

/// A function is a method where its name is written with a scope or where it
/// stands in a type.
pub open spec fn kind_at(p: Place, earlier: Seq<Place>, source: Seq<char>) -> SymbolKind {
    let kind = p.node.info.kind;
    if kind == "class_specifier"@ {
        SymbolKind::Class
    } else if kind == "struct_specifier"@ {
        SymbolKind::Struct
    } else if kind == "namespace_definition"@ {
        SymbolKind::Module
    } else if (syntax::field_child(p.node, Field::Declarator) matches Some(d)
        && c_family::declarator_name_of(d, source) matches Some(n) && n.1) || is_in_type(
        p.above,
        earlier,
        source,
    ) {
        SymbolKind::Method
    } else {
        SymbolKind::Function
    }
}

/// The definition that the place is.
pub open spec fn symbol_at(
    p: Place,
    earlier: Seq<Place>,
    file: Seq<char>,
    source: Seq<char>,
) -> Option<SymbolView> {
    match definition_at(p.node, source) {
        Some((name, prefix)) => if is_looked_into(p.above) {
            Some(
                SymbolView {
                    qualified: QualifiedView {
                        file,
                        scope_path: scopes(p.above, source) + prefix,
                        name,
                    },
                    kind: kind_at(p, earlier, source),
                    line_start: line_at(p.node.info.start_row),
                    line_end: line_at(p.node.info.end_row),
                    signature: None,
                    parent_fqn: match innermost(p.above, file, source) {
                        Some(q) => Some(symbols::fqn_of(q)),
                        None => None,
                    },
                },
            )
        } else {
            None
        },
        None => None,
    }
}

/// Each place with those before it.
pub open spec fn with_earlier(all: Seq<Place>) -> Seq<(Place, Seq<Place>)> {
    Seq::new(all.len(), |i: int| (all[i], all.take(i)))
}

pub open spec fn symbols_of(all: Seq<Place>, file: Seq<char>, source: Seq<char>) -> Seq<
    SymbolView,
> {
    with_earlier(all).filter_map(
        |p: (Place, Seq<Place>)| symbol_at(p.0, p.1, file, source),
    )
}

pub open spec fn calls_of(all: Seq<Place>, file: Seq<char>, source: Seq<char>) -> Seq<EdgeView> {
    with_earlier(all).filter_map(|p: (Place, Seq<Place>)| call_at(p.0, p.1, file, source))
}

/// The list holds the same paths, each once and in the order in which they first
/// occur, and the first of each basename is the same.
pub open spec fn same_includes(a: Seq<Seq<char>>, b: Seq<Seq<char>>) -> bool {
    &&& lists::are_firsts(a, b)
    &&& forall|name: Seq<char>| #[trigger]
        imports::first_import(a, name) == imports::first_import(b, name)
}

/// What was found is what the places yield.
pub open spec fn is_found_in(
    found: CFound,
    all: Seq<Place>,
    file: Seq<char>,
    source: Seq<char>,
) -> bool {
    &&& found.symbols == symbols_of(all, file, source)
    &&& found.edges == calls_of(all, file, source)
    &&& same_includes(found.imports, includes(all, source))
}

// ─── Proof ───

proof fn lemma_push(all: Seq<Place>, p: Place, file: Seq<char>, source: Seq<char>)
    ensures
        symbols_of(all.push(p), file, source) == match symbol_at(p, all, file, source) {
            Some(s) => symbols_of(all, file, source).push(s),
            None => symbols_of(all, file, source),
        },
        calls_of(all.push(p), file, source) == match call_at(p, all, file, source) {
            Some(e) => calls_of(all, file, source).push(e),
            None => calls_of(all, file, source),
        },
        includes(all.push(p), source) == match included_at(p, source) {
            Some(path) => includes(all, source).push(path),
            None => includes(all, source),
        },
{
    reveal(Seq::filter_map);
    let more = all.push(p);
    let pairs = with_earlier(more);
    assert(pairs.drop_last() =~= with_earlier(all)) by {
        assert forall|i: int| 0 <= i < all.len() implies pairs[i] == with_earlier(all)[i] by {
            assert(more.take(i) =~= all.take(i));
        }
    }
    assert(more.take(all.len() as int) =~= all);
    assert(pairs.last() == (p, all));
    assert(more.drop_last() =~= all);
    assert(more.last() == p);
    assert(includes(more, source) =~= match included_at(p, source) {
        Some(path) => includes(all, source).push(path),
        None => includes(all, source),
    });
    assert(symbols_of(more, file, source) =~= match symbol_at(p, all, file, source) {
        Some(s) => symbols_of(all, file, source).push(s),
        None => symbols_of(all, file, source),
    });
    assert(calls_of(more, file, source) =~= match call_at(p, all, file, source) {
        Some(e) => calls_of(all, file, source).push(e),
        None => calls_of(all, file, source),
    });
}

/// What stands in an include directive yields nothing.
proof fn lemma_hidden(
    found: CFound,
    earlier: Seq<Place>,
    all: Seq<Place>,
    file: Seq<char>,
    source: Seq<char>,
)
    requires
        is_found_in(found, earlier, file, source),
        forall|i: int| 0 <= i < all.len() ==> !is_looked_into((#[trigger] all[i]).above),
    ensures
        is_found_in(found, earlier + all, file, source),
    decreases all.len(),
{
    if all.len() == 0 {
        assert(earlier + all =~= earlier);
    } else {
        let front = all.drop_last();
        assert forall|i: int| 0 <= i < front.len() implies !is_looked_into(
            (#[trigger] front[i]).above,
        ) by {
            assert(front[i] == all[i]);
        }
        lemma_hidden(found, earlier, front, file, source);
        let p = all[all.len() - 1];
        lemma_push(earlier + front, p, file, source);
        assert((earlier + front).push(p) =~= earlier + all);
    }
}

proof fn lemma_hidden_at(node: SyntaxView, above: Seq<SyntaxView>)
    requires
        !is_looked_into(above),
    ensures
        forall|i: int|
            0 <= i < places::places_at(node, above).len() ==> !is_looked_into(
                (#[trigger] places::places_at(node, above)[i]).above,
            ),
    decreases node, 0int,
{
    let all = places::places_at(node, above);
    let inner = above.push(node);
    lemma_hidden_longer(above, node);
    lemma_hidden_in(node.children, inner);
    assert forall|i: int| 0 <= i < all.len() implies !is_looked_into(
        (#[trigger] all[i]).above,
    ) by {
        if i > 0 {
            assert(all[i] == places::places_in(node.children, inner)[i - 1]);
        }
    }
}

proof fn lemma_hidden_longer(above: Seq<SyntaxView>, node: SyntaxView)
    requires
        !is_looked_into(above),
    ensures
        !is_looked_into(above.push(node)),
{
    let i = choose|i: int|
        0 <= i < above.len() && (#[trigger] above[i]).info.kind == "preproc_include"@;
    assert(above.push(node)[i] == above[i]);
}

proof fn lemma_hidden_in(nodes: Seq<SyntaxView>, above: Seq<SyntaxView>)
    requires
        !is_looked_into(above),
    ensures
        forall|i: int|
            0 <= i < places::places_in(nodes, above).len() ==> !is_looked_into(
                (#[trigger] places::places_in(nodes, above)[i]).above,
            ),
    decreases nodes, 1int,
{
    if nodes.len() > 0 {
        let all = places::places_in(nodes, above);
        let before = places::places_in(nodes.drop_last(), above);
        lemma_hidden_in(nodes.drop_last(), above);
        lemma_hidden_at(nodes.last(), above);
        assert forall|i: int| 0 <= i < all.len() implies !is_looked_into(
            (#[trigger] all[i]).above,
        ) by {
            if i < before.len() {
                assert(all[i] == before[i]);
            } else {
                assert(all[i] == places::places_at(nodes.last(), above)[i - before.len()]);
            }
        }
    }
}

proof fn lemma_first_import_push(paths: Seq<Seq<char>>, path: Seq<char>, name: Seq<char>)
    ensures
        imports::first_import(paths.push(path), name) == match imports::first_import(paths, name) {
            Some(p) => Some(p),
            None => if imports::basename_of(path) == name {
                Some(path)
            } else {
                None
            },
        },
        imports::first_import(paths, name) is None && paths.contains(path)
            ==> imports::basename_of(path) != name,
    decreases paths.len(),
{
    let more = paths.push(path);
    if paths.len() == 0 {
        assert(more.drop_first() =~= paths);
    } else {
        let rest = paths.drop_first();
        lemma_first_import_push(rest, path, name);
        assert(more.drop_first() =~= rest.push(path));
        assert(more[0] == paths[0]);
        if paths.contains(path) && path != paths[0] {
            let i = choose|i: int| 0 <= i < paths.len() && paths[i] == path;
            assert(rest[i - 1] == path);
        }
    }
}

proof fn lemma_import_added(a: Seq<Seq<char>>, b: Seq<Seq<char>>, path: Seq<char>)
    requires
        same_includes(a, b),
    ensures
        same_includes(imports::with_import(a, path), b.push(path)),
{
    let more = imports::with_import(a, path);
    lists::lemma_firsts_push(a, b, path);
    assert(a.contains(path) <==> b.contains(path)) by {
        if a.contains(path) {
            let i = choose|i: int| 0 <= i < a.len() && a[i] == path;
            assert(b.contains(a[i]));
        }
        if b.contains(path) {
            let i = choose|i: int| 0 <= i < b.len() && b[i] == path;
            assert(a.contains(b[i]));
        }
    }
    assert forall|name: Seq<char>| #[trigger]
        imports::first_import(more, name) == imports::first_import(b.push(path), name) by {
        lemma_first_import_push(a, path, name);
        lemma_first_import_push(b, path, name);
        assert(imports::first_import(a, name) == imports::first_import(b, name));
    }
}

/// Whether a function stands in a type can be told from the symbols found so far
/// and from the earlier places alike.
proof fn lemma_in_type(
    above: Seq<SyntaxView>,
    earlier: Seq<Place>,
    file: Seq<char>,
    source: Seq<char>,
)
    ensures
        c_family::in_type(scopes(above, source), symbols_of(earlier, file, source)) == is_in_type(
            above,
            earlier,
            source,
        ),
{
    let scope = scopes(above, source);
    let found = symbols_of(earlier, file, source);
    if c_family::in_type(scope, found) {
        let (i, j) = choose|i: int, j: int|
            0 <= i < scope.len() && 0 <= j < found.len() && c_family::is_type_named(
                #[trigger] found[j],
                #[trigger] scope[i],
            );
        let k = lemma_symbol_from(earlier, file, source, j);
        assert(is_type_of(earlier[k], scope[i], source));
    }
    if is_in_type(above, earlier, source) {
        let (i, j) = choose|i: int, j: int|
            0 <= i < scopes(above, source).len() && 0 <= j < earlier.len() && is_type_of(
                #[trigger] earlier[j],
                #[trigger] scopes(above, source)[i],
                source,
            );
        let k = lemma_symbol_for(earlier, file, source, j);
        assert(c_family::is_type_named(found[k], scope[i]));
    }
}

proof fn lemma_symbol_from(all: Seq<Place>, file: Seq<char>, source: Seq<char>, j: int) -> (k: int)
    requires
        0 <= j < symbols_of(all, file, source).len(),
    ensures
        0 <= k < all.len(),
        symbol_at(all[k], all.take(k), file, source) == Some(symbols_of(all, file, source)[j]),
    decreases all.len(),
{
    reveal(Seq::filter_map);
    if all.len() == 0 {
        assert(with_earlier(all) =~= Seq::empty());
        0
    } else {
        let front = all.drop_last();
        let p = all.last();
        lemma_push(front, p, file, source);
        assert(front.push(p) =~= all);
        if j < symbols_of(front, file, source).len() {
            let k = lemma_symbol_from(front, file, source, j);
            assert(front.take(k) =~= all.take(k));
            k
        } else {
            assert(all.take(all.len() - 1) =~= front);
            all.len() - 1
        }
    }
}

proof fn lemma_symbol_for(all: Seq<Place>, file: Seq<char>, source: Seq<char>, k: int) -> (j: int)
    requires
        0 <= k < all.len(),
        symbol_at(all[k], all.take(k), file, source) is Some,
    ensures
        0 <= j < symbols_of(all, file, source).len(),
        symbol_at(all[k], all.take(k), file, source) == Some(symbols_of(all, file, source)[j]),
    decreases all.len(),
{
    let front = all.drop_last();
    let p = all.last();
    lemma_push(front, p, file, source);
    assert(front.push(p) =~= all);
    if k < front.len() {
        assert(front.take(k) =~= all.take(k));
        lemma_symbol_for(front, file, source, k)
    } else {
        assert(all.take(k) =~= front);
        symbols_of(front, file, source).len() as int
    }
}

/// The scopes and the parent are those that stand around.
spec fn stands_in(
    above: Seq<SyntaxView>,
    file: Seq<char>,
    source: Seq<char>,
    scope: Seq<Seq<char>>,
    parent: Option<Seq<char>>,
) -> bool {
    &&& is_looked_into(above)
    &&& scope == scopes(above, source)
    &&& symbols::scope_symbol(file, scope) == innermost(above, file, source)
    &&& parent == match innermost(above, file, source) {
        Some(q) => Some(symbols::fqn_of(q)),
        None => None,
    }
}

proof fn lemma_stands_below(
    above: Seq<SyntaxView>,
    node: SyntaxView,
    file: Seq<char>,
    source: Seq<char>,
    scope: Seq<Seq<char>>,
    parent: Option<Seq<char>>,
)
    requires
        stands_in(above, file, source, scope, parent),
        node.info.kind != "preproc_include"@,
    ensures
        definition_at(node, source) is None ==> stands_in(
            above.push(node),
            file,
            source,
            scope,
            parent,
        ),
        definition_at(node, source) matches Some((name, prefix)) ==> stands_in(
            above.push(node),
            file,
            source,
            (scope + prefix).push(name),
            Some(
                symbols::fqn_of((QualifiedView { file, scope_path: scope + prefix, name })),
            ),
        ),
{
    let inner = above.push(node);
    assert(inner.drop_last() =~= above);
    assert forall|i: int| 0 <= i < inner.len() implies (#[trigger] inner[i]).info.kind
        != "preproc_include"@ by {
        if i < above.len() {
            assert(inner[i] == above[i]);
        }
    }
    if let Some((name, prefix)) = definition_at(node, source) {
        assert((scope + prefix).push(name).drop_last() =~= scope + prefix);
    }
}

#[verifier::rlimit(40)]
proof fn lemma_c_at(
    file: Seq<char>,
    source: Seq<char>,
    node: SyntaxView,
    scope: Seq<Seq<char>>,
    parent: Option<Seq<char>>,
    before: CFound,
    above: Seq<SyntaxView>,
    earlier: Seq<Place>,
)
    requires
        stands_in(above, file, source, scope, parent),
        is_found_in(before, earlier, file, source),
    ensures
        is_found_in(
            c_family::c_found_at(file, source, node, scope, parent, before),
            earlier + places::places_at(node, above),
            file,
            source,
        ),
    decreases node, 0int,
{
    let p = Place { above, node };
    let inner = above.push(node);
    let below = places::places_in(node.children, inner);
    lemma_push(earlier, p, file, source);
    lemma_kinds();
    assert(earlier + places::places_at(node, above) =~= earlier.push(p) + below);
    let role = c_family::c_role(source, node, scope, before);
    if node.info.kind == "preproc_include"@ {
        let after = c_family::c_found_at(file, source, node, scope, parent, before);
        assert(definition_at(node, source) is None);
        assert(callee_at(node, source) is None);
        if included_at(p, source) is Some {
            lemma_import_added(
                before.imports,
                includes(earlier, source),
                included_at(p, source)->0,
            );
        }
        assert(is_found_in(after, earlier.push(p), file, source));
        assert(!is_looked_into(inner)) by {
            assert(inner[above.len() as int] == node);
        }
        lemma_hidden_in(node.children, inner);
        lemma_hidden(after, earlier.push(p), below, file, source);
    } else {
        lemma_stands_below(above, node, file, source, scope, parent);
        lemma_in_type(above, earlier, file, source);
        assert(included_at(p, source) is None);
        match role {
            c_family::CRole::Define { name, kind, scope: own } => {
                let prefix = (definition_at(node, source)->0).1;
                let symbol = crate::parsing::extract::symbol_of(
                    file,
                    node,
                    name,
                    kind,
                    own,
                    parent,
                );
                assert(own =~= scope + prefix);
                assert(definition_at(node, source) == Some((name, prefix)));
                assert(callee_at(node, source) is None);
                assert(symbol_at(p, earlier, file, source) == Some(symbol));
                let middle = before.with_symbol(symbol);
                assert(is_found_in(middle, earlier.push(p), file, source));
                lemma_c_in(
                    file,
                    source,
                    node.children,
                    own.push(name),
                    Some(symbols::fqn_of(symbol.qualified)),
                    middle,
                    inner,
                    earlier.push(p),
                );
            },
            c_family::CRole::Call { callee, import_path } => {
                let added = crate::parsing::extract::calls_of(
                    file,
                    node,
                    callee,
                    import_path,
                    scope,
                );
                let middle = CFound { edges: before.edges + added, ..before };
                assert(definition_at(node, source) is None);
                let func = syntax::field_child(node, Field::Function)->0;
                assert(import_path == c_family::import_for_call(
                    func,
                    source,
                    callee,
                    includes(earlier, source),
                )) by {
                    let q = c_family::qualifier_of(func, source);
                    if q is Some {
                        assert(imports::first_import(before.imports, q->0)
                            == imports::first_import(includes(earlier, source), q->0));
                    }
                    assert(imports::first_import(before.imports, callee)
                        == imports::first_import(includes(earlier, source), callee));
                }
                match call_at(p, earlier, file, source) {
                    Some(e) => {
                        assert(added =~= seq![e]);
                        assert(middle.edges =~= before.edges.push(e));
                    },
                    None => {
                        assert(middle.edges =~= before.edges);
                    },
                }
                assert(is_found_in(middle, earlier.push(p), file, source));
                lemma_c_in(
                    file,
                    source,
                    node.children,
                    scope,
                    parent,
                    middle,
                    inner,
                    earlier.push(p),
                );
            },
            _ => {
                assert(definition_at(node, source) is None);
                assert(callee_at(node, source) is None);
                assert(is_found_in(before, earlier.push(p), file, source));
                lemma_c_in(
                    file,
                    source,
                    node.children,
                    scope,
                    parent,
                    before,
                    inner,
                    earlier.push(p),
                );
            },
        }
    }
}

/// The kinds of nodes differ.
proof fn lemma_kinds()
    ensures
        "preproc_include"@ != "function_definition"@,
        "preproc_include"@ != "class_specifier"@,
        "preproc_include"@ != "struct_specifier"@,
        "preproc_include"@ != "namespace_definition"@,
        "preproc_include"@ != "call_expression"@,
        "function_definition"@ != "class_specifier"@,
        "function_definition"@ != "struct_specifier"@,
        "function_definition"@ != "namespace_definition"@,
        "function_definition"@ != "call_expression"@,
        "class_specifier"@ != "struct_specifier"@,
        "class_specifier"@ != "namespace_definition"@,
        "class_specifier"@ != "call_expression"@,
        "struct_specifier"@ != "namespace_definition"@,
        "struct_specifier"@ != "call_expression"@,
        "namespace_definition"@ != "call_expression"@,
{
    reveal_strlit("preproc_include");
    reveal_strlit("function_definition");
    reveal_strlit("class_specifier");
    reveal_strlit("struct_specifier");
    reveal_strlit("namespace_definition");
    reveal_strlit("call_expression");
    assert("preproc_include"@[0] == 'p');
    assert("function_definition"@[0] == 'f');
    assert("class_specifier"@[1] == 'l');
    assert("call_expression"@[1] == 'a');
    assert("class_specifier"@[0] == 'c');
    assert("call_expression"@[0] == 'c');
    assert("struct_specifier"@[0] == 's');
    assert("namespace_definition"@[0] == 'n');
}

proof fn lemma_c_in(
    file: Seq<char>,
    source: Seq<char>,
    nodes: Seq<SyntaxView>,
    scope: Seq<Seq<char>>,
    parent: Option<Seq<char>>,
    before: CFound,
    above: Seq<SyntaxView>,
    earlier: Seq<Place>,
)
    requires
        stands_in(above, file, source, scope, parent),
        is_found_in(before, earlier, file, source),
    ensures
        is_found_in(
            c_family::c_found_in(file, source, nodes, scope, parent, before),
            earlier + places::places_in(nodes, above),
            file,
            source,
        ),
    decreases nodes, 1int,
{
    if nodes.len() == 0 {
        assert(earlier + places::places_in(nodes, above) =~= earlier);
    } else {
        let middle = c_family::c_found_in(file, source, nodes.drop_last(), scope, parent, before);
        let had = earlier + places::places_in(nodes.drop_last(), above);
        lemma_c_in(file, source, nodes.drop_last(), scope, parent, before, above, earlier);
        lemma_c_at(file, source, nodes.last(), scope, parent, middle, above, had);
        assert(had + places::places_at(nodes.last(), above) =~= earlier + places::places_in(
            nodes,
            above,
        ));
    }
}

// ─── Laws ───

/// Nothing of a C or C++ file is missed and nothing made up: its symbols are its
/// definitions, its edges the calls that stand in one, however deep they stand in
/// other calls, each from the innermost definition around it, and its imports
/// what it includes, all in the order of the source.
pub proof fn law_c_files_are_read_whole(file: Seq<char>, source: Seq<char>, root: SyntaxView)
    ensures
        is_found_in(
            c_family::c_found_at(file, source, root, Seq::empty(), None, CFound::none()),
            places::places_of(root),
            file,
            source,
        ),
{
    reveal(Seq::filter_map);
    let none = Seq::<Place>::empty();
    let top = Seq::<SyntaxView>::empty();
    assert(with_earlier(none) =~= Seq::empty());
    assert(symbols_of(none, file, source) =~= Seq::empty());
    assert(calls_of(none, file, source) =~= Seq::empty());
    assert(includes(none, source) =~= Seq::empty());
    lemma_c_at(file, source, root, Seq::empty(), None, CFound::none(), top, none);
    assert(none + places::places_of(root) =~= places::places_of(root));
}

/// The place is a call of a name below a definition.
pub open spec fn is_call(p: Place, source: Seq<char>) -> bool {
    &&& p.node.info.kind == "call_expression"@
    &&& syntax::field_child(p.node, Field::Function) matches Some(f) && c_family::callee_of(
        f,
        source,
    ) is Some
    &&& is_looked_into(p.above)
    &&& exists|i: int|
        0 <= i < p.above.len() && definition_at(#[trigger] p.above[i], source) is Some
}

proof fn lemma_innermost(above: Seq<SyntaxView>, file: Seq<char>, source: Seq<char>)
    ensures
        innermost(above, file, source) is Some <==> exists|i: int|
            0 <= i < above.len() && definition_at(#[trigger] above[i], source) is Some,
    decreases above.len(),
{
    if above.len() > 0 {
        let front = above.drop_last();
        lemma_innermost(front, file, source);
        assert(above[above.len() - 1] == above.last());
        if exists|i: int| 0 <= i < front.len() && definition_at(#[trigger] front[i], source) is Some {
            let i = choose|i: int|
                0 <= i < front.len() && definition_at(#[trigger] front[i], source) is Some;
            assert(above[i] == front[i]);
        }
        if exists|i: int| 0 <= i < above.len() && definition_at(#[trigger] above[i], source) is Some {
            let i = choose|i: int|
                0 <= i < above.len() && definition_at(#[trigger] above[i], source) is Some;
            if i < front.len() {
                assert(front[i] == above[i]);
            }
        }
    }
}

proof fn lemma_call_count(all: Seq<Place>, file: Seq<char>, source: Seq<char>)
    ensures
        calls_of(all, file, source).len() == all.filter(|p: Place| is_call(p, source)).len(),
    decreases all.len(),
{
    reveal(Seq::filter);
    reveal(Seq::filter_map);
    if all.len() == 0 {
        assert(with_earlier(all) =~= Seq::empty());
    } else {
        let front = all.drop_last();
        let p = all.last();
        lemma_call_count(front, file, source);
        lemma_push(front, p, file, source);
        assert(front.push(p) =~= all);
        lemma_innermost(p.above, file, source);
    }
}

/// As many edges as calls: every call of a name that stands below a definition
/// gives one edge, wherever it stands, and nothing else does.
pub proof fn law_c_edges_are_as_many_as_calls(
    file: Seq<char>,
    source: Seq<char>,
    root: SyntaxView,
)
    ensures
        c_family::c_found_at(
            file,
            source,
            root,
            Seq::empty(),
            None,
            CFound::none(),
        ).edges.len() == places::places_of(root).filter(|p: Place| is_call(p, source)).len(),
{
    law_c_files_are_read_whole(file, source, root);
    lemma_call_count(places::places_of(root), file, source);
}

proof fn lemma_call_for(all: Seq<Place>, file: Seq<char>, source: Seq<char>, k: int) -> (j: int)
    requires
        0 <= k < all.len(),
        call_at(all[k], all.take(k), file, source) is Some,
    ensures
        0 <= j < calls_of(all, file, source).len(),
        call_at(all[k], all.take(k), file, source) == Some(calls_of(all, file, source)[j]),
    decreases all.len(),
{
    let front = all.drop_last();
    let p = all.last();
    lemma_push(front, p, file, source);
    assert(front.push(p) =~= all);
    if k < front.len() {
        assert(front.take(k) =~= all.take(k));
        lemma_call_for(front, file, source, k)
    } else {
        assert(all.take(k) =~= front);
        calls_of(front, file, source).len() as int
    }
}

/// Every call below a definition gives an edge with the callee's name and the
/// call's line, from the innermost definition around it, whatever else stands
/// between the two.
pub proof fn law_c_every_call_gives_an_edge(
    file: Seq<char>,
    source: Seq<char>,
    root: SyntaxView,
    p: Place,
    name: Seq<char>,
    prefix: Seq<Seq<char>>,
    i: int,
)
    requires
        places::places_of(root).contains(p),
        is_looked_into(p.above),
        p.node.info.kind == "call_expression"@,
        syntax::field_child(p.node, Field::Function) is Some,
        0 <= i < p.above.len(),
        definition_at(p.above[i], source) == Some((name, prefix)),
        forall|k: int| i < k < p.above.len() ==> definition_at(#[trigger] p.above[k], source) is None,
    ensures
        ({
            let found = c_family::c_found_at(
                file,
                source,
                root,
                Seq::empty(),
                None,
                CFound::none(),
            );
            c_family::callee_of(syntax::field_child(p.node, Field::Function)->0, source) matches Some(
                callee,
            ) ==> exists|j: int|
                0 <= j < found.edges.len() && {
                    let e = #[trigger] found.edges[j];
                    &&& e.kind == EdgeKind::Calls
                    &&& e.line == line_at(p.node.info.start_row)
                    &&& e.from.file == file
                    &&& e.from.name == name
                    &&& e.from.scope_path == scopes(p.above.take(i), source) + prefix
                    &&& e.to matches TargetView::Unresolved { name: to, .. } && to == callee
                }
        }),
{
    let all = places::places_of(root);
    law_c_files_are_read_whole(file, source, root);
    let k = choose|k: int| 0 <= k < all.len() && all[k] == p;
    lemma_innermost_is(p.above, file, source, i);
    if callee_at(p.node, source) is Some {
        let j = lemma_call_for(all, file, source, k);
    }
}

proof fn lemma_innermost_is(
    above: Seq<SyntaxView>,
    file: Seq<char>,
    source: Seq<char>,
    i: int,
)
    requires
        0 <= i < above.len(),
        definition_at(above[i], source) is Some,
        forall|k: int| i < k < above.len() ==> definition_at(#[trigger] above[k], source) is None,
    ensures
        innermost(above, file, source) == Some(
            QualifiedView {
                file,
                scope_path: scopes(above.take(i), source) + (definition_at(
                    above[i],
                    source,
                )->0).1,
                name: (definition_at(above[i], source)->0).0,
            },
        ),
    decreases above.len(),
{
    let front = above.drop_last();
    if i == above.len() - 1 {
        assert(above.take(i) =~= front);
    } else {
        assert(definition_at(above[above.len() - 1], source) is None);
        assert forall|k: int| i < k < front.len() implies definition_at(
            #[trigger] front[k],
            source,
        ) is None by {
            assert(front[k] == above[k]);
        }
        lemma_innermost_is(front, file, source, i);
        assert(front.take(i) =~= above.take(i));
    }
}

}
