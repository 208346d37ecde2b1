//! What is found of a Python, JavaScript, Rust, Go or Java file, told from the
//! places of its tree.
use vstd::prelude::*;

use crate::parsing::c_laws;
use crate::parsing::extract::{Family, Found};
use crate::parsing::places::Place;
use crate::parsing::relations::{EdgeKind, EdgeView, TargetView};
use crate::parsing::symbols::{QualifiedView, SymbolKind, SymbolView};
use crate::parsing::syntax::{Field, RowView, SyntaxView};
use crate::parsing::{extract, grammars, places, symbols, syntax, Lang};

verus! {

// ─── Nodes ───

/// The kinds of nodes that define what their `name` child names.
pub open spec fn is_naming(family: Family, kind: Seq<char>) -> bool {
    match family {
        Family::Python => kind == "function_definition"@ || kind == "async_function_definition"@
            || kind == "class_definition"@,
        Family::JavaScript => kind == "function_declaration"@ || kind == "function"@ || kind
            == "class_declaration"@ || kind == "class"@,
        Family::Rust => kind == "function_item"@ || kind == "struct_item"@ || kind
            == "trait_item"@ || kind == "mod_item"@,
        Family::Go => kind == "function_declaration"@ || kind == "method_declaration"@,
        Family::Java => kind == "class_declaration"@ || kind == "interface_declaration"@ || kind
            == "method_declaration"@ || kind == "constructor_declaration"@,
    }
}

/// What a definition without a name is called, where it counts at all.
pub open spec fn nameless(family: Family) -> Option<Seq<char>> {
    match family {
        Family::JavaScript => Some("<anonymous>"@),
        Family::Go => Some("<anon>"@),
        _ => None,
    }
}

/// The name under which the node is a definition.
pub open spec fn definition_at(family: Family, node: SyntaxView, source: Seq<char>) -> Option<
    Seq<char>,
> {
    let kind = node.info.kind;
    if is_naming(family, kind) {
        match syntax::field_child(node, Field::Name) {
            Some(n) => Some(syntax::text_of(n, source)),
            None => nameless(family),
        }
    } else if family == Family::Rust && kind == "impl_item"@ {
        match syntax::field_child(node, Field::Type) {
            Some(n) => Some("impl_"@ + syntax::text_of(n, source)),
            None => Some("impl_"@ + "impl"@),
        }
    } else {
        None
    }
}

/// Nothing below the node counts: a definition that has no name where it needs one,
/// a struct of Rust, or a list of types of Go.
pub open spec fn is_closed(family: Family, node: SyntaxView, source: Seq<char>) -> bool {
    let kind = node.info.kind;
    ||| is_naming(family, kind) && definition_at(family, node, source) is None
    ||| family == Family::Rust && kind == "struct_item"@
    ||| family == Family::Go && kind == "type_declaration"@
}

/// What a call calls: the text of its callee.
pub open spec fn callee_at(family: Family, node: SyntaxView, source: Seq<char>) -> Option<
    Seq<char>,
> {
    let kind = node.info.kind;
    let (call, field) = match family {
        Family::Python => ("call"@, Field::Function),
        Family::Java => ("method_invocation"@, Field::Name),
        _ => ("call_expression"@, Field::Function),
    };
    match syntax::field_child(node, field) {
        Some(n) => if kind == call {
            Some(syntax::text_of(n, source))
        } else {
            None
        },
        None => None,
    }
}

// ─── What stands around a place ───

/// No node around hides what is below it.
pub open spec fn is_looked_into(
    family: Family,
    above: Seq<SyntaxView>,
    source: Seq<char>,
) -> bool {
    forall|i: int| 0 <= i < above.len() ==> !is_closed(family, #[trigger] above[i], source)
}

/// The names of the definitions around, the outermost first.
pub open spec fn scopes(family: Family, above: Seq<SyntaxView>, source: Seq<char>) -> Seq<
    Seq<char>,
> {
    above.filter_map(|n: SyntaxView| definition_at(family, n, source))
}

/// The innermost definition around: the last of the scopes in the others.
pub open spec fn innermost(
    family: Family,
    above: Seq<SyntaxView>,
    file: Seq<char>,
    source: Seq<char>,
) -> Option<QualifiedView> {
    let all = scopes(family, above, source);
    if all.len() > 0 {
        Some(QualifiedView { file, scope_path: all.drop_last(), name: all.last() })
    } else {
        None
    }
}

/// Inside of anything a function is a method; in Rust, inside of an `impl` block.
pub open spec fn kind_at(
    family: Family,
    node: SyntaxView,
    above: Seq<SyntaxView>,
    source: Seq<char>,
) -> SymbolKind {
    let kind = node.info.kind;
    let around = scopes(family, above, source);
    if kind == "class_definition"@ || kind == "class_declaration"@ || kind == "class"@ {
        SymbolKind::Class
    } else if kind == "struct_item"@ {
        SymbolKind::Struct
    } else if kind == "trait_item"@ {
        SymbolKind::Trait
    } else if kind == "mod_item"@ {
        SymbolKind::Module
    } else if kind == "impl_item"@ {
        SymbolKind::Impl
    } else if kind == "interface_declaration"@ {
        SymbolKind::Interface
    } else if kind == "method_declaration"@ || kind == "constructor_declaration"@ {
        SymbolKind::Method
    } else if family == Family::Go {
        SymbolKind::Function
    } else if family == Family::Rust {
        if exists|i: int| 0 <= i < around.len() && "impl"@.is_prefix_of(#[trigger] around[i]) {
            SymbolKind::Method
        } else {
            SymbolKind::Function
        }
    } else if around.len() > 0 {
        SymbolKind::Method
    } else {
        SymbolKind::Function
    }
}

// ─── What a place yields ───

pub open spec fn made(
    family: Family,
    p: Place,
    file: Seq<char>,
    source: Seq<char>,
    name: Seq<char>,
    kind: SymbolKind,
) -> SymbolView {
    SymbolView {
        qualified: QualifiedView { file, scope_path: scopes(family, p.above, source), name },
        kind,
        line_start: c_laws::line_at(p.node.info.start_row),
        line_end: c_laws::line_at(p.node.info.end_row),
        signature: None,
        parent_fqn: match innermost(family, p.above, file, source) {
            Some(q) => Some(symbols::fqn_of(q)),
            None => None,
        },
    }
}

/// The definition that the place is; in a list of types of Go, each type that has a
/// name.
pub open spec fn symbol_at(family: Family, p: Place, file: Seq<char>, source: Seq<char>) -> Option<
    SymbolView,
> {
    if is_looked_into(family, p.above, source) {
        match definition_at(family, p.node, source) {
            Some(name) => Some(
                made(family, p, file, source, name, kind_at(family, p.node, p.above, source)),
            ),
            None => None,
        }
    } else if family == Family::Go && p.above.len() > 0 && p.above.last().info.kind
        == "type_declaration"@ && is_looked_into(family, p.above.drop_last(), source)
        && p.node.info.kind == "type_spec"@ {
        match syntax::field_child(p.node, Field::Name) {
            Some(n) => Some(
                made(family, p, file, source, syntax::text_of(n, source), SymbolKind::Struct),
            ),
            None => None,
        }
    } else {
        None
    }
}

/// The call that the place is: from the innermost definition around it.
pub open spec fn call_at(family: Family, p: Place, file: Seq<char>, source: Seq<char>) -> Option<
    EdgeView,
> {
    match (callee_at(family, p.node, source), innermost(family, p.above, file, source)) {
        (Some(name), Some(from)) => if is_looked_into(family, p.above, source) {
            Some(
                EdgeView {
                    from,
                    to: TargetView::Unresolved { name, import_path: None, qualifier: None },
                    kind: EdgeKind::Calls,
                    line: c_laws::line_at(p.node.info.start_row),
                },
            )
        } else {
            None
        },
        _ => None,
    }
}

pub open spec fn symbols_of(
    family: Family,
    all: Seq<Place>,
    file: Seq<char>,
    source: Seq<char>,
) -> Seq<SymbolView> {
    all.filter_map(|p: Place| symbol_at(family, p, file, source))
}

pub open spec fn calls_of(
    family: Family,
    all: Seq<Place>,
    file: Seq<char>,
    source: Seq<char>,
) -> Seq<EdgeView> {
    all.filter_map(|p: Place| call_at(family, p, file, source))
}

// ─── Proof ───

proof fn lemma_filter_map_add<A, B>(a: Seq<A>, b: Seq<A>, f: spec_fn(A) -> Option<B>)
    ensures
        (a + b).filter_map(f) == a.filter_map(f) + b.filter_map(f),
    decreases b.len(),
{
    reveal(Seq::filter_map);
    if b.len() == 0 {
        assert(a + b =~= a);
        assert(b.filter_map(f) =~= Seq::empty());
        assert(a.filter_map(f) + b.filter_map(f) =~= a.filter_map(f));
    } else {
        let front = b.drop_last();
        lemma_filter_map_add(a, front, f);
        assert((a + b).drop_last() =~= a + front);
        assert((a + b).last() == b.last());
        assert((a + b).filter_map(f) =~= a.filter_map(f) + b.filter_map(f));
    }
}

proof fn lemma_filter_map_one<A, B>(a: A, f: spec_fn(A) -> Option<B>)
    ensures
        seq![a].filter_map(f) == match f(a) {
            Some(b) => seq![b],
            None => Seq::empty(),
        },
{
    reveal(Seq::filter_map);
    let one = seq![a];
    assert(one.drop_last() =~= Seq::empty());
    assert(one.drop_last().filter_map(f) =~= Seq::empty());
    assert(one.last() == a);
    assert(one.filter_map(f) =~= match f(a) {
        Some(b) => seq![b],
        None => Seq::empty(),
    });
}

proof fn lemma_filter_map_none<A, B>(all: Seq<A>, f: spec_fn(A) -> Option<B>)
    requires
        forall|i: int| 0 <= i < all.len() ==> f(#[trigger] all[i]) is None,
    ensures
        all.filter_map(f) == Seq::<B>::empty(),
    decreases all.len(),
{
    reveal(Seq::filter_map);
    if all.len() > 0 {
        let front = all.drop_last();
        assert forall|i: int| 0 <= i < front.len() implies f(#[trigger] front[i]) is None by {
            assert(front[i] == all[i]);
        }
        lemma_filter_map_none(front, f);
        assert(f(all[all.len() - 1]) is None);
        assert(all.filter_map(f) =~= Seq::empty());
    } else {
        assert(all.filter_map(f) =~= Seq::empty());
    }
}

/// All places below have the given nodes above them, and more.
proof fn lemma_above_at(node: SyntaxView, above: Seq<SyntaxView>)
    ensures
        forall|i: int|
            0 <= i < places::places_at(node, above).len() ==> above.is_prefix_of(
                (#[trigger] places::places_at(node, above)[i]).above,
            ),
    decreases node, 0int,
{
    let all = places::places_at(node, above);
    let inner = above.push(node);
    lemma_above_in(node.children, inner);
    assert forall|i: int| 0 <= i < all.len() implies above.is_prefix_of(
        (#[trigger] all[i]).above,
    ) by {
        if i == 0 {
            assert(above =~= above.subrange(0, above.len() as int));
        } else {
            let q = places::places_in(node.children, inner)[i - 1];
            assert(all[i] == q);
            assert(inner.is_prefix_of(q.above));
            assert(above =~= q.above.subrange(0, above.len() as int)) by {
                assert forall|k: int| 0 <= k < above.len() implies above[k] == q.above[k] by {
                    assert(inner[k] == q.above.subrange(0, inner.len() as int)[k]);
                }
            }
        }
    }
}

proof fn lemma_above_in(nodes: Seq<SyntaxView>, above: Seq<SyntaxView>)
    ensures
        forall|i: int|
            0 <= i < places::places_in(nodes, above).len() ==> above.is_prefix_of(
                (#[trigger] places::places_in(nodes, above)[i]).above,
            ),
    decreases nodes, 1int,
{
    if nodes.len() > 0 {
        let all = places::places_in(nodes, above);
        let before = places::places_in(nodes.drop_last(), above);
        lemma_above_in(nodes.drop_last(), above);
        lemma_above_at(nodes.last(), above);
        assert forall|i: int| 0 <= i < all.len() implies above.is_prefix_of(
            (#[trigger] all[i]).above,
        ) by {
            if i < before.len() {
                assert(all[i] == before[i]);
            } else {
                assert(all[i] == places::places_at(nodes.last(), above)[i - before.len()]);
            }
        }
    }
}

proof fn lemma_hidden(
    family: Family,
    above: Seq<SyntaxView>,
    longer: Seq<SyntaxView>,
    source: Seq<char>,
)
    requires
        !is_looked_into(family, above, source),
        above.is_prefix_of(longer),
    ensures
        !is_looked_into(family, longer, source),
{
    let i = choose|i: int|
        0 <= i < above.len() && is_closed(family, #[trigger] above[i], source);
    assert(above[i] == longer.subrange(0, above.len() as int)[i]);
    assert(longer[i] == above[i]);
}

/// What stands below a closed node yields no calls, and no symbols but the types
/// of a list of types.
proof fn lemma_nothing_below(
    family: Family,
    nodes: Seq<SyntaxView>,
    above: Seq<SyntaxView>,
    file: Seq<char>,
    source: Seq<char>,
)
    requires
        !is_looked_into(family, above, source),
    ensures
        calls_of(family, places::places_in(nodes, above), file, source) == Seq::<EdgeView>::empty(),
        !(family == Family::Go && above.len() > 0 && above.last().info.kind == "type_declaration"@
            && is_looked_into(family, above.drop_last(), source)) ==> symbols_of(
            family,
            places::places_in(nodes, above),
            file,
            source,
        ) == Seq::<SymbolView>::empty(),
{
    let all = places::places_in(nodes, above);
    lemma_above_in(nodes, above);
    let f = |p: Place| call_at(family, p, file, source);
    let g = |p: Place| symbol_at(family, p, file, source);
    assert forall|i: int| 0 <= i < all.len() implies f(#[trigger] all[i]) is None by {
        lemma_hidden(family, above, all[i].above, source);
    }
    lemma_filter_map_none(all, f);
    if !(family == Family::Go && above.len() > 0 && above.last().info.kind == "type_declaration"@
        && is_looked_into(family, above.drop_last(), source)) {
        assert forall|i: int| 0 <= i < all.len() implies g(#[trigger] all[i]) is None by {
            lemma_hidden(family, above, all[i].above, source);
            lemma_no_type(family, above, all[i], file, source);
        }
        lemma_filter_map_none(all, g);
    }
}

proof fn lemma_no_type(
    family: Family,
    above: Seq<SyntaxView>,
    p: Place,
    file: Seq<char>,
    source: Seq<char>,
)
    requires
        !is_looked_into(family, above, source),
        above.is_prefix_of(p.above),
        p.above != above || !(family == Family::Go && above.len() > 0 && above.last().info.kind
            == "type_declaration"@ && is_looked_into(family, above.drop_last(), source)),
    ensures
        symbol_at(family, p, file, source) is None,
{
    lemma_hidden(family, above, p.above, source);
    if p.above.len() > above.len() {
        let front = p.above.drop_last();
        assert(above =~= front.subrange(0, above.len() as int)) by {
            assert forall|k: int| 0 <= k < above.len() implies above[k] == front[k] by {
                assert(above[k] == p.above.subrange(0, above.len() as int)[k]);
            }
        }
        lemma_hidden(family, above, front, source);
    } else {
        assert(p.above =~= above) by {
            assert(above == p.above.subrange(0, above.len() as int));
        }
    }
}

/// The types of a list are the type nodes directly below it.
proof fn lemma_types(
    nodes: Seq<SyntaxView>,
    above: Seq<SyntaxView>,
    file: Seq<char>,
    source: Seq<char>,
    scope: Seq<Seq<char>>,
    parent: Option<Seq<char>>,
)
    requires
        above.len() > 0,
        above.last().info.kind == "type_declaration"@,
        is_looked_into(Family::Go, above.drop_last(), source),
        scope == scopes(Family::Go, above, source),
        parent == match innermost(Family::Go, above, file, source) {
            Some(q) => Some(symbols::fqn_of(q)),
            None => None,
        },
    ensures
        symbols_of(Family::Go, places::places_in(nodes, above), file, source) == extract::types_in(
            file,
            source,
            nodes,
            scope,
            parent,
        ),
    decreases nodes.len(),
{
    let g = |p: Place| symbol_at(Family::Go, p, file, source);
    assert(!is_looked_into(Family::Go, above, source)) by {
        assert(is_closed(Family::Go, above[above.len() - 1], source));
    }
    let all = places::places_in(nodes, above);
    if nodes.len() == 0 {
        reveal(Seq::filter_map);
        assert(all.filter_map(g) =~= Seq::empty());
    } else {
        let node = nodes.last();
        let before = places::places_in(nodes.drop_last(), above);
        lemma_types(nodes.drop_last(), above, file, source, scope, parent);
        lemma_filter_map_add(before, places::places_at(node, above), g);
        let one = seq![Place { above, node }];
        let below = places::places_in(node.children, above.push(node));
        lemma_filter_map_add(one, below, g);
        lemma_filter_map_one(Place { above, node }, g);
        lemma_above_in(node.children, above.push(node));
        assert forall|i: int| 0 <= i < below.len() implies g(#[trigger] below[i]) is None by {
            let q = below[i];
            assert(above.push(node).is_prefix_of(q.above));
            assert(above =~= q.above.subrange(0, above.len() as int)) by {
                assert forall|k: int| 0 <= k < above.len() implies above[k] == q.above[k] by {
                    assert(above.push(node)[k] == q.above.subrange(0, above.push(node).len() as int)[k]);
                }
            }
            lemma_no_type(Family::Go, above, q, file, source);
        }
        lemma_filter_map_none(below, g);
        assert(all.filter_map(g) =~= extract::types_in(file, source, nodes, scope, parent));
    }
}

spec fn stands_in(
    family: Family,
    above: Seq<SyntaxView>,
    file: Seq<char>,
    source: Seq<char>,
    scope: Seq<Seq<char>>,
    parent: Option<Seq<char>>,
) -> bool {
    &&& is_looked_into(family, above, source)
    &&& scope == scopes(family, above, source)
    &&& parent == match innermost(family, above, file, source) {
        Some(q) => Some(symbols::fqn_of(q)),
        None => None,
    }
}

proof fn lemma_scopes_push(
    family: Family,
    above: Seq<SyntaxView>,
    node: SyntaxView,
    source: Seq<char>,
)
    ensures
        scopes(family, above.push(node), source) == match definition_at(family, node, source) {
            Some(name) => scopes(family, above, source).push(name),
            None => scopes(family, above, source),
        },
        is_looked_into(family, above.push(node), source) <==> is_looked_into(family, above, source)
            && !is_closed(family, node, source),
{
    let f = |n: SyntaxView| definition_at(family, n, source);
    let inner = above.push(node);
    lemma_filter_map_add(above, seq![node], f);
    lemma_filter_map_one(node, f);
    assert(inner =~= above + seq![node]);
    assert(scopes(family, inner, source) =~= match definition_at(family, node, source) {
        Some(name) => scopes(family, above, source).push(name),
        None => scopes(family, above, source),
    });
    if is_looked_into(family, inner, source) {
        assert forall|i: int| 0 <= i < above.len() implies !is_closed(
            family,
            #[trigger] above[i],
            source,
        ) by {
            assert(inner[i] == above[i]);
        }
        assert(inner[above.len() as int] == node);
    }
    if is_looked_into(family, above, source) && !is_closed(family, node, source) {
        assert forall|i: int| 0 <= i < inner.len() implies !is_closed(
            family,
            #[trigger] inner[i],
            source,
        ) by {
            if i < above.len() {
                assert(inner[i] == above[i]);
            }
        }
    }
}

spec fn is_found(
    family: Family,
    found: Found,
    all: Seq<Place>,
    file: Seq<char>,
    source: Seq<char>,
) -> bool {
    &&& found.symbols == symbols_of(family, all, file, source)
    &&& found.edges == calls_of(family, all, file, source)
}

/// The tables agree with the roles.
proof fn lemma_roles(
    family: Family,
    node: SyntaxView,
    source: Seq<char>,
    above: Seq<SyntaxView>,
)
    ensures
        ({
            let scope = scopes(family, above, source);
            let name = definition_at(family, node, source);
            match extract::role_of(family, node, source, scope) {
                extract::RoleView::Skip => name is None && is_closed(family, node, source)
                    && callee_at(family, node, source) is None && !(family == Family::Go
                    && node.info.kind == "type_declaration"@),
                extract::RoleView::Descend => name is None && !is_closed(family, node, source)
                    && callee_at(family, node, source) is None,
                extract::RoleView::Define { name: n, kind, opens } => name == Some(n) && kind
                    == kind_at(family, node, above, source) && opens == !is_closed(
                    family,
                    node,
                    source,
                ) && callee_at(family, node, source) is None && !(family == Family::Go
                    && node.info.kind == "type_declaration"@),
                extract::RoleView::Call { callee } => name is None && !is_closed(
                    family,
                    node,
                    source,
                ) && callee_at(family, node, source) == Some(callee),
                extract::RoleView::TypeGroup => name is None && family == Family::Go
                    && node.info.kind == "type_declaration"@ && callee_at(family, node, source) is None,
            }
        }),
{
    reveal_strlit("function_definition");
    reveal_strlit("async_function_definition");
    reveal_strlit("class_definition");
    reveal_strlit("call");
    reveal_strlit("function_declaration");
    reveal_strlit("function");
    reveal_strlit("class_declaration");
    reveal_strlit("class");
    reveal_strlit("call_expression");
    reveal_strlit("function_item");
    reveal_strlit("struct_item");
    reveal_strlit("trait_item");
    reveal_strlit("impl_item");
    reveal_strlit("mod_item");
    reveal_strlit("method_declaration");
    reveal_strlit("type_declaration");
    reveal_strlit("interface_declaration");
    reveal_strlit("constructor_declaration");
    reveal_strlit("method_invocation");
    assert("function_definition"@.len() == 19);
    assert("async_function_definition"@.len() == 25);
    assert("class_definition"@.len() == 16);
    assert("call"@.len() == 4);
    assert("function_declaration"@.len() == 20);
    assert("function"@.len() == 8);
    assert("class_declaration"@.len() == 17);
    assert("class"@.len() == 5);
    assert("call_expression"@.len() == 15);
    assert("function_item"@.len() == 13);
    assert("struct_item"@.len() == 11);
    assert("trait_item"@.len() == 10);
    assert("impl_item"@.len() == 9);
    assert("mod_item"@.len() == 8);
    assert("method_declaration"@.len() == 18);
    assert("type_declaration"@.len() == 16);
    assert("interface_declaration"@.len() == 21);
    assert("constructor_declaration"@.len() == 23);
    assert("method_invocation"@.len() == 17);
    assert("class_definition"@[0] == 'c');
    assert("type_declaration"@[0] == 't');
    assert("class_declaration"@[0] == 'c');
    assert("method_invocation"@[0] == 'm');
    assert("function"@[0] == 'f');
    assert("mod_item"@[0] == 'm');
}

proof fn lemma_at(
    family: Family,
    file: Seq<char>,
    source: Seq<char>,
    node: SyntaxView,
    scope: Seq<Seq<char>>,
    parent: Option<Seq<char>>,
    above: Seq<SyntaxView>,
)
    requires
        stands_in(family, above, file, source, scope, parent),
    ensures
        is_found(
            family,
            extract::found_at(family, file, source, node, scope, parent),
            places::places_at(node, above),
            file,
            source,
        ),
    decreases node, 0int,
{
    let p = Place { above, node };
    let inner = above.push(node);
    let below = places::places_in(node.children, inner);
    let f = |p: Place| call_at(family, p, file, source);
    let g = |p: Place| symbol_at(family, p, file, source);
    lemma_filter_map_add(seq![p], below, f);
    lemma_filter_map_add(seq![p], below, g);
    lemma_filter_map_one(p, f);
    lemma_filter_map_one(p, g);
    lemma_roles(family, node, source, above);
    lemma_scopes_push(family, above, node, source);
    assert(inner.drop_last() =~= above);
    assert(inner.last() == node);
    let found = extract::found_at(family, file, source, node, scope, parent);
    match extract::role_of(family, node, source, scope) {
        extract::RoleView::Skip => {
            lemma_nothing_below(family, node.children, inner, file, source);
        },
        extract::RoleView::Descend => {
            lemma_in(family, file, source, node.children, scope, parent, inner);
        },
        extract::RoleView::Define { name, kind, opens } => {
            let symbol = extract::symbol_of(file, node, name, kind, scope, parent);
            assert(symbol_at(family, p, file, source) == Some(symbol));
            if opens {
                assert(scope.push(name).drop_last() =~= scope);
                lemma_in(
                    family,
                    file,
                    source,
                    node.children,
                    scope.push(name),
                    Some(symbols::fqn_of(symbol.qualified)),
                    inner,
                );
            } else {
                lemma_nothing_below(family, node.children, inner, file, source);
            }
        },
        extract::RoleView::Call { callee } => {
            lemma_in(family, file, source, node.children, scope, parent, inner);
        },
        extract::RoleView::TypeGroup => {
            assert(is_closed(family, node, source));
            lemma_nothing_below(family, node.children, inner, file, source);
            lemma_types(node.children, inner, file, source, scope, parent);
        },
    }
    assert(found.symbols =~= symbols_of(family, places::places_at(node, above), file, source));
    assert(found.edges =~= calls_of(family, places::places_at(node, above), file, source));
}

proof fn lemma_in(
    family: Family,
    file: Seq<char>,
    source: Seq<char>,
    nodes: Seq<SyntaxView>,
    scope: Seq<Seq<char>>,
    parent: Option<Seq<char>>,
    above: Seq<SyntaxView>,
)
    requires
        stands_in(family, above, file, source, scope, parent),
    ensures
        is_found(
            family,
            extract::found_in(family, file, source, nodes, scope, parent),
            places::places_in(nodes, above),
            file,
            source,
        ),
    decreases nodes, 1int,
{
    let f = |p: Place| call_at(family, p, file, source);
    let g = |p: Place| symbol_at(family, p, file, source);
    if nodes.len() == 0 {
        reveal(Seq::filter_map);
        let none = places::places_in(nodes, above);
        assert(none.filter_map(f) =~= Seq::empty());
        assert(none.filter_map(g) =~= Seq::empty());
    } else {
        let before = places::places_in(nodes.drop_last(), above);
        let last = places::places_at(nodes.last(), above);
        lemma_in(family, file, source, nodes.drop_last(), scope, parent, above);
        lemma_at(family, file, source, nodes.last(), scope, parent, above);
        lemma_filter_map_add(before, last, f);
        lemma_filter_map_add(before, last, g);
    }
}

// ─── Laws ───

/// Nothing of a file is missed and nothing made up: its symbols are its
/// definitions, its edges the calls that stand in one, however deep they stand in
/// other calls, each from the innermost definition around it, all in the order of
/// the source.
pub proof fn law_files_are_read_whole(
    family: Family,
    file: Seq<char>,
    source: Seq<char>,
    root: SyntaxView,
)
    ensures
        ({
            let found = extract::found_at(family, file, source, root, Seq::empty(), None);
            &&& found.symbols == symbols_of(family, places::places_of(root), file, source)
            &&& found.edges == calls_of(family, places::places_of(root), file, source)
        }),
{
    reveal(Seq::filter_map);
    let top = Seq::<SyntaxView>::empty();
    assert(scopes(family, top, source) =~= Seq::empty());
    lemma_at(family, file, source, root, Seq::empty(), None, top);
}

/// The language of a file decides by which rules it is read: each with a grammar
/// of its own by its own, TypeScript by those of JavaScript, and C by those of
/// C++; what is in no known language yields nothing.
pub proof fn law_languages_are_read_by_their_rules(
    lang: Lang,
    file: Seq<char>,
    source: Seq<char>,
    rows: Seq<RowView>,
)
    requires
        rows.len() > 0,
    ensures
        ({
            let root = syntax::tree_from(rows)->0;
            let all = places::places_of(root);
            let found = crate::parsing::found_in_rows(lang, file, source, Some(rows));
            let ruled = |family: Family|
                found.symbols == symbols_of(family, all, file, source) && found.edges == calls_of(
                    family,
                    all,
                    file,
                    source,
                ) && found.imports.len() == 0;
            match lang {
                Lang::Python => ruled(Family::Python),
                Lang::JavaScript => ruled(Family::JavaScript),
                Lang::TypeScript => ruled(Family::JavaScript),
                Lang::Tsx => ruled(Family::JavaScript),
                Lang::Rust => ruled(Family::Rust),
                Lang::Go => ruled(Family::Go),
                Lang::Java => ruled(Family::Java),
                Lang::C => c_laws::is_found_in(found, all, file, source),
                Lang::Cpp => c_laws::is_found_in(found, all, file, source),
                Lang::Other => found.symbols.len() == 0 && found.edges.len() == 0
                    && found.imports.len() == 0,
            }
        }),
{
    let root = syntax::tree_from(rows)->0;
    law_files_are_read_whole(Family::Python, file, source, root);
    law_files_are_read_whole(Family::JavaScript, file, source, root);
    law_files_are_read_whole(Family::Rust, file, source, root);
    law_files_are_read_whole(Family::Go, file, source, root);
    law_files_are_read_whole(Family::Java, file, source, root);
    c_laws::law_c_files_are_read_whole(file, source, root);
}

/// The extension of a file decides by which grammar it is parsed and by which rules
/// it is read; `.tsx` files are parsed as JavaScript.
pub proof fn law_files_are_read_by_their_extension(file: Seq<char>, source: Seq<char>, lang: Lang)
    requires
        lang == crate::parsing::lang_of(crate::paths::extension_of(file)),
    ensures
        crate::parsing::found_in_file(file, source) == crate::parsing::found_in_rows(
            lang,
            file,
            source,
            match lang {
                Lang::Python => grammars::python_tree(source),
                Lang::JavaScript => grammars::javascript_tree(source),
                Lang::Tsx => grammars::javascript_tree(source),
                Lang::TypeScript => grammars::typescript_tree(source),
                Lang::Rust => grammars::rust_tree(source),
                Lang::Go => grammars::go_tree(source),
                Lang::Java => grammars::java_tree(source),
                Lang::C => grammars::c_tree(source),
                Lang::Cpp => grammars::cpp_tree(source),
                Lang::Other => None,
            },
        ),
        crate::parsing::found_in_rows(lang, file, source, None).symbols.len() == 0,
        crate::parsing::found_in_rows(lang, file, source, None).edges.len() == 0,
        crate::parsing::found_in_rows(lang, file, source, None).imports.len() == 0,
{
}

}
