//! Symbols, calls and includes of C and C++.
use vstd::prelude::*;

use crate::parsing::extract::{inner_scope, push_call, push_symbol};
use crate::parsing::imports::ImportMap;
use crate::parsing::relations::RawEdge;
use crate::parsing::symbols::{Symbol, SymbolKind};
use crate::parsing::syntax::{
    child_by_field_name, field_index, field_text, is_kind, node_text, Field, SyntaxNode,
};
use crate::text::{clone_texts, same_text, trim, TrimSet};

verus! {

// ─── Declarators ───

/// `a::b::c` and the like.
pub open spec fn is_qualified(node: crate::parsing::syntax::SyntaxView) -> bool {
    node.info.kind == "qualified_identifier"@
}

/// The rightmost name of a qualified identifier: the grammar holds `a::b::c` as
/// scope `a` and name `b::c`.
pub open spec fn rightmost_of(
    node: crate::parsing::syntax::SyntaxView,
) -> Option<crate::parsing::syntax::SyntaxView>
    decreases node,
{
    let i = crate::parsing::syntax::field_at(node.children, crate::parsing::syntax::Field::Name);
    if 0 <= i < node.children.len() {
        if is_qualified(node.children[i]) {
            rightmost_of(node.children[i])
        } else {
            Some(node.children[i])
        }
    } else {
        None
    }
}

fn rightmost<'a>(node: &'a SyntaxNode) -> (r: Option<&'a SyntaxNode>)
    ensures
        match r {
            Some(leaf) => rightmost_of(node.view()) == Some(leaf.view()),
            None => rightmost_of(node.view()) is None,
        },
    decreases node,
{
    proof {
        crate::parsing::syntax::lemma_children(*node);
    }
    match field_index(node, Field::Name) {
        Some(i) => if is_kind(&node.children[i], "qualified_identifier") {
            rightmost(&node.children[i])
        } else {
            Some(&node.children[i])
        },
        None => None,
    }
}

pub open spec fn is_plain_name(node: crate::parsing::syntax::SyntaxView) -> bool {
    let kind = node.info.kind;
    kind == "identifier"@ || kind == "field_identifier"@ || kind == "destructor_name"@
}

pub open spec fn is_indirection(node: crate::parsing::syntax::SyntaxView) -> bool {
    let kind = node.info.kind;
    kind == "pointer_declarator"@ || kind == "reference_declarator"@ || kind
        == "abstract_reference_declarator"@
}

/// The identifier, plain or qualified, that a declarator declares.
pub open spec fn declared_in(
    node: crate::parsing::syntax::SyntaxView,
) -> Option<crate::parsing::syntax::SyntaxView>
    decreases node, 0int,
{
    if is_plain_name(node) {
        Some(node)
    } else if is_qualified(node) {
        if rightmost_of(node) is Some {
            Some(node)
        } else {
            None
        }
    } else if node.info.kind == "function_declarator"@ {
        let i = crate::parsing::syntax::field_at(node.children, crate::parsing::syntax::Field::Declarator);
        if 0 <= i < node.children.len() {
            declared_in(node.children[i])
        } else {
            None
        }
    } else if is_indirection(node) {
        first_declared(node.children)
    } else {
        None
    }
}

/// What the first of the named nodes that declares anything declares.
pub open spec fn first_declared(
    nodes: Seq<crate::parsing::syntax::SyntaxView>,
) -> Option<crate::parsing::syntax::SyntaxView>
    decreases nodes, 1int,
{
    if nodes.len() == 0 {
        None
    } else if nodes[0].info.named && declared_in(nodes[0]) is Some {
        declared_in(nodes[0])
    } else {
        first_declared(nodes.drop_first())
    }
}

fn declared<'a>(node: &'a SyntaxNode) -> (r: Option<&'a SyntaxNode>)
    ensures
        match r {
            Some(leaf) => declared_in(node.view()) == Some(leaf.view()),
            None => declared_in(node.view()) is None,
        },
    decreases node,
{
    let ghost nodes = node.view().children;
    proof {
        crate::parsing::syntax::lemma_children(*node);
    }
    if is_kind(node, "identifier") || is_kind(node, "field_identifier") || is_kind(
        node,
        "destructor_name",
    ) {
        Some(node)
    } else if is_kind(node, "qualified_identifier") {
        match rightmost(node) {
            Some(_) => Some(node),
            None => None,
        }
    } else if is_kind(node, "function_declarator") {
        match field_index(node, Field::Declarator) {
            Some(i) => declared(&node.children[i]),
            None => None,
        }
    } else if is_kind(node, "pointer_declarator") || is_kind(node, "reference_declarator")
        || is_kind(node, "abstract_reference_declarator") {
        let mut i: usize = 0;
        assert(nodes.skip(0) =~= nodes);
        while i < node.children.len()
            invariant
                nodes == crate::parsing::syntax::node_views(node.children@),
                i <= node.children@.len(),
                first_declared(nodes) == first_declared(nodes.skip(i as int)),
                declared_in(node.view()) == first_declared(nodes),
            decreases node.children@.len() - i,
        {
            assert(nodes.skip(i as int)[0] == node.children@[i as int].view());
            assert(nodes.skip(i as int).drop_first() =~= nodes.skip(i + 1));
            if node.children[i].info.named {
                if let Some(leaf) = declared(&node.children[i]) {
                    return Some(leaf);
                }
            }
            i = i + 1;
        }
        None
    } else {
        None
    }
}

/// The name that a declarator declares, and whether it is written qualified.
pub open spec fn declarator_name_of(
    node: crate::parsing::syntax::SyntaxView,
    source: Seq<char>,
) -> Option<(Seq<char>, bool)> {
    match declared_in(node) {
        Some(leaf) => if is_plain_name(leaf) {
            Some((crate::parsing::syntax::text_of(leaf, source), false))
        } else {
            match rightmost_of(leaf) {
                Some(name) => Some((crate::parsing::syntax::text_of(name, source), true)),
                None => None,
            }
        },
        None => None,
    }
}

/// Drill through nested declarator nodes to find the leaf identifier/name.
/// Returns (name_text, is_qualified) where is_qualified means we saw a
/// qualified_identifier along the way (Foo::bar).
pub fn declarator_name<'a>(node: &SyntaxNode, source: &'a str) -> (r: Option<(&'a str, bool)>)
    ensures
        match r {
            Some((name, qualified)) => declarator_name_of(node.view(), source@) == Some(
                (name@, qualified),
            ),
            None => declarator_name_of(node.view(), source@) is None,
        },
{
    match declared(node) {
        Some(leaf) => if is_kind(leaf, "identifier") || is_kind(leaf, "field_identifier")
            || is_kind(leaf, "destructor_name") {
            Some((node_text(leaf, source), false))
        } else {
            match rightmost(leaf) {
                Some(name) => Some((node_text(name, source), true)),
                None => None,
            }
        },
        None => None,
    }
}

/// The parts of a qualified identifier, left to right.
pub open spec fn scope_parts(
    node: crate::parsing::syntax::SyntaxView,
    source: Seq<char>,
) -> Seq<Seq<char>>
    decreases node,
{
    let kind = node.info.kind;
    if is_qualified(node) {
        let s = crate::parsing::syntax::field_at(node.children, crate::parsing::syntax::Field::Scope);
        let n = crate::parsing::syntax::field_at(node.children, crate::parsing::syntax::Field::Name);
        let left = if 0 <= s < node.children.len() {
            scope_parts(node.children[s], source)
        } else {
            Seq::empty()
        };
        let right = if 0 <= n < node.children.len() {
            if is_qualified(node.children[n]) {
                scope_parts(node.children[n], source)
            } else {
                seq![crate::parsing::syntax::text_of(node.children[n], source)]
            }
        } else {
            Seq::empty()
        };
        left + right
    } else if kind == "identifier"@ || kind == "namespace_identifier"@ || kind
        == "type_identifier"@ {
        seq![crate::parsing::syntax::text_of(node, source)]
    } else {
        Seq::empty()
    }
}

fn collect_scope_parts(node: &SyntaxNode, source: &str, parts: &mut Vec<String>)
    ensures
        crate::text::texts(final(parts)@) == crate::text::texts(old(parts)@) + scope_parts(
            node.view(),
            source@,
        ),
    decreases node,
{
    let ghost before = crate::text::texts(parts@);
    proof {
        crate::parsing::syntax::lemma_children(*node);
    }
    if is_kind(node, "qualified_identifier") {
        if let Some(s) = field_index(node, Field::Scope) {
            collect_scope_parts(&node.children[s], source, parts);
        }
        let ghost middle = crate::text::texts(parts@);
        if let Some(n) = field_index(node, Field::Name) {
            if is_kind(&node.children[n], "qualified_identifier") {
                collect_scope_parts(&node.children[n], source, parts);
            } else {
                parts.push(node_text(&node.children[n], source).to_owned());
                assert(crate::text::texts(parts@) =~= middle.push(parts@.last()@));
            }
        }
    } else if is_kind(node, "identifier") || is_kind(node, "namespace_identifier") || is_kind(
        node,
        "type_identifier",
    ) {
        parts.push(node_text(node, source).to_owned());
    }
    assert(crate::text::texts(parts@) =~= before + scope_parts(node.view(), source@));
}

/// The scopes that a declarator names before the declared name: all parts of a
/// qualified identifier but the last.
pub open spec fn scope_prefix_of(
    node: crate::parsing::syntax::SyntaxView,
    source: Seq<char>,
) -> Seq<Seq<char>> {
    match declared_in(node) {
        Some(leaf) => if is_qualified(leaf) && scope_parts(leaf, source).len() > 0 {
            scope_parts(leaf, source).drop_last()
        } else {
            Seq::empty()
        },
        None => Seq::empty(),
    }
}

/// The scope prefix of a qualified declarator (everything before the last `::`),
/// which is prepended to the name of what it declares.
pub fn qualified_scope_prefix(node: &SyntaxNode, source: &str) -> (r: Vec<String>)
    ensures
        crate::text::texts(r@) == scope_prefix_of(node.view(), source@),
{
    let mut parts: Vec<String> = Vec::new();
    if let Some(leaf) = declared(node) {
        if is_kind(leaf, "qualified_identifier") {
            collect_scope_parts(leaf, source, &mut parts);
            assert(crate::text::texts(parts@) =~= scope_parts(leaf.view(), source@));
            if parts.len() > 0 {
                let ghost all = parts@;
                parts.pop();
                assert(crate::text::texts(parts@) =~= crate::text::texts(all).drop_last());
            }
        }
    }
    assert(crate::text::texts(parts@) =~= scope_prefix_of(node.view(), source@));
    parts
}

// ─── Calls ───

/// The name of what a call calls, where the callee is a name at all.
pub open spec fn callee_of(
    node: crate::parsing::syntax::SyntaxView,
    source: Seq<char>,
) -> Option<Seq<char>>
    decreases node,
{
    let kind = node.info.kind;
    if kind == "identifier"@ {
        Some(crate::parsing::syntax::text_of(node, source))
    } else if kind == "field_expression"@ {
        crate::parsing::syntax::field_text_of(node, crate::parsing::syntax::Field::Member, source)
    } else if is_qualified(node) || kind == "template_function"@ {
        let i = crate::parsing::syntax::field_at(node.children, crate::parsing::syntax::Field::Name);
        if 0 <= i < node.children.len() {
            callee_of(node.children[i], source)
        } else {
            None
        }
    } else {
        None
    }
}

/// Extract the leaf callee name from a call_expression's `function` node.
/// Returns None if the callee cannot be resolved to a simple name.
pub fn callee_leaf_name<'a>(func_node: &SyntaxNode, source: &'a str) -> (r: Option<&'a str>)
    ensures
        match r {
            Some(name) => callee_of(func_node.view(), source@) == Some(name@),
            None => callee_of(func_node.view(), source@) is None,
        },
    decreases func_node,
{
    proof {
        crate::parsing::syntax::lemma_children(*func_node);
    }
    if is_kind(func_node, "identifier") {
        Some(node_text(func_node, source))
    } else if is_kind(func_node, "field_expression") {
        field_text(func_node, Field::Member, source)
    } else if is_kind(func_node, "qualified_identifier") || is_kind(
        func_node,
        "template_function",
    ) {
        match field_index(func_node, Field::Name) {
            Some(i) => callee_leaf_name(&func_node.children[i], source),
            None => None,
        }
    } else {
        None
    }
}

/// The rightmost component of a scope.
pub open spec fn scope_leaf_of(
    node: crate::parsing::syntax::SyntaxView,
    source: Seq<char>,
) -> Option<Seq<char>> {
    let kind = node.info.kind;
    if kind == "namespace_identifier"@ || kind == "type_identifier"@ || kind == "identifier"@ {
        Some(crate::parsing::syntax::text_of(node, source))
    } else if is_qualified(node) {
        crate::parsing::syntax::field_text_of(node, crate::parsing::syntax::Field::Name, source)
    } else {
        None
    }
}

/// The qualifier directly before the name of a qualified callee: `Foo` in
/// `ns::Foo::method`.
pub open spec fn qualifier_of(
    node: crate::parsing::syntax::SyntaxView,
    source: Seq<char>,
) -> Option<Seq<char>>
    decreases node,
{
    let i = crate::parsing::syntax::field_at(node.children, crate::parsing::syntax::Field::Name);
    if !(0 <= i < node.children.len()) {
        None
    } else if is_qualified(node) {
        if is_qualified(node.children[i]) {
            qualifier_of(node.children[i], source)
        } else {
            match crate::parsing::syntax::field_child(node, crate::parsing::syntax::Field::Scope) {
                Some(scope) => scope_leaf_of(scope, source),
                None => None,
            }
        }
    } else if node.info.kind == "template_function"@ {
        qualifier_of(node.children[i], source)
    } else {
        None
    }
}

/// For a qualified call `ns::Foo::method()`, extract the direct qualifier
/// (the part immediately before the leaf name, e.g. `"Foo"` from `ns::Foo::method`).
/// For a field expression `obj.method()` or `ptr->method()`, no qualifier is relevant.
/// Returns None for unqualified or field-expression calls.
pub fn extract_call_qualifier<'a>(func_node: &SyntaxNode, source: &'a str) -> (r: Option<&'a str>)
    ensures
        match r {
            Some(name) => qualifier_of(func_node.view(), source@) == Some(name@),
            None => qualifier_of(func_node.view(), source@) is None,
        },
    decreases func_node,
{
    proof {
        crate::parsing::syntax::lemma_children(*func_node);
    }
    let i: usize = match field_index(func_node, Field::Name) {
        Some(i) => i,
        None => {
            return None;
        },
    };
    if is_kind(func_node, "qualified_identifier") {
        if is_kind(&func_node.children[i], "qualified_identifier") {
            extract_call_qualifier(&func_node.children[i], source)
        } else {
            match child_by_field_name(func_node, Field::Scope) {
                Some(scope) => if is_kind(scope, "namespace_identifier") || is_kind(
                    scope,
                    "type_identifier",
                ) || is_kind(scope, "identifier") {
                    Some(node_text(scope, source))
                } else if is_kind(scope, "qualified_identifier") {
                    field_text(scope, Field::Name, source)
                } else {
                    None
                },
                None => None,
            }
        }
    } else if is_kind(func_node, "template_function") {
        extract_call_qualifier(&func_node.children[i], source)
    } else {
        None
    }
}

/// The include that a call probably refers to: one whose basename is the
/// callee's qualifier, or for a callee that is a plain name, one whose basename
/// is that name.
pub open spec fn import_for_call(
    func: crate::parsing::syntax::SyntaxView,
    source: Seq<char>,
    callee: Seq<char>,
    imports: Seq<Seq<char>>,
) -> Option<Seq<char>> {
    let by_qualifier = match qualifier_of(func, source) {
        Some(qualifier) => crate::parsing::imports::first_import(imports, qualifier),
        None => None,
    };
    if by_qualifier is Some {
        by_qualifier
    } else if func.info.kind == "identifier"@ {
        crate::parsing::imports::first_import(imports, callee)
    } else {
        None
    }
}

/// Determine the `import_path` for a call expression by checking the imports.
///
/// Rules (in order):
///  1. If the callee is qualified (e.g. `GoalAgent::doThing()`), extract the direct
///     qualifier (e.g. `GoalAgent`). Check if any include path's basename matches it.
///     If so, set import_path to the full include path.
///  2. If the callee is unqualified (e.g. `foo()`), check if any include path's basename
///     matches `callee_name` (i.e. `callee_name.h` pattern via basename comparison).
///  3. Otherwise, return None.
pub fn resolve_import_path_for_call(
    func_node: &SyntaxNode,
    source: &str,
    callee_name: &str,
    imports: &ImportMap,
) -> (r: Option<String>)
    ensures
        crate::text::opt_text(r) == import_for_call(
            func_node.view(),
            source@,
            callee_name@,
            imports@,
        ),
{
    if imports.is_empty() {
        return None;
    }
    if let Some(qualifier) = extract_call_qualifier(func_node, source) {
        let found = imports.find(qualifier);
        if found.is_some() {
            return found;
        }
    }
    if is_kind(func_node, "identifier") {
        imports.find(callee_name)
    } else {
        None
    }
}

// ─── Traversal ───

/// What has been found up to a point of the source.
#[verifier::ext_equal]
pub struct CFound {
    pub symbols: Seq<crate::parsing::symbols::SymbolView>,
    pub edges: Seq<crate::parsing::relations::EdgeView>,
    pub imports: Seq<Seq<char>>,
}

impl CFound {
    pub open spec fn none() -> CFound {
        CFound { symbols: Seq::empty(), edges: Seq::empty(), imports: Seq::empty() }
    }

    pub open spec fn with_symbol(self, symbol: crate::parsing::symbols::SymbolView) -> CFound {
        CFound { symbols: self.symbols.push(symbol), ..self }
    }
}

pub open spec fn is_type_named(
    symbol: crate::parsing::symbols::SymbolView,
    name: Seq<char>,
) -> bool {
    symbol.qualified.name == name && (symbol.kind == SymbolKind::Class || symbol.kind
        == SymbolKind::Struct)
}

/// Some scope bears the name of a class or struct found before.
pub open spec fn in_type(
    scope: Seq<Seq<char>>,
    symbols: Seq<crate::parsing::symbols::SymbolView>,
) -> bool {
    exists|i: int, j: int|
        0 <= i < scope.len() && 0 <= j < symbols.len() && is_type_named(
            #[trigger] symbols[j],
            #[trigger] scope[i],
        )
}

/// What a node means to the traversal.
pub enum CRole {
    /// An include directive with the given path, which may be empty.
    Include(Seq<char>),
    /// A definition in the given scopes. Its body is what is below the node, in these
    /// scopes and that of the name: what it calls is called by the symbol.
    Define { name: Seq<char>, kind: SymbolKind, scope: Seq<Seq<char>> },
    /// A call of the named callee; the children count too.
    Call { callee: Seq<char>, import_path: Option<Seq<char>> },
    /// Only what is below the node counts.
    Descend,
    /// Neither the node nor anything below it counts.
    Skip,
}

pub open spec fn c_role(
    source: Seq<char>,
    node: crate::parsing::syntax::SyntaxView,
    scope: Seq<Seq<char>>,
    before: CFound,
) -> CRole {
    let kind = node.info.kind;
    if kind == "preproc_include"@ {
        match crate::parsing::syntax::field_text_of(node, crate::parsing::syntax::Field::Path, source) {
            Some(raw) => CRole::Include(crate::text::trimmed(raw, TrimSet::Quotes)),
            None => CRole::Skip,
        }
    } else if kind == "function_definition"@ {
        match crate::parsing::syntax::field_child(node, crate::parsing::syntax::Field::Declarator) {
            Some(declarator) => match declarator_name_of(declarator, source) {
                Some((name, qualified)) => if qualified {
                    CRole::Define {
                        name,
                        kind: SymbolKind::Method,
                        scope: scope + scope_prefix_of(declarator, source),
                    }
                } else if in_type(scope, before.symbols) {
                    CRole::Define { name, kind: SymbolKind::Method, scope }
                } else {
                    CRole::Define { name, kind: SymbolKind::Function, scope }
                },
                None => CRole::Descend,
            },
            None => CRole::Descend,
        }
    } else if kind == "class_specifier"@ || kind == "struct_specifier"@ {
        match crate::parsing::syntax::field_text_of(node, crate::parsing::syntax::Field::Name, source) {
            Some(name) => CRole::Define {
                name,
                kind: if kind == "class_specifier"@ {
                    SymbolKind::Class
                } else {
                    SymbolKind::Struct
                },
                scope,
            },
            None => CRole::Descend,
        }
    } else if kind == "namespace_definition"@ {
        match crate::parsing::syntax::field_text_of(node, crate::parsing::syntax::Field::Name, source) {
            Some(name) => CRole::Define { name, kind: SymbolKind::Module, scope },
            None => CRole::Define { name: "<anonymous>"@, kind: SymbolKind::Module, scope },
        }
    } else if kind == "call_expression"@ {
        match crate::parsing::syntax::field_child(node, crate::parsing::syntax::Field::Function) {
            Some(func) => match callee_of(func, source) {
                Some(callee) => CRole::Call {
                    callee,
                    import_path: import_for_call(func, source, callee, before.imports),
                },
                None => CRole::Descend,
            },
            None => CRole::Descend,
        }
    } else {
        CRole::Descend
    }
}

/// What has been found after a node and everything below it.
pub open spec fn c_found_at(
    file: Seq<char>,
    source: Seq<char>,
    node: crate::parsing::syntax::SyntaxView,
    scope: Seq<Seq<char>>,
    parent: Option<Seq<char>>,
    before: CFound,
) -> CFound
    decreases node, 0int,
{
    match c_role(source, node, scope, before) {
        CRole::Include(path) => if path.len() > 0 {
            CFound { imports: crate::parsing::imports::with_import(before.imports, path), ..before }
        } else {
            before
        },
        CRole::Define { name, kind, scope: own } => {
            let symbol = crate::parsing::extract::symbol_of(file, node, name, kind, own, parent);
            c_found_in(
                file,
                source,
                node.children,
                own.push(name),
                Some(crate::parsing::symbols::fqn_of(symbol.qualified)),
                before.with_symbol(symbol),
            )
        },
        CRole::Call { callee, import_path } => c_found_in(
            file,
            source,
            node.children,
            scope,
            parent,
            CFound {
                edges: before.edges + crate::parsing::extract::calls_of(
                    file,
                    node,
                    callee,
                    import_path,
                    scope,
                ),
                ..before
            },
        ),
        CRole::Descend => c_found_in(file, source, node.children, scope, parent, before),
        CRole::Skip => before,
    }
}

/// What has been found after a list of nodes.
pub open spec fn c_found_in(
    file: Seq<char>,
    source: Seq<char>,
    nodes: Seq<crate::parsing::syntax::SyntaxView>,
    scope: Seq<Seq<char>>,
    parent: Option<Seq<char>>,
    before: CFound,
) -> CFound
    decreases nodes, 1int,
{
    if nodes.len() == 0 {
        before
    } else {
        c_found_at(
            file,
            source,
            nodes.last(),
            scope,
            parent,
            c_found_in(file, source, nodes.drop_last(), scope, parent, before),
        )
    }
}

fn is_in_type(scope: &Vec<String>, symbols: &Vec<Symbol>) -> (r: bool)
    ensures
        r == in_type(
            crate::text::texts(scope@),
            crate::parsing::symbols::symbol_views(symbols@),
        ),
{
    let ghost names = crate::text::texts(scope@);
    let ghost found = crate::parsing::symbols::symbol_views(symbols@);
    let mut i: usize = 0;
    while i < scope.len()
        invariant
            names == crate::text::texts(scope@),
            found == crate::parsing::symbols::symbol_views(symbols@),
            i <= scope@.len(),
            forall|k: int, j: int|
                0 <= k < i && 0 <= j < found.len() ==> !is_type_named(
                    #[trigger] found[j],
                    #[trigger] names[k],
                ),
        decreases scope@.len() - i,
    {
        let mut j: usize = 0;
        while j < symbols.len()
            invariant
                names == crate::text::texts(scope@),
                found == crate::parsing::symbols::symbol_views(symbols@),
                i < scope@.len(),
                j <= symbols@.len(),
                forall|l: int|
                    0 <= l < j ==> !is_type_named(#[trigger] found[l], names[i as int]),
            decreases symbols@.len() - j,
        {
            let kind = symbols[j].kind;
            if (kind == SymbolKind::Class || kind == SymbolKind::Struct) && same_text(
                symbols[j].qualified.name.as_str(),
                scope[i].as_str(),
            ) {
                assert(is_type_named(found[j as int], names[i as int]));
                return true;
            }
            j = j + 1;
        }
        i = i + 1;
    }
    false
}

/// What a C or C++ source file yields.
pub struct CParts {
    pub symbols: Vec<Symbol>,
    pub edges: Vec<RawEdge>,
    pub imports: ImportMap,
}

impl View for CParts {
    type V = CFound;

    open spec fn view(&self) -> CFound {
        CFound {
            symbols: crate::parsing::symbols::symbol_views(self.symbols@),
            edges: crate::parsing::relations::edge_views(self.edges@),
            imports: self.imports@,
        }
    }
}

/// Appends what the node and everything below it yield.
pub fn extract_c_cpp_node(
    file: &str,
    source: &str,
    node: &SyntaxNode,
    scope: &Vec<String>,
    parent: &Option<String>,
    parts: &mut CParts,
)
    ensures
        final(parts)@ == c_found_at(
            file@,
            source@,
            node.view(),
            crate::text::texts(scope@),
            crate::text::opt_text(*parent),
            old(parts)@,
        ),
    decreases node, 1int, 0int,
{
    if is_kind(node, "preproc_include") {
        if let Some(raw) = field_text(node, Field::Path, source) {
            let stripped = trim(raw, TrimSet::Quotes);
            if !stripped.as_str().is_empty() {
                parts.imports.insert(stripped);
            }
        }
    } else if is_kind(node, "function_definition") {
        if let Some(outer_decl) = child_by_field_name(node, Field::Declarator) {
            if let Some((name, qualified)) = declarator_name(outer_decl, source) {
                let mut own = clone_texts(scope);
                let kind = if qualified {
                    let mut prefix = qualified_scope_prefix(outer_decl, source);
                    let ghost added = prefix@;
                    let ghost had = own@;
                    own.append(&mut prefix);
                    assert(crate::text::texts(own@) =~= crate::text::texts(had)
                        + crate::text::texts(added));
                    SymbolKind::Method
                } else if is_in_type(scope, &parts.symbols) {
                    SymbolKind::Method
                } else {
                    SymbolKind::Function
                };
                define(file, source, node, name, kind, &own, parent, parts);
                return;
            }
        }
        extract_c_cpp_children(file, source, node, scope, parent, parts);
    } else if is_kind(node, "class_specifier") {
        match field_text(node, Field::Name, source) {
            Some(name) => define(
                file,
                source,
                node,
                name,
                SymbolKind::Class,
                scope,
                parent,
                parts,
            ),
            None => extract_c_cpp_children(file, source, node, scope, parent, parts),
        }
    } else if is_kind(node, "struct_specifier") {
        match field_text(node, Field::Name, source) {
            Some(name) => define(
                file,
                source,
                node,
                name,
                SymbolKind::Struct,
                scope,
                parent,
                parts,
            ),
            None => extract_c_cpp_children(file, source, node, scope, parent, parts),
        }
    } else if is_kind(node, "namespace_definition") {
        let name = match field_text(node, Field::Name, source) {
            Some(name) => name,
            None => "<anonymous>",
        };
        define(file, source, node, name, SymbolKind::Module, scope, parent, parts);
    } else if is_kind(node, "call_expression") {
        if let Some(func_node) = child_by_field_name(node, Field::Function) {
            if let Some(callee) = callee_leaf_name(func_node, source) {
                let import_path = resolve_import_path_for_call(
                    func_node,
                    source,
                    callee,
                    &parts.imports,
                );
                push_call(file, node, callee, import_path, scope, &mut parts.edges);
            }
        }
        extract_c_cpp_children(file, source, node, scope, parent, parts);
    } else {
        extract_c_cpp_children(file, source, node, scope, parent, parts);
    }
}

/// Appends the symbol for a definition and what stands inside it.
fn define(
    file: &str,
    source: &str,
    node: &SyntaxNode,
    name: &str,
    kind: SymbolKind,
    scope: &Vec<String>,
    parent: &Option<String>,
    parts: &mut CParts,
)
    ensures
        ({
            let symbol = crate::parsing::extract::symbol_of(
                file@,
                node.view(),
                name@,
                kind,
                crate::text::texts(scope@),
                crate::text::opt_text(*parent),
            );
            final(parts)@ == c_found_in(
                file@,
                source@,
                node.view().children,
                crate::text::texts(scope@).push(name@),
                Some(crate::parsing::symbols::fqn_of(symbol.qualified)),
                old(parts)@.with_symbol(symbol),
            )
        }),
    decreases node, 0int, 1int,
{
    let fqn = push_symbol(file, node, name, kind, scope, parent, &mut parts.symbols);
    let inner = inner_scope(scope, name);
    extract_c_cpp_children(file, source, node, &inner, &Some(fqn), parts);
}

fn extract_c_cpp_children(
    file: &str,
    source: &str,
    node: &SyntaxNode,
    scope: &Vec<String>,
    parent: &Option<String>,
    parts: &mut CParts,
)
    ensures
        final(parts)@ == c_found_in(
            file@,
            source@,
            node.view().children,
            crate::text::texts(scope@),
            crate::text::opt_text(*parent),
            old(parts)@,
        ),
    decreases node, 0int, 0int,
{
    let ghost nodes = node.view().children;
    let ghost names = crate::text::texts(scope@);
    let ghost outer = crate::text::opt_text(*parent);
    let ghost before = parts@;
    proof {
        crate::parsing::syntax::lemma_children(*node);
    }
    let mut i: usize = 0;
    assert(nodes.take(0) =~= Seq::empty());
    while i < node.children.len()
        invariant
            nodes == crate::parsing::syntax::node_views(node.children@),
            names == crate::text::texts(scope@),
            outer == crate::text::opt_text(*parent),
            i <= node.children@.len(),
            parts@ == c_found_in(file@, source@, nodes.take(i as int), names, outer, before),
        decreases node.children@.len() - i,
    {
        assert(nodes.take(i + 1).drop_last() =~= nodes.take(i as int));
        assert(nodes.take(i + 1).last() == node.children@[i as int].view());
        extract_c_cpp_node(file, source, &node.children[i], scope, parent, parts);
        i = i + 1;
    }
    assert(nodes.take(i as int) =~= nodes);
}

}
