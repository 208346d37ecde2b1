//! Symbols and calls of the languages whose definitions name themselves:
//! Python, JavaScript and TypeScript, Rust, Go and Java.
use vstd::prelude::*;

use crate::parsing::relations::{EdgeKind, EdgeTarget, RawEdge};
use crate::parsing::symbols::{make_symbol, scope_to_qualified, Symbol, SymbolKind};
use crate::parsing::syntax::{
    field_text, is_kind, node_line_end, node_line_start, Field, SyntaxNode,
};
use crate::text::{clone_opt, clone_texts};

verus! {

/// The grammars that share one traversal. TypeScript is read with the rules of
/// JavaScript, of which it is a superset.
#[derive(Clone, Copy, Debug, PartialEq, Eq, Structural)]
pub enum Family {
    Python,
    JavaScript,
    Rust,
    Go,
    Java,
}

/// What a node means to the traversal.
pub enum Role {
    /// Neither the node nor anything below it counts.
    Skip,
    /// Only what is below the node counts.
    Descend,
    /// A definition; its body is a scope of its own where `opens` is set, and is
    /// not looked into otherwise.
    Define { name: String, kind: SymbolKind, opens: bool },
    /// A call of the named callee; the children count too.
    Call { callee: String },
    /// A list of type definitions, each of which is a child.
    TypeGroup,
}

/// What a [`Role`] says.
pub enum RoleView {
    Skip,
    Descend,
    Define { name: Seq<char>, kind: SymbolKind, opens: bool },
    Call { callee: Seq<char> },
    TypeGroup,
}

impl View for Role {
    type V = RoleView;

    open spec fn view(&self) -> RoleView {
        match self {
            Role::Skip => RoleView::Skip,
            Role::Descend => RoleView::Descend,
            Role::Define { name, kind, opens } => RoleView::Define {
                name: name@,
                kind: *kind,
                opens: *opens,
            },
            Role::Call { callee } => RoleView::Call { callee: callee@ },
            Role::TypeGroup => RoleView::TypeGroup,
        }
    }
}

/// A definition under the name in the node's `name` field, or nothing where the
/// field is missing.
pub open spec fn named(
    node: crate::parsing::syntax::SyntaxView,
    source: Seq<char>,
    kind: SymbolKind,
    opens: bool,
) -> RoleView {
    match crate::parsing::syntax::field_text_of(node, crate::parsing::syntax::Field::Name, source) {
        Some(name) => RoleView::Define { name, kind, opens },
        None => RoleView::Skip,
    }
}

fn named_role(node: &SyntaxNode, source: &str, kind: SymbolKind, opens: bool) -> (r: Role)
    ensures
        r@ == named(node.view(), source@, kind, opens),
{
    match field_text(node, Field::Name, source) {
        Some(name) => Role::Define { name: name.to_owned(), kind, opens },
        None => Role::Skip,
    }
}

/// A definition that opens a scope, under the name in the node's `name` field
/// or else under the given name.
pub open spec fn named_or(
    node: crate::parsing::syntax::SyntaxView,
    source: Seq<char>,
    fallback: Seq<char>,
    kind: SymbolKind,
) -> RoleView {
    match crate::parsing::syntax::field_text_of(node, crate::parsing::syntax::Field::Name, source) {
        Some(name) => RoleView::Define { name, kind, opens: true },
        None => RoleView::Define { name: fallback, kind, opens: true },
    }
}

fn named_or_role(node: &SyntaxNode, source: &str, fallback: &str, kind: SymbolKind) -> (r: Role)
    ensures
        r@ == named_or(node.view(), source@, fallback@, kind),
{
    match field_text(node, Field::Name, source) {
        Some(name) => Role::Define { name: name.to_owned(), kind, opens: true },
        None => Role::Define { name: fallback.to_owned(), kind, opens: true },
    }
}

/// A call of what the node's given field holds.
pub open spec fn calling(
    node: crate::parsing::syntax::SyntaxView,
    source: Seq<char>,
    field: crate::parsing::syntax::Field,
) -> RoleView {
    match crate::parsing::syntax::field_text_of(node, field, source) {
        Some(callee) => RoleView::Call { callee },
        None => RoleView::Descend,
    }
}

fn calling_role(node: &SyntaxNode, source: &str, field: Field) -> (r: Role)
    ensures
        r@ == calling(node.view(), source@, field),
{
    match field_text(node, field, source) {
        Some(callee) => Role::Call { callee: callee.to_owned() },
        None => Role::Descend,
    }
}

/// Inside any scope a function is a method.
pub open spec fn function_or_method(scope: Seq<Seq<char>>) -> SymbolKind {
    if scope.len() > 0 {
        SymbolKind::Method
    } else {
        SymbolKind::Function
    }
}

fn function_kind(scope: &Vec<String>) -> (r: SymbolKind)
    ensures
        r == function_or_method(crate::text::texts(scope@)),
{
    if scope.len() > 0 {
        SymbolKind::Method
    } else {
        SymbolKind::Function
    }
}

pub open spec fn python_role_of(
    node: crate::parsing::syntax::SyntaxView,
    source: Seq<char>,
    scope: Seq<Seq<char>>,
) -> RoleView {
    let kind = node.info.kind;
    if kind == "function_definition"@ || kind == "async_function_definition"@ {
        named(node, source, function_or_method(scope), true)
    } else if kind == "class_definition"@ {
        named(node, source, SymbolKind::Class, true)
    } else if kind == "call"@ {
        calling(node, source, crate::parsing::syntax::Field::Function)
    } else {
        RoleView::Descend
    }
}

fn python_role(node: &SyntaxNode, source: &str, scope: &Vec<String>) -> (r: Role)
    ensures
        r@ == python_role_of(node.view(), source@, crate::text::texts(scope@)),
{
    if is_kind(node, "function_definition") || is_kind(node, "async_function_definition") {
        named_role(node, source, function_kind(scope), true)
    } else if is_kind(node, "class_definition") {
        named_role(node, source, SymbolKind::Class, true)
    } else if is_kind(node, "call") {
        calling_role(node, source, Field::Function)
    } else {
        Role::Descend
    }
}

pub open spec fn javascript_role_of(
    node: crate::parsing::syntax::SyntaxView,
    source: Seq<char>,
    scope: Seq<Seq<char>>,
) -> RoleView {
    let kind = node.info.kind;
    if kind == "function_declaration"@ || kind == "function"@ {
        named_or(node, source, "<anonymous>"@, function_or_method(scope))
    } else if kind == "class_declaration"@ || kind == "class"@ {
        named_or(node, source, "<anonymous>"@, SymbolKind::Class)
    } else if kind == "call_expression"@ {
        calling(node, source, crate::parsing::syntax::Field::Function)
    } else {
        RoleView::Descend
    }
}

fn javascript_role(node: &SyntaxNode, source: &str, scope: &Vec<String>) -> (r: Role)
    ensures
        r@ == javascript_role_of(node.view(), source@, crate::text::texts(scope@)),
{
    if is_kind(node, "function_declaration") || is_kind(node, "function") {
        named_or_role(node, source, "<anonymous>", function_kind(scope))
    } else if is_kind(node, "class_declaration") || is_kind(node, "class") {
        named_or_role(node, source, "<anonymous>", SymbolKind::Class)
    } else if is_kind(node, "call_expression") {
        calling_role(node, source, Field::Function)
    } else {
        Role::Descend
    }
}

/// Some scope is that of an `impl` block: its name starts with `impl`.
pub open spec fn in_impl(scope: Seq<Seq<char>>) -> bool {
    exists|i: int|
        0 <= i < scope.len() && "impl"@.is_prefix_of(#[trigger] scope[i])
}

fn starts_with_impl(s: &str) -> (r: bool)
    ensures
        r == "impl"@.is_prefix_of(s@),
{
    proof {
        reveal_strlit("impl");
    }
    let c = crate::text::chars_of(s);
    if c.len() >= 4 && c[0] == 'i' && c[1] == 'm' && c[2] == 'p' && c[3] == 'l' {
        assert("impl"@ =~= s@.subrange(0, 4));
        true
    } else {
        assert(!"impl"@.is_prefix_of(s@)) by {
            if "impl"@.is_prefix_of(s@) {
                assert(s@.subrange(0, 4)[0] == s@[0]);
                assert(s@.subrange(0, 4)[1] == s@[1]);
                assert(s@.subrange(0, 4)[2] == s@[2]);
                assert(s@.subrange(0, 4)[3] == s@[3]);
            }
        }
        false
    }
}

fn is_in_impl(scope: &Vec<String>) -> (r: bool)
    ensures
        r == in_impl(crate::text::texts(scope@)),
{
    let ghost all = crate::text::texts(scope@);
    let mut i: usize = 0;
    while i < scope.len()
        invariant
            all == crate::text::texts(scope@),
            i <= scope@.len(),
            forall|j: int| 0 <= j < i ==> !"impl"@.is_prefix_of(#[trigger] all[j]),
        decreases scope@.len() - i,
    {
        if starts_with_impl(scope[i].as_str()) {
            assert("impl"@.is_prefix_of(all[i as int]));
            return true;
        }
        i = i + 1;
    }
    false
}

/// `impl_` and the type of an `impl` block, or `impl_impl` where the block has
/// no type.
pub open spec fn impl_name_of(
    node: crate::parsing::syntax::SyntaxView,
    source: Seq<char>,
) -> Seq<char> {
    match crate::parsing::syntax::field_text_of(node, crate::parsing::syntax::Field::Type, source) {
        Some(name) => "impl_"@ + name,
        None => "impl_"@ + "impl"@,
    }
}

fn impl_name(node: &SyntaxNode, source: &str) -> (r: String)
    ensures
        r@ == impl_name_of(node.view(), source@),
{
    let mut name = "impl_".to_owned();
    match field_text(node, Field::Type, source) {
        Some(of) => {
            name.append(of);
        },
        None => {
            name.append("impl");
        },
    }
    name
}

pub open spec fn rust_role_of(
    node: crate::parsing::syntax::SyntaxView,
    source: Seq<char>,
    scope: Seq<Seq<char>>,
) -> RoleView {
    let kind = node.info.kind;
    if kind == "function_item"@ {
        named(
            node,
            source,
            if in_impl(scope) {
                SymbolKind::Method
            } else {
                SymbolKind::Function
            },
            true,
        )
    } else if kind == "struct_item"@ {
        named(node, source, SymbolKind::Struct, false)
    } else if kind == "trait_item"@ {
        named(node, source, SymbolKind::Trait, true)
    } else if kind == "impl_item"@ {
        RoleView::Define { name: impl_name_of(node, source), kind: SymbolKind::Impl, opens: true }
    } else if kind == "mod_item"@ {
        named(node, source, SymbolKind::Module, true)
    } else if kind == "call_expression"@ {
        calling(node, source, crate::parsing::syntax::Field::Function)
    } else {
        RoleView::Descend
    }
}

fn rust_role(node: &SyntaxNode, source: &str, scope: &Vec<String>) -> (r: Role)
    ensures
        r@ == rust_role_of(node.view(), source@, crate::text::texts(scope@)),
{
    if is_kind(node, "function_item") {
        let kind = if is_in_impl(scope) {
            SymbolKind::Method
        } else {
            SymbolKind::Function
        };
        named_role(node, source, kind, true)
    } else if is_kind(node, "struct_item") {
        named_role(node, source, SymbolKind::Struct, false)
    } else if is_kind(node, "trait_item") {
        named_role(node, source, SymbolKind::Trait, true)
    } else if is_kind(node, "impl_item") {
        Role::Define { name: impl_name(node, source), kind: SymbolKind::Impl, opens: true }
    } else if is_kind(node, "mod_item") {
        named_role(node, source, SymbolKind::Module, true)
    } else if is_kind(node, "call_expression") {
        calling_role(node, source, Field::Function)
    } else {
        Role::Descend
    }
}

pub open spec fn go_role_of(
    node: crate::parsing::syntax::SyntaxView,
    source: Seq<char>,
) -> RoleView {
    let kind = node.info.kind;
    if kind == "function_declaration"@ {
        named_or(node, source, "<anon>"@, SymbolKind::Function)
    } else if kind == "method_declaration"@ {
        named_or(node, source, "<anon>"@, SymbolKind::Method)
    } else if kind == "type_declaration"@ {
        RoleView::TypeGroup
    } else if kind == "call_expression"@ {
        calling(node, source, crate::parsing::syntax::Field::Function)
    } else {
        RoleView::Descend
    }
}

fn go_role(node: &SyntaxNode, source: &str) -> (r: Role)
    ensures
        r@ == go_role_of(node.view(), source@),
{
    if is_kind(node, "function_declaration") {
        named_or_role(node, source, "<anon>", SymbolKind::Function)
    } else if is_kind(node, "method_declaration") {
        named_or_role(node, source, "<anon>", SymbolKind::Method)
    } else if is_kind(node, "type_declaration") {
        Role::TypeGroup
    } else if is_kind(node, "call_expression") {
        calling_role(node, source, Field::Function)
    } else {
        Role::Descend
    }
}

pub open spec fn java_role_of(
    node: crate::parsing::syntax::SyntaxView,
    source: Seq<char>,
) -> RoleView {
    let kind = node.info.kind;
    if kind == "class_declaration"@ {
        named(node, source, SymbolKind::Class, true)
    } else if kind == "interface_declaration"@ {
        named(node, source, SymbolKind::Interface, true)
    } else if kind == "method_declaration"@ || kind == "constructor_declaration"@ {
        named(node, source, SymbolKind::Method, true)
    } else if kind == "method_invocation"@ {
        calling(node, source, crate::parsing::syntax::Field::Name)
    } else {
        RoleView::Descend
    }
}

fn java_role(node: &SyntaxNode, source: &str) -> (r: Role)
    ensures
        r@ == java_role_of(node.view(), source@),
{
    if is_kind(node, "class_declaration") {
        named_role(node, source, SymbolKind::Class, true)
    } else if is_kind(node, "interface_declaration") {
        named_role(node, source, SymbolKind::Interface, true)
    } else if is_kind(node, "method_declaration") || is_kind(node, "constructor_declaration") {
        named_role(node, source, SymbolKind::Method, true)
    } else if is_kind(node, "method_invocation") {
        calling_role(node, source, Field::Name)
    } else {
        Role::Descend
    }
}

pub open spec fn role_of(
    family: Family,
    node: crate::parsing::syntax::SyntaxView,
    source: Seq<char>,
    scope: Seq<Seq<char>>,
) -> RoleView {
    match family {
        Family::Python => python_role_of(node, source, scope),
        Family::JavaScript => javascript_role_of(node, source, scope),
        Family::Rust => rust_role_of(node, source, scope),
        Family::Go => go_role_of(node, source),
        Family::Java => java_role_of(node, source),
    }
}

/// What a node means in its language, within the given scopes.
pub fn role(family: Family, node: &SyntaxNode, source: &str, scope: &Vec<String>) -> (r: Role)
    ensures
        r@ == role_of(family, node.view(), source@, crate::text::texts(scope@)),
{
    match family {
        Family::Python => python_role(node, source, scope),
        Family::JavaScript => javascript_role(node, source, scope),
        Family::Rust => rust_role(node, source, scope),
        Family::Go => go_role(node, source),
        Family::Java => java_role(node, source),
    }
}

// ─── Traversal ───

/// What a stretch of source yields, in the order in which it stands there.
#[verifier::ext_equal]
pub struct Found {
    pub symbols: Seq<crate::parsing::symbols::SymbolView>,
    pub edges: Seq<crate::parsing::relations::EdgeView>,
}

impl Found {
    pub open spec fn none() -> Found {
        Found { symbols: Seq::empty(), edges: Seq::empty() }
    }

    pub open spec fn followed_by(self, next: Found) -> Found {
        Found { symbols: self.symbols + next.symbols, edges: self.edges + next.edges }
    }
}

/// The symbol for a definition at a node.
pub open spec fn symbol_of(
    file: Seq<char>,
    node: crate::parsing::syntax::SyntaxView,
    name: Seq<char>,
    kind: SymbolKind,
    scope: Seq<Seq<char>>,
    parent: Option<Seq<char>>,
) -> crate::parsing::symbols::SymbolView {
    crate::parsing::symbols::SymbolView {
        qualified: crate::parsing::symbols::QualifiedView { file, scope_path: scope, name },
        kind,
        line_start: crate::parsing::syntax::line_of(node.info.start_row),
        line_end: crate::parsing::syntax::line_of(node.info.end_row),
        signature: None,
        parent_fqn: parent,
    }
}

/// The calls that a call node adds: one from the innermost scope, none at the
/// level of the file.
pub open spec fn calls_of(
    file: Seq<char>,
    node: crate::parsing::syntax::SyntaxView,
    callee: Seq<char>,
    import_path: Option<Seq<char>>,
    scope: Seq<Seq<char>>,
) -> Seq<crate::parsing::relations::EdgeView> {
    match crate::parsing::symbols::scope_symbol(file, scope) {
        Some(from) => seq![
            crate::parsing::relations::EdgeView {
                from,
                to: crate::parsing::relations::TargetView::Unresolved {
                    name: callee,
                    import_path,
                    qualifier: None,
                },
                kind: EdgeKind::Calls,
                line: crate::parsing::syntax::line_of(node.info.start_row),
            },
        ],
        None => Seq::empty(),
    }
}

/// The types that a list of type definitions names.
pub open spec fn types_in(
    file: Seq<char>,
    source: Seq<char>,
    nodes: Seq<crate::parsing::syntax::SyntaxView>,
    scope: Seq<Seq<char>>,
    parent: Option<Seq<char>>,
) -> Seq<crate::parsing::symbols::SymbolView>
    decreases nodes.len(),
{
    if nodes.len() == 0 {
        Seq::empty()
    } else {
        let before = types_in(file, source, nodes.drop_last(), scope, parent);
        let node = nodes.last();
        match crate::parsing::syntax::field_text_of(node, crate::parsing::syntax::Field::Name, source) {
            Some(name) => if node.info.kind == "type_spec"@ {
                before.push(symbol_of(file, node, name, SymbolKind::Struct, scope, parent))
            } else {
                before
            },
            None => before,
        }
    }
}

/// What a node and everything below it yield, within the given scopes and with
/// the given definition around them.
pub open spec fn found_at(
    family: Family,
    file: Seq<char>,
    source: Seq<char>,
    node: crate::parsing::syntax::SyntaxView,
    scope: Seq<Seq<char>>,
    parent: Option<Seq<char>>,
) -> Found
    decreases node, 0int,
{
    match role_of(family, node, source, scope) {
        RoleView::Skip => Found::none(),
        RoleView::Descend => found_in(family, file, source, node.children, scope, parent),
        RoleView::Define { name, kind, opens } => {
            let symbol = symbol_of(file, node, name, kind, scope, parent);
            let own = Found { symbols: seq![symbol], edges: Seq::empty() };
            if opens {
                own.followed_by(
                    found_in(
                        family,
                        file,
                        source,
                        node.children,
                        scope.push(name),
                        Some(crate::parsing::symbols::fqn_of(symbol.qualified)),
                    ),
                )
            } else {
                own
            }
        },
        RoleView::Call { callee } => {
            let own = Found {
                symbols: Seq::empty(),
                edges: calls_of(file, node, callee, None, scope),
            };
            own.followed_by(found_in(family, file, source, node.children, scope, parent))
        },
        RoleView::TypeGroup => Found {
            symbols: types_in(file, source, node.children, scope, parent),
            edges: Seq::empty(),
        },
    }
}

/// What a list of nodes yields.
pub open spec fn found_in(
    family: Family,
    file: Seq<char>,
    source: Seq<char>,
    nodes: Seq<crate::parsing::syntax::SyntaxView>,
    scope: Seq<Seq<char>>,
    parent: Option<Seq<char>>,
) -> Found
    decreases nodes, 1int,
{
    if nodes.len() == 0 {
        Found::none()
    } else {
        found_in(family, file, source, nodes.drop_last(), scope, parent).followed_by(
            found_at(family, file, source, nodes.last(), scope, parent),
        )
    }
}

/// Appends the symbol for a definition and returns its qualified name.
pub(crate) fn push_symbol(
    file: &str,
    node: &SyntaxNode,
    name: &str,
    kind: SymbolKind,
    scope: &Vec<String>,
    parent: &Option<String>,
    symbols: &mut Vec<Symbol>,
) -> (r: String)
    ensures
        ({
            let symbol = symbol_of(
                file@,
                node.view(),
                name@,
                kind,
                crate::text::texts(scope@),
                crate::text::opt_text(*parent),
            );
            &&& crate::parsing::symbols::symbol_views(final(symbols)@)
                == crate::parsing::symbols::symbol_views(old(symbols)@).push(symbol)
            &&& r@ == crate::parsing::symbols::fqn_of(symbol.qualified)
        }),
{
    let symbol = make_symbol(
        file,
        name,
        clone_texts(scope),
        kind,
        node_line_start(node),
        node_line_end(node),
        None,
        clone_opt(parent),
    );
    let fqn = symbol.qualified.fqn();
    symbols.push(symbol);
    assert(crate::parsing::symbols::symbol_views(symbols@)
        =~= crate::parsing::symbols::symbol_views(old(symbols)@).push(symbol@));
    fqn
}

/// Appends the edge for a call, if it stands in a scope.
pub(crate) fn push_call(
    file: &str,
    node: &SyntaxNode,
    callee: &str,
    import_path: Option<String>,
    scope: &Vec<String>,
    edges: &mut Vec<RawEdge>,
)
    ensures
        crate::parsing::relations::edge_views(final(edges)@)
            == crate::parsing::relations::edge_views(old(edges)@) + calls_of(
            file@,
            node.view(),
            callee@,
            crate::text::opt_text(import_path),
            crate::text::texts(scope@),
        ),
{
    match scope_to_qualified(file, scope) {
        Some(from) => {
            edges.push(
                RawEdge {
                    from,
                    to: EdgeTarget::Unresolved {
                        name: callee.to_owned(),
                        import_path,
                        qualifier: None,
                    },
                    kind: EdgeKind::Calls,
                    line: node_line_start(node),
                },
            );
        },
        None => {},
    }
    assert(crate::parsing::relations::edge_views(edges@)
        =~= crate::parsing::relations::edge_views(old(edges)@) + calls_of(
        file@,
        node.view(),
        callee@,
        crate::text::opt_text(import_path),
        crate::text::texts(scope@),
    ));
}

/// The scopes inside a definition.
pub(crate) fn inner_scope(scope: &Vec<String>, name: &str) -> (r: Vec<String>)
    ensures
        crate::text::texts(r@) == crate::text::texts(scope@).push(name@),
{
    let mut inner = clone_texts(scope);
    let ghost before = inner@;
    inner.push(name.to_owned());
    assert(crate::text::texts(inner@) =~= crate::text::texts(before).push(name@));
    inner
}

fn extract_types(
    file: &str,
    source: &str,
    node: &SyntaxNode,
    scope: &Vec<String>,
    parent: &Option<String>,
    symbols: &mut Vec<Symbol>,
)
    ensures
        crate::parsing::symbols::symbol_views(final(symbols)@)
            == crate::parsing::symbols::symbol_views(old(symbols)@) + types_in(
            file@,
            source@,
            node.view().children,
            crate::text::texts(scope@),
            crate::text::opt_text(*parent),
        ),
{
    let ghost nodes = node.view().children;
    let ghost names = crate::text::texts(scope@);
    let ghost outer = crate::text::opt_text(*parent);
    let ghost before = crate::parsing::symbols::symbol_views(symbols@);
    proof {
        crate::parsing::syntax::lemma_children(*node);
    }
    let mut i: usize = 0;
    assert(nodes.take(0) =~= Seq::empty());
    while i < node.children.len()
        invariant
            nodes == crate::parsing::syntax::node_views(node.children@),
            names == crate::text::texts(scope@),
            outer == crate::text::opt_text(*parent),
            i <= node.children@.len(),
            crate::parsing::symbols::symbol_views(symbols@) == before + types_in(
                file@,
                source@,
                nodes.take(i as int),
                names,
                outer,
            ),
        decreases node.children@.len() - i,
    {
        let child = &node.children[i];
        assert(nodes.take(i + 1).drop_last() =~= nodes.take(i as int));
        assert(nodes.take(i + 1).last() == child.view());
        if is_kind(child, "type_spec") {
            if let Some(name) = field_text(child, Field::Name, source) {
                push_symbol(file, child, name, SymbolKind::Struct, scope, parent, symbols);
            }
        }
        assert(crate::parsing::symbols::symbol_views(symbols@) =~= before + types_in(
            file@,
            source@,
            nodes.take(i + 1),
            names,
            outer,
        ));
        i = i + 1;
    }
    assert(nodes.take(i as int) =~= nodes);
}

/// Appends what the node and everything below it yield.
pub fn extract_node(
    family: Family,
    file: &str,
    source: &str,
    node: &SyntaxNode,
    scope: &Vec<String>,
    parent: &Option<String>,
    symbols: &mut Vec<Symbol>,
    edges: &mut Vec<RawEdge>,
)
    ensures
        ({
            let found = found_at(
                family,
                file@,
                source@,
                node.view(),
                crate::text::texts(scope@),
                crate::text::opt_text(*parent),
            );
            &&& crate::parsing::symbols::symbol_views(final(symbols)@)
                == crate::parsing::symbols::symbol_views(old(symbols)@) + found.symbols
            &&& crate::parsing::relations::edge_views(final(edges)@)
                == crate::parsing::relations::edge_views(old(edges)@) + found.edges
        }),
    decreases node, 1int,
{
    let ghost had_symbols = crate::parsing::symbols::symbol_views(symbols@);
    let ghost had_edges = crate::parsing::relations::edge_views(edges@);
    let ghost found = found_at(
        family,
        file@,
        source@,
        node.view(),
        crate::text::texts(scope@),
        crate::text::opt_text(*parent),
    );
    match role(family, node, source, scope) {
        Role::Skip => {},
        Role::Descend => {
            extract_children(family, file, source, node, scope, parent, symbols, edges);
        },
        Role::Define { name, kind, opens } => {
            let fqn = push_symbol(file, node, name.as_str(), kind, scope, parent, symbols);
            if opens {
                let inner = inner_scope(scope, name.as_str());
                extract_children(family, file, source, node, &inner, &Some(fqn), symbols, edges);
            }
        },
        Role::Call { callee } => {
            push_call(file, node, callee.as_str(), None, scope, edges);
            extract_children(family, file, source, node, scope, parent, symbols, edges);
        },
        Role::TypeGroup => {
            extract_types(file, source, node, scope, parent, symbols);
        },
    }
    assert(crate::parsing::symbols::symbol_views(symbols@) =~= had_symbols + found.symbols);
    assert(crate::parsing::relations::edge_views(edges@) =~= had_edges + found.edges);
}

fn extract_children(
    family: Family,
    file: &str,
    source: &str,
    node: &SyntaxNode,
    scope: &Vec<String>,
    parent: &Option<String>,
    symbols: &mut Vec<Symbol>,
    edges: &mut Vec<RawEdge>,
)
    ensures
        ({
            let found = found_in(
                family,
                file@,
                source@,
                node.view().children,
                crate::text::texts(scope@),
                crate::text::opt_text(*parent),
            );
            &&& crate::parsing::symbols::symbol_views(final(symbols)@)
                == crate::parsing::symbols::symbol_views(old(symbols)@) + found.symbols
            &&& crate::parsing::relations::edge_views(final(edges)@)
                == crate::parsing::relations::edge_views(old(edges)@) + found.edges
        }),
    decreases node, 0int,
{
    let ghost nodes = node.view().children;
    let ghost names = crate::text::texts(scope@);
    let ghost outer = crate::text::opt_text(*parent);
    let ghost had_symbols = crate::parsing::symbols::symbol_views(symbols@);
    let ghost had_edges = crate::parsing::relations::edge_views(edges@);
    proof {
        crate::parsing::syntax::lemma_children(*node);
    }
    let mut i: usize = 0;
    assert(nodes.take(0) =~= Seq::empty());
    while i < node.children.len()
        invariant
            nodes == crate::parsing::syntax::node_views(node.children@),
            names == crate::text::texts(scope@),
            outer == crate::text::opt_text(*parent),
            i <= node.children@.len(),
            ({
                let found = found_in(family, file@, source@, nodes.take(i as int), names, outer);
                &&& crate::parsing::symbols::symbol_views(symbols@) == had_symbols + found.symbols
                &&& crate::parsing::relations::edge_views(edges@) == had_edges + found.edges
            }),
        decreases node.children@.len() - i,
    {
        assert(nodes.take(i + 1).drop_last() =~= nodes.take(i as int));
        assert(nodes.take(i + 1).last() == node.children@[i as int].view());
        extract_node(family, file, source, &node.children[i], scope, parent, symbols, edges);
        let ghost found = found_in(family, file@, source@, nodes.take(i + 1), names, outer);
        assert(crate::parsing::symbols::symbol_views(symbols@) =~= had_symbols + found.symbols);
        assert(crate::parsing::relations::edge_views(edges@) =~= had_edges + found.edges);
        i = i + 1;
    }
    assert(nodes.take(i as int) =~= nodes);
}

}
