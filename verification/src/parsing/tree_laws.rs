//! What holds of syntax trees and of the names that are read from them.
use vstd::prelude::*;

use crate::parsing::symbols::QualifiedView;
use crate::parsing::syntax::{Field, RowView, SyntaxView};
use crate::parsing::{c_family, imports, symbols, syntax, Lang};

verus! {

// ─── Trees ───

/// The rows of a tree in the order of the source, each with its depth.
pub open spec fn rows_at(node: SyntaxView, depth: nat) -> Seq<RowView>
    decreases node, 0int,
{
    seq![RowView { depth: depth as usize, info: node.info }] + rows_below(node.children, depth + 1)
}

pub open spec fn rows_below(nodes: Seq<SyntaxView>, depth: nat) -> Seq<RowView>
    decreases nodes, 1int,
{
    if nodes.len() == 0 {
        Seq::empty()
    } else {
        rows_at(nodes[0], depth) + rows_below(nodes.drop_first(), depth)
    }
}

/// No node is deeper than can be told.
pub open spec fn fits(node: SyntaxView, depth: nat) -> bool
    decreases node, 0int,
{
    depth <= usize::MAX && all_fit(node.children, depth + 1)
}

pub open spec fn all_fit(nodes: Seq<SyntaxView>, depth: nat) -> bool
    decreases nodes, 1int,
{
    nodes.len() == 0 || (fits(nodes[0], depth) && all_fit(nodes.drop_first(), depth))
}

proof fn lemma_rows_depth(nodes: Seq<SyntaxView>, depth: nat)
    requires
        all_fit(nodes, depth),
    ensures
        nodes.len() > 0 ==> rows_below(nodes, depth).len() > 0 && rows_below(nodes, depth)[0].depth
            == depth,
{
    if nodes.len() > 0 {
        assert(fits(nodes[0], depth));
        assert(rows_at(nodes[0], depth)[0].depth == depth);
    }
}

proof fn lemma_node_read(
    pre: Seq<RowView>,
    node: SyntaxView,
    depth: nat,
    post: Seq<RowView>,
)
    requires
        fits(node, depth),
        post.len() > 0 ==> post[0].depth <= depth,
    ensures
        ({
            let rows = pre + rows_at(node, depth) + post;
            &&& syntax::node_at(rows, pre.len() as int) == node
            &&& syntax::skip_deeper(rows, (pre.len() + 1) as int, depth as usize) == pre.len() + rows_at(
                node,
                depth,
            ).len()
        }),
    decreases node, 0int,
{
    let rows = pre + rows_at(node, depth) + post;
    let top = RowView { depth: depth as usize, info: node.info };
    let below = rows_below(node.children, depth + 1);
    assert(rows =~= pre.push(top) + below + post);
    lemma_siblings_read(pre.push(top), node.children, depth, post);
    assert(rows[pre.len() as int] == top);
    let made = syntax::node_at(rows, pre.len() as int);
    assert(made.info == node.info);
    assert(made.children == node.children);
}

proof fn lemma_siblings_read(
    pre: Seq<RowView>,
    nodes: Seq<SyntaxView>,
    depth: nat,
    post: Seq<RowView>,
)
    requires
        depth <= usize::MAX,
        all_fit(nodes, depth + 1),
        post.len() > 0 ==> post[0].depth <= depth,
    ensures
        ({
            let rows = pre + rows_below(nodes, depth + 1) + post;
            &&& syntax::siblings_at(rows, pre.len() as int, depth as usize) == nodes
            &&& syntax::skip_deeper(rows, pre.len() as int, depth as usize) == pre.len()
                + rows_below(nodes, depth + 1).len()
        }),
    decreases nodes, 1int,
{
    let rows = pre + rows_below(nodes, depth + 1) + post;
    let k = pre.len() as int;
    if nodes.len() == 0 {
        if k < rows.len() {
            assert(rows[k] == post[0]);
        }
        assert(syntax::siblings_at(rows, k, depth as usize) =~= nodes);
    } else {
        let first = rows_at(nodes[0], depth + 1);
        let rest = nodes.drop_first();
        let more = rows_below(rest, depth + 1);
        lemma_rows_depth(rest, depth + 1);
        let tail = more + post;
        if tail.len() > 0 {
            if more.len() > 0 {
                assert(tail[0] == more[0]);
                if rest.len() == 0 {
                    assert(more.len() == 0);
                }
            } else {
                assert(tail[0] == post[0]);
            }
        }
        lemma_node_read(pre, nodes[0], depth + 1, tail);
        assert(rows =~= pre + first + tail);
        lemma_siblings_read(pre + first, rest, depth, post);
        assert(rows =~= (pre + first) + more + post);
        assert(rows[k] == first[0]);
        assert(fits(nodes[0], depth + 1));
        assert(rows[k].depth == depth + 1);
        let next = k + first.len();
        assert(syntax::skip_deeper(rows, k + 1, (depth + 1) as usize) == next);
        assert(syntax::siblings_at(rows, k, depth as usize) == seq![nodes[0]]
            + syntax::siblings_at(rows, next, depth as usize));
        assert(seq![nodes[0]] + rest =~= nodes);
        syntax::lemma_skip_deeper(rows, k + 1, (depth + 1) as usize);
        lemma_skip_in_two(rows, k, (depth + 1) as usize, depth as usize);
    }
}

/// What is deeper than a row is deeper than what the row is deeper than.
proof fn lemma_skip_in_two(rows: Seq<RowView>, k: int, inner: usize, depth: usize)
    requires
        0 <= k < rows.len(),
        rows[k].depth == inner,
        inner > depth,
    ensures
        syntax::skip_deeper(rows, k, depth) == syntax::skip_deeper(
            rows,
            syntax::skip_deeper(rows, k + 1, inner),
            depth,
        ),
{
    assert(syntax::skip_deeper(rows, k, depth) == syntax::skip_deeper(rows, k + 1, depth));
    lemma_skip_over(rows, k + 1, inner, depth);
}

proof fn lemma_skip_over(rows: Seq<RowView>, k: int, inner: usize, depth: usize)
    requires
        0 <= k <= rows.len(),
        inner > depth,
    ensures
        syntax::skip_deeper(rows, k, depth) == syntax::skip_deeper(
            rows,
            syntax::skip_deeper(rows, k, inner),
            depth,
        ),
    decreases rows.len() - k,
{
    if k < rows.len() && rows[k].depth > inner {
        lemma_skip_over(rows, k + 1, inner, depth);
    }
}

/// The tree that is built from the rows of a tree is that tree: every node is
/// there, with its kind, its place and its fields, in its place among the others.
pub proof fn law_trees_are_read_back(tree: SyntaxView)
    requires
        fits(tree, 0),
    ensures
        syntax::tree_from(rows_at(tree, 0)) == Some(tree),
{
    let none = Seq::<RowView>::empty();
    lemma_node_read(none, tree, 0, none);
    assert(none + rows_at(tree, 0) + none =~= rows_at(tree, 0));
}

/// The child for a field is the first that is held for it; there is none exactly
/// where no child is.
pub proof fn law_field_child_is_the_first(node: SyntaxView, field: Field)
    ensures
        match syntax::field_child(node, field) {
            Some(child) => exists|i: int|
                0 <= i < node.children.len() && #[trigger] node.children[i] == child
                    && child.info.fields.contains(field) && forall|j: int|
                    0 <= j < i ==> !(#[trigger] node.children[j]).info.fields.contains(field),
            None => forall|j: int|
                0 <= j < node.children.len() ==> !(
                #[trigger] node.children[j]).info.fields.contains(field),
        },
{
    let i = syntax::field_at(node.children, field);
    lemma_field_at(node.children, field);
    if i < node.children.len() {
        assert(node.children[i] == syntax::field_child(node, field)->0);
    }
}

proof fn lemma_field_at(children: Seq<SyntaxView>, field: Field)
    ensures
        0 <= syntax::field_at(children, field) <= children.len(),
        syntax::field_at(children, field) < children.len() ==> children[syntax::field_at(
            children,
            field,
        )].info.fields.contains(field),
        forall|j: int|
            0 <= j < syntax::field_at(children, field) ==> !(
            #[trigger] children[j]).info.fields.contains(field),
    decreases children.len(),
{
    if children.len() > 0 && !syntax::has_field(children[0], field) {
        let rest = children.drop_first();
        lemma_field_at(rest, field);
        assert forall|j: int| 0 <= j < syntax::field_at(children, field) implies !(
        #[trigger] children[j]).info.fields.contains(field) by {
            if j > 0 {
                assert(children[j] == rest[j - 1]);
            }
        }
    }
}

// ─── Texts ───

proof fn lemma_encode_add(a: Seq<char>, b: Seq<char>)
    ensures
        vstd::utf8::encode_utf8(a + b) == vstd::utf8::encode_utf8(a) + vstd::utf8::encode_utf8(b),
    decreases a.len(),
{
    if a.len() == 0 {
        assert(a + b =~= b);
        assert(vstd::utf8::encode_utf8(a) + vstd::utf8::encode_utf8(b)
            =~= vstd::utf8::encode_utf8(b));
    } else {
        lemma_encode_add(a.drop_first(), b);
        assert((a + b).drop_first() =~= a.drop_first() + b);
        assert((a + b)[0] == a[0]);
        assert(vstd::utf8::encode_utf8(a + b) =~= vstd::utf8::encode_utf8(a)
            + vstd::utf8::encode_utf8(b));
    }
}

proof fn lemma_boundary(a: Seq<char>, b: Seq<char>)
    ensures
        vstd::utf8::is_char_boundary(
            vstd::utf8::encode_utf8(a + b),
            vstd::utf8::encode_utf8(a).len() as int,
        ),
{
    let (x, y) = (vstd::utf8::encode_utf8(a), vstd::utf8::encode_utf8(b));
    let all = vstd::utf8::encode_utf8(a + b);
    lemma_encode_add(a, b);
    vstd::utf8::encode_utf8_valid_utf8(a);
    vstd::utf8::encode_utf8_valid_utf8(b);
    vstd::utf8::encode_utf8_valid_utf8(a + b);
    if y.len() == 0 {
        assert(all =~= x);
        vstd::utf8::is_char_boundary_start_end_of_seq(all);
    } else {
        assert(all[x.len() as int] == y[0]);
        vstd::utf8::is_char_boundary_start_end_of_seq(y);
        vstd::utf8::is_char_boundary_iff_not_is_continuation_byte(y, 0);
        vstd::utf8::is_char_boundary_iff_not_is_continuation_byte(all, x.len() as int);
    }
}

/// The text of a node is what stands at its place: where the source is some text,
/// the node's and the rest, and the node begins and ends where its text does.
pub proof fn law_node_text_is_what_stands_there(
    node: SyntaxView,
    before: Seq<char>,
    text: Seq<char>,
    after: Seq<char>,
)
    requires
        node.info.start_byte == vstd::utf8::encode_utf8(before).len(),
        node.info.end_byte == vstd::utf8::encode_utf8(before + text).len(),
    ensures
        syntax::text_of(node, before + text + after) == text,
{
    broadcast use vstd::utf8::encode_utf8_decode_utf8;

    let source = before + text + after;
    let bytes = vstd::utf8::encode_utf8(source);
    lemma_encode_add(before, text);
    lemma_encode_add(before + text, after);
    lemma_boundary(before, text + after);
    lemma_boundary(before + text, after);
    assert(before + (text + after) =~= source);
    let (s, e) = (node.info.start_byte as int, node.info.end_byte as int);
    assert(bytes.subrange(s, e) =~= vstd::utf8::encode_utf8(text));
}

/// Lines are counted from one.
pub proof fn law_rows_are_counted_from_one(row: usize)
    requires
        row < u32::MAX,
    ensures
        syntax::line_of(row) == row + 1,
{
}

// ─── Names in C and C++ ───

/// A call is known by its rightmost name: a plain name is known by its text, a
/// member by the member's, and what is qualified or a template by the name in it,
/// whatever scopes stand before.
pub proof fn law_callee_is_the_rightmost_name(node: SyntaxView, source: Seq<char>)
    ensures
        node.info.kind == "identifier"@ ==> c_family::callee_of(node, source) == Some(
            syntax::text_of(node, source),
        ),
        node.info.kind == "field_expression"@ ==> c_family::callee_of(node, source) == (
        match syntax::field_child(node, Field::Member) {
            Some(member) => Some(syntax::text_of(member, source)),
            None => None,
        }),
        node.info.kind == "qualified_identifier"@ || node.info.kind == "template_function"@
            ==> c_family::callee_of(node, source) == (match syntax::field_child(node, Field::Name) {
            Some(name) => c_family::callee_of(name, source),
            None => None,
        }),
        c_family::callee_of(node, source) is Some ==> node.info.kind == "identifier"@
            || node.info.kind == "field_expression"@ || node.info.kind == "qualified_identifier"@
            || node.info.kind == "template_function"@,
{
    lemma_c_kinds();
}

proof fn lemma_c_kinds()
    ensures
        "identifier"@ != "field_expression"@,
        "identifier"@ != "qualified_identifier"@,
        "identifier"@ != "template_function"@,
        "field_expression"@ != "qualified_identifier"@,
        "field_expression"@ != "template_function"@,
        "qualified_identifier"@ != "template_function"@,
        "identifier"@ != "function_declarator"@,
        "identifier"@ != "pointer_declarator"@,
        "identifier"@ != "reference_declarator"@,
        "qualified_identifier"@ != "function_declarator"@,
        "qualified_identifier"@ != "pointer_declarator"@,
        "qualified_identifier"@ != "reference_declarator"@,
        "qualified_identifier"@ != "field_identifier"@,
        "qualified_identifier"@ != "destructor_name"@,
        "function_declarator"@ != "pointer_declarator"@,
        "function_declarator"@ != "reference_declarator"@,
        "function_declarator"@ != "field_identifier"@,
        "function_declarator"@ != "destructor_name"@,
        "pointer_declarator"@ != "field_identifier"@,
        "pointer_declarator"@ != "destructor_name"@,
        "reference_declarator"@ != "field_identifier"@,
        "reference_declarator"@ != "destructor_name"@,
{
    reveal_strlit("identifier");
    reveal_strlit("field_expression");
    reveal_strlit("qualified_identifier");
    reveal_strlit("template_function");
    reveal_strlit("function_declarator");
    reveal_strlit("pointer_declarator");
    reveal_strlit("reference_declarator");
    reveal_strlit("field_identifier");
    reveal_strlit("destructor_name");
    assert("identifier"@.len() == 10);
    assert("field_expression"@.len() == 16);
    assert("qualified_identifier"@.len() == 20);
    assert("template_function"@.len() == 17);
    assert("function_declarator"@.len() == 19);
    assert("pointer_declarator"@.len() == 18);
    assert("reference_declarator"@.len() == 20);
    assert("field_identifier"@.len() == 16);
    assert("destructor_name"@.len() == 15);
    assert("qualified_identifier"@[0] == 'q');
    assert("reference_declarator"@[0] == 'r');
}

/// A declarator declares a name, wherever it stands: a plain name is its own; a
/// qualified one is known by its rightmost part and told as such; a function
/// declares what its declarator does; and so does a pointer or a reference to
/// it that has it as its only named child.
pub proof fn law_declarators_declare_their_name(
    node: SyntaxView,
    inner: SyntaxView,
    source: Seq<char>,
)
    ensures
        node.info.kind == "identifier"@ || node.info.kind == "field_identifier"@ || node.info.kind
            == "destructor_name"@ ==> c_family::declarator_name_of(node, source) == Some(
            (syntax::text_of(node, source), false),
        ),
        node.info.kind == "qualified_identifier"@ && syntax::field_child(node, Field::Name) == Some(
            inner,
        ) && inner.info.kind != "qualified_identifier"@ ==> c_family::declarator_name_of(
            node,
            source,
        ) == Some((syntax::text_of(inner, source), true)),
        node.info.kind == "qualified_identifier"@ && syntax::field_child(node, Field::Name) == Some(
            inner,
        ) && inner.info.kind == "qualified_identifier"@ ==> c_family::declarator_name_of(
            node,
            source,
        ) == c_family::declarator_name_of(inner, source),
        node.info.kind == "function_declarator"@ && syntax::field_child(node, Field::Declarator)
            == Some(inner) ==> c_family::declarator_name_of(node, source)
            == c_family::declarator_name_of(inner, source) && c_family::scope_prefix_of(
            node,
            source,
        ) == c_family::scope_prefix_of(inner, source),
        (node.info.kind == "pointer_declarator"@ || node.info.kind == "reference_declarator"@)
            && node.children.len() > 0 && node.children.last() == inner && inner.info.named && (
        forall|i: int|
            0 <= i < node.children.len() - 1 ==> !(#[trigger] node.children[i]).info.named)
            ==> c_family::declarator_name_of(node, source) == c_family::declarator_name_of(
            inner,
            source,
        ) && c_family::scope_prefix_of(node, source) == c_family::scope_prefix_of(inner, source),
{
    lemma_c_kinds();
    if node.info.kind == "qualified_identifier"@ && syntax::field_child(node, Field::Name) == Some(
        inner,
    ) {
        assert(c_family::rightmost_of(node) == if c_family::is_qualified(inner) {
            c_family::rightmost_of(inner)
        } else {
            Some(inner)
        });
    }
    if (node.info.kind == "pointer_declarator"@ || node.info.kind == "reference_declarator"@)
        && node.children.len() > 0 && node.children.last() == inner && inner.info.named && (forall|
        i: int,
    |
        0 <= i < node.children.len() - 1 ==> !(#[trigger] node.children[i]).info.named) {
        lemma_only_named(node.children);
        assert(c_family::declared_in(node) == c_family::first_declared(node.children));
    }
}

proof fn lemma_only_named(nodes: Seq<SyntaxView>)
    requires
        nodes.len() > 0,
        nodes.last().info.named,
        forall|i: int| 0 <= i < nodes.len() - 1 ==> !(#[trigger] nodes[i]).info.named,
    ensures
        c_family::first_declared(nodes) == c_family::declared_in(nodes.last()),
    decreases nodes.len(),
{
    if nodes.len() == 1 {
        let rest = nodes.drop_first();
        assert(rest.len() == 0);
        assert(c_family::first_declared(rest) is None);
        assert(nodes[0] == nodes.last());
    } else {
        let rest = nodes.drop_first();
        assert(!nodes[0].info.named);
        assert forall|i: int| 0 <= i < rest.len() - 1 implies !(
        #[trigger] rest[i]).info.named by {
            assert(rest[i] == nodes[i + 1]);
        }
        assert(rest.last() == nodes.last());
        lemma_only_named(rest);
    }
}

/// The scopes that are written before a qualified name are all parts before the
/// last, from left to right: those of its scope, then those that stand before the
/// name in its name.
pub proof fn law_scopes_are_read_from_left_to_right(
    node: SyntaxView,
    scope: SyntaxView,
    name: SyntaxView,
    source: Seq<char>,
)
    requires
        node.info.kind == "qualified_identifier"@,
        syntax::field_child(node, Field::Scope) == Some(scope),
        syntax::field_child(node, Field::Name) == Some(name),
        scope.info.kind == "identifier"@ || scope.info.kind == "namespace_identifier"@
            || scope.info.kind == "type_identifier"@,
    ensures
        name.info.kind != "qualified_identifier"@ ==> c_family::scope_prefix_of(node, source)
            == seq![syntax::text_of(scope, source)],
        name.info.kind == "qualified_identifier"@ && c_family::declarator_name_of(
            name,
            source,
        ) is Some && c_family::scope_parts(name, source).len() > 0 ==> c_family::scope_prefix_of(
            node,
            source,
        ) == seq![syntax::text_of(scope, source)] + c_family::scope_prefix_of(name, source),
{
    lemma_c_kinds();
    reveal_strlit("namespace_identifier");
    reveal_strlit("type_identifier");
    assert("namespace_identifier"@.len() == 20);
    assert("namespace_identifier"@[0] == 'n');
    reveal_strlit("qualified_identifier");
    assert("qualified_identifier"@[0] == 'q' && "qualified_identifier"@.len() == 20);
    assert("type_identifier"@.len() == 15);
    let one = syntax::text_of(scope, source);
    assert(c_family::scope_parts(scope, source) =~= seq![one]);
    assert(c_family::rightmost_of(node) == if c_family::is_qualified(name) {
        c_family::rightmost_of(name)
    } else {
        Some(name)
    });
    let parts = c_family::scope_parts(node, source);
    if name.info.kind != "qualified_identifier"@ {
        assert(parts =~= seq![one, syntax::text_of(name, source)]);
        assert(parts.drop_last() =~= seq![one]);
    } else if c_family::declarator_name_of(name, source) is Some && c_family::scope_parts(
        name,
        source,
    ).len() > 0 {
        let more = c_family::scope_parts(name, source);
        assert(parts =~= seq![one] + more);
        assert(parts.drop_last() =~= seq![one] + more.drop_last());
        assert(c_family::declared_in(name) == Some(name));
        assert(c_family::declared_in(node) == Some(node));
    }
}

/// A qualified call is looked up by the scope directly before its name.
pub proof fn law_qualifier_stands_before_the_name(
    node: SyntaxView,
    scope: SyntaxView,
    name: SyntaxView,
    source: Seq<char>,
)
    requires
        syntax::field_child(node, Field::Name) == Some(name),
    ensures
        node.info.kind == "qualified_identifier"@ && name.info.kind != "qualified_identifier"@
            && syntax::field_child(node, Field::Scope) == Some(scope) && (scope.info.kind
            == "identifier"@ || scope.info.kind == "namespace_identifier"@ || scope.info.kind
            == "type_identifier"@) ==> c_family::qualifier_of(node, source) == Some(
            syntax::text_of(scope, source),
        ),
        node.info.kind == "qualified_identifier"@ && name.info.kind == "qualified_identifier"@
            ==> c_family::qualifier_of(node, source) == c_family::qualifier_of(name, source),
        node.info.kind == "template_function"@ ==> c_family::qualifier_of(node, source)
            == c_family::qualifier_of(name, source),
        node.info.kind == "identifier"@ || node.info.kind == "field_expression"@
            ==> c_family::qualifier_of(node, source) is None,
{
    lemma_c_kinds();
}

// ─── Includes ───

/// The basename of an include is what stands between its last slash and the last
/// dot behind it.
pub proof fn law_basename_is_between_slash_and_dot(
    dir: Seq<char>,
    name: Seq<char>,
    ext: Seq<char>,
)
    requires
        forall|i: int| 0 <= i < name.len() ==> #[trigger] name[i] != '/',
        forall|i: int| 0 <= i < ext.len() ==> #[trigger] ext[i] != '/' && ext[i] != '.',
    ensures
        imports::basename_of(dir + seq!['/'] + name + seq!['.'] + ext) == name,
        imports::basename_of(name + seq!['.'] + ext) == name,
        (forall|i: int| 0 <= i < name.len() ==> #[trigger] name[i] != '.')
            ==> imports::basename_of(dir + seq!['/'] + name) == name && imports::basename_of(name)
            == name,
{
    let file = name + seq!['.'] + ext;
    assert(dir + seq!['/'] + name + seq!['.'] + ext =~= dir + seq!['/'] + file);
    assert forall|i: int| 0 <= i < file.len() implies #[trigger] file[i] != '/' by {
        if i < name.len() {
            assert(file[i] == name[i]);
        } else if i > name.len() {
            assert(file[i] == ext[i - name.len() - 1]);
        }
    }
    lemma_behind_slash(dir, file);
    lemma_before_dot(name, ext);
    if forall|i: int| 0 <= i < name.len() ==> #[trigger] name[i] != '.' {
        lemma_behind_slash(dir, name);
        lemma_not_at(name, '.');
    }
}

/// The part of a basename that stands before the dot of a file.
spec fn stem_of(file: Seq<char>) -> Seq<char> {
    let dot = crate::text::last_at(file, '.');
    if dot >= 0 {
        file.take(dot)
    } else {
        file
    }
}

proof fn lemma_behind_slash(dir: Seq<char>, file: Seq<char>)
    requires
        forall|i: int| 0 <= i < file.len() ==> #[trigger] file[i] != '/',
    ensures
        imports::basename_of(dir + seq!['/'] + file) == stem_of(file),
        imports::basename_of(file) == stem_of(file),
{
    lemma_last_at(dir, '/', file);
    lemma_not_at(file, '/');
    assert((dir + seq!['/'] + file).skip((dir.len() + 1) as int) =~= file);
    assert(file.skip(0) =~= file);
}

proof fn lemma_before_dot(name: Seq<char>, ext: Seq<char>)
    requires
        forall|i: int| 0 <= i < ext.len() ==> #[trigger] ext[i] != '.',
    ensures
        stem_of(name + seq!['.'] + ext) == name,
{
    lemma_last_at(name, '.', ext);
    assert((name + seq!['.'] + ext).take(name.len() as int) =~= name);
}

proof fn lemma_last_at(a: Seq<char>, c: char, b: Seq<char>)
    requires
        forall|i: int| 0 <= i < b.len() ==> #[trigger] b[i] != c,
    ensures
        crate::text::last_at(a + seq![c] + b, c) == a.len(),
    decreases b.len(),
{
    let s = a + seq![c] + b;
    if b.len() == 0 {
        assert(s.last() == c);
    } else {
        assert(s.drop_last() =~= a + seq![c] + b.drop_last());
        assert(s.last() == b[b.len() - 1]);
        assert forall|i: int| 0 <= i < b.drop_last().len() implies #[trigger] b.drop_last()[i]
            != c by {
            assert(b[i] != c);
        }
        lemma_last_at(a, c, b.drop_last());
    }
}

proof fn lemma_not_at(s: Seq<char>, c: char)
    requires
        forall|i: int| 0 <= i < s.len() ==> #[trigger] s[i] != c,
    ensures
        crate::text::last_at(s, c) == -1,
    decreases s.len(),
{
    if s.len() > 0 {
        assert(s.last() == s[s.len() - 1]);
        assert forall|i: int| 0 <= i < s.drop_last().len() implies #[trigger] s.drop_last()[i]
            != c by {
            assert(s[i] != c);
        }
        lemma_not_at(s.drop_last(), c);
    }
}

/// The include for a name is the first whose basename it is, and there is none
/// exactly where no include has it.
pub proof fn law_first_import_is_the_first(paths: Seq<Seq<char>>, name: Seq<char>)
    ensures
        match imports::first_import(paths, name) {
            Some(path) => exists|i: int|
                0 <= i < paths.len() && #[trigger] paths[i] == path && imports::basename_of(path)
                    == name && forall|j: int|
                    0 <= j < i ==> imports::basename_of(#[trigger] paths[j]) != name,
            None => forall|j: int|
                0 <= j < paths.len() ==> imports::basename_of(#[trigger] paths[j]) != name,
        },
    decreases paths.len(),
{
    if paths.len() > 0 && imports::basename_of(paths[0]) != name {
        let rest = paths.drop_first();
        law_first_import_is_the_first(rest, name);
        assert forall|j: int| 0 < j < paths.len() implies (#[trigger] paths[j]) == rest[j - 1] by {}
        if let Some(path) = imports::first_import(rest, name) {
            let i = choose|i: int|
                0 <= i < rest.len() && #[trigger] rest[i] == path && imports::basename_of(path)
                    == name && forall|j: int|
                    0 <= j < i ==> imports::basename_of(#[trigger] rest[j]) != name;
            assert(paths[i + 1] == path);
            assert forall|j: int| 0 <= j < i + 1 implies imports::basename_of(#[trigger] paths[j])
                != name by {
                if j > 0 {
                    assert(paths[j] == rest[j - 1]);
                }
            }
        }
    } else if paths.len() > 0 {
        assert(paths[0] == imports::first_import(paths, name)->0);
    }
}

/// The import of a call is the first include of its qualifier; only a plain name
/// that has no such include is looked up itself.
pub proof fn law_calls_are_looked_up_by_qualifier(
    func: SyntaxView,
    source: Seq<char>,
    callee: Seq<char>,
    paths: Seq<Seq<char>>,
    qualifier: Seq<char>,
)
    ensures
        c_family::qualifier_of(func, source) == Some(qualifier) && imports::first_import(
            paths,
            qualifier,
        ) is Some ==> c_family::import_for_call(func, source, callee, paths)
            == imports::first_import(paths, qualifier),
        func.info.kind == "identifier"@ && c_family::qualifier_of(func, source) is None
            ==> c_family::import_for_call(func, source, callee, paths) == imports::first_import(
            paths,
            callee,
        ),
        func.info.kind == "field_expression"@ && c_family::qualifier_of(func, source) is None
            ==> c_family::import_for_call(func, source, callee, paths) is None,
{
    lemma_c_kinds();
}

// ─── Qualified names ───

/// A qualified name is the file, the scopes and the name, with `::` between each
/// two; what stands in a scope has the scope's name before its own.
pub proof fn law_qualified_names_are_put_together(
    file: Seq<char>,
    scopes: Seq<Seq<char>>,
    outer: Seq<char>,
    name: Seq<char>,
)
    ensures
        symbols::fqn_of((QualifiedView { file, scope_path: Seq::empty(), name })) == file + "::"@
            + name,
        symbols::fqn_of((QualifiedView { file, scope_path: scopes.push(outer), name }))
            == symbols::fqn_of((QualifiedView { file, scope_path: scopes, name: outer })) + "::"@
            + name,
{
    let none = Seq::<Seq<char>>::empty();
    let (f, n) = (seq![file], seq![name]);
    crate::text::law_joined_is_put_together(f, n, "::"@);
    crate::text::law_joined_is_put_together(n, n, "::"@);
    assert(f + none + n =~= f + n);
    let inner = f + scopes + seq![outer];
    assert(f + scopes.push(outer) + n =~= inner + n);
    crate::text::law_joined_is_put_together(inner, n, "::"@);
}

/// The short name of a qualified name is what follows its last `::`.
pub proof fn law_short_name_follows_the_last_scope(head: Seq<char>, name: Seq<char>)
    requires
        forall|i: int| 0 <= i < name.len() ==> #[trigger] name[i] != ':',
    ensures
        crate::store::short_name_of(head + seq![':', ':'] + name) == name,
        crate::store::short_name_of(name) == name,
    decreases name.len(),
{
    lemma_scope_at(head, name);
    lemma_no_scope(name);
    assert((head + seq![':', ':'] + name).skip((head.len() + 2) as int) =~= name);
}

proof fn lemma_scope_at(head: Seq<char>, name: Seq<char>)
    requires
        forall|i: int| 0 <= i < name.len() ==> #[trigger] name[i] != ':',
    ensures
        crate::store::last_scope_at(head + seq![':', ':'] + name) == head.len(),
    decreases name.len(),
{
    let s = head + seq![':', ':'] + name;
    if name.len() > 0 {
        assert(s.last() == name[name.len() - 1]);
        assert(s.drop_last() =~= head + seq![':', ':'] + name.drop_last());
        assert forall|i: int| 0 <= i < name.drop_last().len() implies #[trigger] name.drop_last()[i]
            != ':' by {
            assert(name[i] != ':');
        }
        lemma_scope_at(head, name.drop_last());
    }
}

proof fn lemma_no_scope(name: Seq<char>)
    requires
        forall|i: int| 0 <= i < name.len() ==> #[trigger] name[i] != ':',
    ensures
        crate::store::last_scope_at(name) == -1,
    decreases name.len(),
{
    if name.len() >= 2 {
        assert(name.last() == name[name.len() - 1]);
        assert forall|i: int| 0 <= i < name.drop_last().len() implies #[trigger] name.drop_last()[i]
            != ':' by {
            assert(name[i] != ':');
        }
        lemma_no_scope(name.drop_last());
    }
}

// ─── Languages ───

/// Every file with one of these extensions is read by the rules of its language.
pub proof fn law_extensions_tell_the_language(ext: Seq<char>)
    ensures
        ext == "py"@ ==> crate::parsing::lang_of(Some(ext)) == Lang::Python,
        ext == "js"@ || ext == "jsx"@ || ext == "mjs"@ || ext == "cjs"@ ==> crate::parsing::lang_of(
            Some(ext),
        ) == Lang::JavaScript,
        ext == "ts"@ ==> crate::parsing::lang_of(Some(ext)) == Lang::TypeScript,
        ext == "tsx"@ ==> crate::parsing::lang_of(Some(ext)) == Lang::Tsx,
        ext == "rs"@ ==> crate::parsing::lang_of(Some(ext)) == Lang::Rust,
        ext == "go"@ ==> crate::parsing::lang_of(Some(ext)) == Lang::Go,
        ext == "java"@ ==> crate::parsing::lang_of(Some(ext)) == Lang::Java,
        ext == "c"@ ==> crate::parsing::lang_of(Some(ext)) == Lang::C,
        ext == "cpp"@ || ext == "cc"@ || ext == "cxx"@ || ext == "h"@ || ext == "hpp"@ || ext
            == "hxx"@ || ext == "hh"@ ==> crate::parsing::lang_of(Some(ext)) == Lang::Cpp,
        crate::parsing::lang_of(None) == Lang::Other,
{
    reveal_strlit("py");
    reveal_strlit("js");
    reveal_strlit("jsx");
    reveal_strlit("mjs");
    reveal_strlit("cjs");
    reveal_strlit("ts");
    reveal_strlit("tsx");
    reveal_strlit("rs");
    reveal_strlit("go");
    reveal_strlit("java");
    reveal_strlit("c");
    reveal_strlit("cpp");
    reveal_strlit("cc");
    reveal_strlit("cxx");
    reveal_strlit("h");
    reveal_strlit("hpp");
    reveal_strlit("hxx");
    reveal_strlit("hh");
    assert("py"@.len() == 2 && "py"@[0] == 'p');
    assert("js"@.len() == 2 && "js"@[0] == 'j');
    assert("jsx"@.len() == 3 && "jsx"@[0] == 'j');
    assert("mjs"@.len() == 3 && "mjs"@[0] == 'm');
    assert("cjs"@.len() == 3 && "cjs"@[0] == 'c' && "cjs"@[1] == 'j');
    assert("ts"@.len() == 2 && "ts"@[0] == 't');
    assert("tsx"@.len() == 3 && "tsx"@[0] == 't');
    assert("rs"@.len() == 2 && "rs"@[0] == 'r');
    assert("go"@.len() == 2 && "go"@[0] == 'g');
    assert("java"@.len() == 4);
    assert("c"@.len() == 1 && "c"@[0] == 'c');
    assert("cpp"@.len() == 3 && "cpp"@[0] == 'c' && "cpp"@[1] == 'p');
    assert("cc"@.len() == 2 && "cc"@[0] == 'c');
    assert("cxx"@.len() == 3 && "cxx"@[0] == 'c' && "cxx"@[1] == 'x');
    assert("h"@.len() == 1 && "h"@[0] == 'h');
    assert("hpp"@.len() == 3 && "hpp"@[0] == 'h' && "hpp"@[1] == 'p');
    assert("hxx"@.len() == 3 && "hxx"@[0] == 'h' && "hxx"@[1] == 'x');
    assert("hh"@.len() == 2 && "hh"@[0] == 'h');
}

/// A pointer or a reference declares what the first of its named children declares
/// that declares anything.
pub proof fn law_indirections_declare_what_they_point_to(
    node: SyntaxView,
    source: Seq<char>,
    i: int,
)
    requires
        node.info.kind == "pointer_declarator"@ || node.info.kind == "reference_declarator"@
            || node.info.kind == "abstract_reference_declarator"@,
        0 <= i < node.children.len(),
        node.children[i].info.named,
        c_family::declarator_name_of(node.children[i], source) is Some,
        forall|j: int|
            0 <= j < i ==> !(#[trigger] node.children[j]).info.named || c_family::declarator_name_of(
                node.children[j],
                source,
            ) is None,
    ensures
        c_family::declarator_name_of(node, source) == c_family::declarator_name_of(
            node.children[i],
            source,
        ),
        c_family::scope_prefix_of(node, source) == c_family::scope_prefix_of(
            node.children[i],
            source,
        ),
{
    lemma_c_kinds();
    reveal_strlit("abstract_reference_declarator");
    assert("abstract_reference_declarator"@.len() == 29);
    reveal_strlit("identifier");
    reveal_strlit("field_identifier");
    reveal_strlit("destructor_name");
    reveal_strlit("qualified_identifier");
    reveal_strlit("function_declarator");
    assert("identifier"@.len() == 10);
    assert("field_identifier"@.len() == 16);
    assert("destructor_name"@.len() == 15);
    assert("qualified_identifier"@.len() == 20);
    assert("function_declarator"@.len() == 19);
    assert forall|j: int| 0 <= j < i implies !(#[trigger] node.children[j]).info.named
        || c_family::declared_in(node.children[j]) is None by {
        lemma_declares(node.children[j], source);
    }
    lemma_first_declared_is(node.children, i);
    assert(c_family::declared_in(node) == c_family::first_declared(node.children));
}

/// What declares anything has a name.
proof fn lemma_declares(node: SyntaxView, source: Seq<char>)
    ensures
        c_family::declared_in(node) is Some <==> c_family::declarator_name_of(node, source) is Some,
{
    lemma_declared_is_name(node);
}

proof fn lemma_declared_is_name(node: SyntaxView)
    ensures
        c_family::declared_in(node) matches Some(leaf) ==> c_family::is_plain_name(leaf) || (
        c_family::is_qualified(leaf) && c_family::rightmost_of(leaf) is Some),
    decreases node, 0int,
{
    if c_family::is_plain_name(node) || c_family::is_qualified(node) {
    } else if node.info.kind == "function_declarator"@ {
        let i = syntax::field_at(node.children, Field::Declarator);
        if 0 <= i < node.children.len() {
            lemma_declared_is_name(node.children[i]);
        }
    } else if c_family::is_indirection(node) {
        lemma_first_is_name(node.children);
    }
}

proof fn lemma_first_is_name(nodes: Seq<SyntaxView>)
    ensures
        c_family::first_declared(nodes) matches Some(leaf) ==> c_family::is_plain_name(leaf) || (
        c_family::is_qualified(leaf) && c_family::rightmost_of(leaf) is Some),
    decreases nodes, 1int,
{
    if nodes.len() > 0 {
        lemma_declared_is_name(nodes[0]);
        lemma_first_is_name(nodes.drop_first());
    }
}

proof fn lemma_first_declared_is(nodes: Seq<SyntaxView>, i: int)
    requires
        0 <= i < nodes.len(),
        nodes[i].info.named,
        c_family::declared_in(nodes[i]) is Some,
        forall|j: int|
            0 <= j < i ==> !(#[trigger] nodes[j]).info.named || c_family::declared_in(
                nodes[j],
            ) is None,
    ensures
        c_family::first_declared(nodes) == c_family::declared_in(nodes[i]),
    decreases i,
{
    if i > 0 {
        let rest = nodes.drop_first();
        assert(!nodes[0].info.named || c_family::declared_in(nodes[0]) is None);
        assert forall|j: int| 0 <= j < i - 1 implies !(#[trigger] rest[j]).info.named
            || c_family::declared_in(rest[j]) is None by {
            assert(rest[j] == nodes[j + 1]);
        }
        lemma_first_declared_is(rest, i - 1);
    }
}

/// Of a scope that is itself qualified the qualifier is its last part.
pub proof fn law_qualifier_of_a_qualified_scope(
    node: SyntaxView,
    scope: SyntaxView,
    part: SyntaxView,
    name: SyntaxView,
    source: Seq<char>,
)
    requires
        node.info.kind == "qualified_identifier"@,
        syntax::field_child(node, Field::Name) == Some(name),
        name.info.kind != "qualified_identifier"@,
        syntax::field_child(node, Field::Scope) == Some(scope),
        scope.info.kind == "qualified_identifier"@,
        syntax::field_child(scope, Field::Name) == Some(part),
    ensures
        c_family::qualifier_of(node, source) == Some(syntax::text_of(part, source)),
{
    lemma_c_kinds();
    reveal_strlit("namespace_identifier");
    reveal_strlit("type_identifier");
    reveal_strlit("qualified_identifier");
    assert("namespace_identifier"@[0] == 'n');
    assert("qualified_identifier"@[0] == 'q');
    assert("type_identifier"@[0] == 't');
}

/// The parts of a qualified name are those of its scope, whatever that is, and then
/// those of its name.
pub proof fn law_parts_of_a_qualified_name(
    node: SyntaxView,
    scope: SyntaxView,
    name: SyntaxView,
    source: Seq<char>,
)
    requires
        node.info.kind == "qualified_identifier"@,
        syntax::field_child(node, Field::Name) == Some(name),
    ensures
        ({
            let right = if name.info.kind == "qualified_identifier"@ {
                c_family::scope_parts(name, source)
            } else {
                seq![syntax::text_of(name, source)]
            };
            &&& syntax::field_child(node, Field::Scope) == Some(scope) ==> c_family::scope_parts(
                node,
                source,
            ) == c_family::scope_parts(scope, source) + right
            &&& syntax::field_child(node, Field::Scope) is None ==> c_family::scope_parts(
                node,
                source,
            ) == right
            &&& c_family::declarator_name_of(node, source) is Some && right.len() > 0
                ==> c_family::scope_prefix_of(node, source) == c_family::scope_parts(
                node,
                source,
            ).drop_last()
        }),
{
    lemma_c_kinds();
    let right = if name.info.kind == "qualified_identifier"@ {
        c_family::scope_parts(name, source)
    } else {
        seq![syntax::text_of(name, source)]
    };
    if syntax::field_child(node, Field::Scope) is None {
        assert(c_family::scope_parts(node, source) =~= right);
    }
    lemma_declares(node, source);
}

/// Where a node ends before it begins or behind the source, it has no text; a list
/// without rows is no tree.
pub proof fn law_nothing_stands_outside_of_the_source(node: SyntaxView, source: Seq<char>)
    ensures
        node.info.start_byte > node.info.end_byte || node.info.end_byte
            > vstd::utf8::encode_utf8(source).len() ==> syntax::text_of(node, source).len() == 0,
        syntax::tree_from(Seq::empty()) is None,
{
}

}
