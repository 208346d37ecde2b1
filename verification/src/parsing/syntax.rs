//! Syntax trees as plain values, and the tree-sitter grammars that yield them.
use vstd::prelude::*;

use crate::text::same_text;

verus! {

/// The fields of the grammars that the extraction asks for.
#[derive(Clone, Copy, Debug, PartialEq, Eq, Structural)]
pub enum Field {
    Name,
    Function,
    Type,
    Declarator,
    Scope,
    /// The field of the name `field`: the member in `object.member`.
    Member,
    Path,
}

impl Field {
    pub open spec fn spelling(self) -> Seq<char> {
        match self {
            Field::Name => "name"@,
            Field::Function => "function"@,
            Field::Type => "type"@,
            Field::Declarator => "declarator"@,
            Field::Scope => "scope"@,
            Field::Member => "field"@,
            Field::Path => "path"@,
        }
    }

    /// The field's name in the grammars.
    pub fn as_str(self) -> (r: &'static str)
        ensures
            r@ == self.spelling(),
    {
        match self {
            Field::Name => "name",
            Field::Function => "function",
            Field::Type => "type",
            Field::Declarator => "declarator",
            Field::Scope => "scope",
            Field::Member => "field",
            Field::Path => "path",
        }
    }
}

/// What the extraction reads of one syntax node: its kind, the fields for which
/// its parent gives it, whether it is named, and where it stands.
/// `start_byte..end_byte` are offsets into the source, rows count from zero.
#[derive(Debug)]
pub struct NodeInfo {
    pub kind: String,
    pub fields: Vec<Field>,
    pub named: bool,
    pub start_byte: usize,
    pub end_byte: usize,
    pub start_row: usize,
    pub end_row: usize,
}

/// What a [`NodeInfo`] says.
pub struct InfoView {
    pub kind: Seq<char>,
    pub fields: Set<Field>,
    pub named: bool,
    pub start_byte: usize,
    pub end_byte: usize,
    pub start_row: usize,
    pub end_row: usize,
}

impl View for NodeInfo {
    type V = InfoView;

    open spec fn view(&self) -> InfoView {
        InfoView {
            kind: self.kind@,
            fields: self.fields@.to_set(),
            named: self.named,
            start_byte: self.start_byte,
            end_byte: self.end_byte,
            start_row: self.start_row,
            end_row: self.end_row,
        }
    }
}

impl Clone for NodeInfo {
    fn clone(&self) -> (r: Self)
        ensures
            r@ == self@,
    {
        let mut fields: Vec<Field> = Vec::new();
        let mut i: usize = 0;
        while i < self.fields.len()
            invariant
                i <= self.fields@.len(),
                fields@ == self.fields@.subrange(0, i as int),
            decreases self.fields@.len() - i,
        {
            fields.push(self.fields[i]);
            i = i + 1;
        }
        assert(fields@ =~= self.fields@);
        NodeInfo {
            kind: self.kind.clone(),
            fields,
            named: self.named,
            start_byte: self.start_byte,
            end_byte: self.end_byte,
            start_row: self.start_row,
            end_row: self.end_row,
        }
    }
}

/// One line of a syntax tree written out in preorder.
#[derive(Debug)]
pub struct NodeRow {
    pub depth: usize,
    pub info: NodeInfo,
}

/// What a [`NodeRow`] says.
pub struct RowView {
    pub depth: usize,
    pub info: InfoView,
}

impl View for NodeRow {
    type V = RowView;

    open spec fn view(&self) -> RowView {
        RowView { depth: self.depth, info: self.info@ }
    }
}

pub open spec fn row_views(v: Seq<NodeRow>) -> Seq<RowView> {
    Seq::new(v.len(), |i: int| v[i]@)
}

/// A syntax node with everything below it.
#[derive(Debug)]
pub struct SyntaxNode {
    pub info: NodeInfo,
    pub children: Vec<SyntaxNode>,
}

/// What a [`SyntaxNode`] says.
pub struct SyntaxView {
    pub info: InfoView,
    pub children: Seq<SyntaxView>,
}

impl SyntaxNode {
    pub open spec fn view(&self) -> SyntaxView
        decreases self,
    {
        SyntaxView {
            info: self.info@,
            children: Seq::new(
                self.children@.len(),
                |i: int|
                    if 0 <= i < self.children@.len() {
                        self.children@[i].view()
                    } else {
                        arbitrary()
                    },
            ),
        }
    }
}

pub open spec fn node_views(v: Seq<SyntaxNode>) -> Seq<SyntaxView> {
    Seq::new(v.len(), |i: int| v[i].view())
}

pub proof fn lemma_children(node: SyntaxNode)
    ensures
        node.view().children == node_views(node.children@),
{
    assert(node.view().children =~= node_views(node.children@));
}

// ─── From preorder rows to a tree ───

/// The first position at or after `k` whose row is no deeper than `depth`.
pub open spec fn skip_deeper(rows: Seq<RowView>, k: int, depth: usize) -> int
    decreases rows.len() - k,
{
    if 0 <= k < rows.len() && rows[k].depth > depth {
        skip_deeper(rows, k + 1, depth)
    } else {
        k
    }
}

pub proof fn lemma_skip_deeper(rows: Seq<RowView>, k: int, depth: usize)
    requires
        0 <= k <= rows.len(),
    ensures
        k <= skip_deeper(rows, k, depth) <= rows.len(),
    decreases rows.len() - k,
{
    if k < rows.len() && rows[k].depth > depth {
        lemma_skip_deeper(rows, k + 1, depth);
    }
}

/// Skipping what is below a deeper row first changes nothing.
proof fn lemma_skip_deeper_twice(rows: Seq<RowView>, k: int, inner: usize, depth: usize)
    requires
        0 <= k <= rows.len(),
        inner > depth,
    ensures
        skip_deeper(rows, skip_deeper(rows, k, inner), depth) == skip_deeper(rows, k, depth),
    decreases rows.len() - k,
{
    if k < rows.len() && rows[k].depth > inner {
        lemma_skip_deeper_twice(rows, k + 1, inner, depth);
    }
}

/// The trees that begin at position `k` and stand below a node of the given
/// depth: one for each row that the one before it does not hold.
pub open spec fn siblings_at(rows: Seq<RowView>, k: int, depth: usize) -> Seq<SyntaxView>
    decreases rows.len() - k, 1int,
{
    if 0 <= k < rows.len() && rows[k].depth > depth {
        proof {
            lemma_skip_deeper(rows, k + 1, rows[k].depth);
        }
        seq![node_at(rows, k)] + siblings_at(
            rows,
            skip_deeper(rows, k + 1, rows[k].depth),
            depth,
        )
    } else {
        Seq::empty()
    }
}

/// The tree whose root is the row at position `k`: the rows that follow it and
/// are deeper stand below it.
pub open spec fn node_at(rows: Seq<RowView>, k: int) -> SyntaxView
    decreases rows.len() - k, 0int,
    when 0 <= k < rows.len()
{
    SyntaxView { info: rows[k].info, children: siblings_at(rows, k + 1, rows[k].depth) }
}

/// The tree that a list of preorder rows describes; its first row is the root.
pub open spec fn tree_from(rows: Seq<RowView>) -> Option<SyntaxView> {
    if rows.len() == 0 {
        None
    } else {
        Some(node_at(rows, 0))
    }
}

fn read_siblings(rows: &Vec<NodeRow>, start: usize, depth: usize) -> (r: (
    Vec<SyntaxNode>,
    usize,
))
    requires
        start <= rows@.len(),
    ensures
        node_views(r.0@) == siblings_at(row_views(rows@), start as int, depth),
        r.1 == skip_deeper(row_views(rows@), start as int, depth),
        start <= r.1 <= rows@.len(),
    decreases rows@.len() - start,
{
    let ghost all = row_views(rows@);
    let mut out: Vec<SyntaxNode> = Vec::new();
    let mut k: usize = start;
    assert(node_views(out@) + siblings_at(all, k as int, depth) =~= siblings_at(
        all,
        k as int,
        depth,
    ));
    while k < rows.len() && rows[k].depth > depth
        invariant
            all == row_views(rows@),
            start <= k <= rows@.len(),
            node_views(out@) + siblings_at(all, k as int, depth) == siblings_at(
                all,
                start as int,
                depth,
            ),
            skip_deeper(all, k as int, depth) == skip_deeper(all, start as int, depth),
        decreases rows@.len() - k,
    {
        let inner = rows[k].depth;
        let (children, next) = read_siblings(rows, k + 1, inner);
        let node = SyntaxNode { info: rows[k].info.clone(), children };
        proof {
            lemma_children(node);
            assert(node.view() == node_at(all, k as int));
            lemma_skip_deeper_twice(all, k + 1, inner, depth);
            let ghost grown = node_views(out@) + seq![node.view()];
            assert(node_views(out@.push(node)) =~= grown);
            assert(grown + siblings_at(all, next as int, depth) =~= node_views(out@) + (seq![
                node.view(),
            ] + siblings_at(all, next as int, depth)));
        }
        out.push(node);
        k = next;
    }
    assert(node_views(out@) + siblings_at(all, k as int, depth) =~= node_views(out@));
    (out, k)
}

/// Rebuilds the tree that the rows describe.
pub fn build_tree(rows: &Vec<NodeRow>) -> (r: Option<SyntaxNode>)
    ensures
        match r {
            Some(root) => tree_from(row_views(rows@)) == Some(root.view()),
            None => rows@.len() == 0,
        },
{
    if rows.len() == 0 {
        return None;
    }
    let (children, _next) = read_siblings(rows, 1, rows[0].depth);
    let root = SyntaxNode { info: rows[0].info.clone(), children };
    proof {
        lemma_children(root);
    }
    Some(root)
}

// ─── Reading a node ───

/// The text between two byte offsets, or nothing where they do not enclose
/// whole characters of the source.
pub open spec fn text_between(source: Seq<char>, start: int, end: int) -> Seq<char> {
    let bytes = vstd::utf8::encode_utf8(source);
    if start <= end <= bytes.len() && vstd::utf8::is_char_boundary(bytes, start) && vstd::utf8::is_char_boundary(
        bytes,
        end,
    ) {
        vstd::utf8::decode_utf8(bytes.subrange(start, end))
    } else {
        Seq::empty()
    }
}

pub open spec fn text_of(node: SyntaxView, source: Seq<char>) -> Seq<char> {
    text_between(source, node.info.start_byte as int, node.info.end_byte as int)
}

pub fn node_text<'a>(node: &SyntaxNode, source: &'a str) -> (r: &'a str)
    ensures
        r@ == text_of(node.view(), source@),
{
    let start = node.info.start_byte;
    let end = node.info.end_byte;
    if start <= end && end <= source.as_bytes().len() && source.is_char_boundary(start)
        && source.is_char_boundary(end) {
        let (_head, tail) = source.split_at(start);
        let ghost bytes = vstd::utf8::encode_utf8(source@);
        let ghost rest = vstd::utf8::encode_utf8(tail@);
        proof {
            vstd::utf8::encode_utf8_valid_utf8(source@);
            vstd::utf8::encode_utf8_valid_utf8(tail@);
            if end < bytes.len() {
                assert(rest[end - start] == bytes[end as int]);
                vstd::utf8::is_char_boundary_iff_not_is_continuation_byte(bytes, end as int);
                vstd::utf8::is_char_boundary_iff_not_is_continuation_byte(rest, end - start);
            } else {
                vstd::utf8::is_char_boundary_start_end_of_seq(rest);
            }
        }
        let (text, _after) = tail.split_at(end - start);
        proof {
            broadcast use vstd::utf8::encode_utf8_decode_utf8;

            assert(rest.subrange(0, end - start) =~= bytes.subrange(start as int, end as int));
            assert(vstd::utf8::decode_utf8(vstd::utf8::encode_utf8(text@)) == text@);
        }
        text
    } else {
        proof {
            reveal_strlit("");
            assert(""@ =~= Seq::<char>::empty());
        }
        ""
    }
}

/// The 1-based line of a row.
pub open spec fn line_of(row: usize) -> u32 {
    if row >= u32::MAX {
        u32::MAX
    } else {
        (row + 1) as u32
    }
}

fn line_number(row: usize) -> (r: u32)
    ensures
        r == line_of(row),
{
    if row >= u32::MAX as usize {
        u32::MAX
    } else {
        row as u32 + 1
    }
}

pub fn node_line_start(node: &SyntaxNode) -> (r: u32)
    ensures
        r == line_of(node.view().info.start_row),
{
    line_number(node.info.start_row)
}

pub fn node_line_end(node: &SyntaxNode) -> (r: u32)
    ensures
        r == line_of(node.view().info.end_row),
{
    line_number(node.info.end_row)
}

pub open spec fn has_field(node: SyntaxView, field: Field) -> bool {
    node.info.fields.contains(field)
}

fn is_held_as(info: &NodeInfo, field: Field) -> (r: bool)
    ensures
        r == info@.fields.contains(field),
{
    let mut i: usize = 0;
    while i < info.fields.len()
        invariant
            i <= info.fields@.len(),
            forall|j: int| 0 <= j < i ==> #[trigger] info.fields@[j] != field,
        decreases info.fields@.len() - i,
    {
        if info.fields[i] == field {
            assert(info.fields@.contains(info.fields@[i as int]));
            return true;
        }
        i = i + 1;
    }
    false
}

/// The position of the first child that the node gives for the field, or the
/// number of children where there is none.
pub open spec fn field_at(children: Seq<SyntaxView>, field: Field) -> int
    decreases children.len(),
{
    if children.len() == 0 || has_field(children[0], field) {
        0
    } else {
        1 + field_at(children.drop_first(), field)
    }
}

/// The child that the node gives for the field.
pub open spec fn field_child(node: SyntaxView, field: Field) -> Option<SyntaxView> {
    let i = field_at(node.children, field);
    if 0 <= i < node.children.len() {
        Some(node.children[i])
    } else {
        None
    }
}

pub fn field_index(node: &SyntaxNode, field: Field) -> (r: Option<usize>)
    ensures
        match r {
            Some(i) => {
                &&& i < node.children@.len()
                &&& field_at(node.view().children, field) == i
                &&& field_child(node.view(), field) == Some(node.children@[i as int].view())
            },
            None => field_child(node.view(), field) is None && field_at(
                node.view().children,
                field,
            ) == node.children@.len(),
        },
{
    let ghost all = node.view().children;
    let mut i: usize = 0;
    proof {
        lemma_children(*node);
    }
    assert(all.skip(0) =~= all);
    while i < node.children.len()
        invariant
            all == node_views(node.children@),
            all == node.view().children,
            i <= node.children@.len(),
            field_at(all, field) == i + field_at(all.skip(i as int), field),
        decreases node.children@.len() - i,
    {
        let found = is_held_as(&node.children[i].info, field);
        assert(all.skip(i as int)[0] == node.children@[i as int].view());
        if found {
            return Some(i);
        }
        assert(all.skip(i as int).drop_first() =~= all.skip(i + 1));
        i = i + 1;
    }
    None
}

/// The text of the child that the node gives for the field.
pub open spec fn field_text_of(
    node: SyntaxView,
    field: Field,
    source: Seq<char>,
) -> Option<Seq<char>> {
    match field_child(node, field) {
        Some(child) => Some(text_of(child, source)),
        None => None,
    }
}

pub fn field_text<'a>(node: &SyntaxNode, field: Field, source: &'a str) -> (r: Option<&'a str>)
    ensures
        match r {
            Some(text) => field_text_of(node.view(), field, source@) == Some(text@),
            None => field_text_of(node.view(), field, source@) is None,
        },
{
    match child_by_field_name(node, field) {
        Some(child) => Some(node_text(child, source)),
        None => None,
    }
}

pub fn is_kind(node: &SyntaxNode, kind: &str) -> (r: bool)
    ensures
        r == (node.view().info.kind == kind@),
{
    same_text(node.info.kind.as_str(), kind)
}

/// The child that the node gives for the field.
pub fn child_by_field_name<'a>(node: &'a SyntaxNode, field: Field) -> (r: Option<&'a SyntaxNode>)
    ensures
        match r {
            Some(child) => field_child(node.view(), field) == Some(child.view()),
            None => field_child(node.view(), field) is None,
        },
{
    match field_index(node, field) {
        Some(i) => Some(&node.children[i]),
        None => None,
    }
}

}
