//! The tree-sitter grammars, and the rows of the trees that they yield.
use vstd::prelude::*;

use crate::parsing::syntax::{Field, NodeInfo, NodeRow};

verus! {

/// A syntax tree of tree-sitter. What it holds is read through [`rows_of`].
#[verifier::external_type_specification]
#[verifier::external_body]
pub struct ExTree(tree_sitter::Tree);

/// The nodes of a tree, named and anonymous, in preorder: the root first, each
/// node before what is below it, siblings from left to right.
pub uninterp spec fn tree_rows(tree: tree_sitter::Tree) -> Seq<
    crate::parsing::syntax::RowView,
>;

/// `Node::descendant_count` of the root (tree-sitter): how many nodes the tree
/// has, the root included.
#[verifier::external_body]
fn row_count(tree: &tree_sitter::Tree) -> (r: usize)
    ensures
        r == tree_rows(*tree).len(),
{
    tree.root_node().descendant_count()
}

/// A row without the fields for which its node is given.
pub open spec fn without_fields(
    row: crate::parsing::syntax::RowView,
) -> crate::parsing::syntax::RowView {
    crate::parsing::syntax::RowView {
        info: crate::parsing::syntax::InfoView { fields: Set::empty(), ..row.info },
        ..row
    }
}

/// `TreeCursor::goto_descendant` from the root (tree-sitter): the node at the
/// given place of the preorder, with its depth below the root, its kind,
/// whether it is named, its byte range and the rows of its ends.
#[verifier::external_body]
fn row_at(tree: &tree_sitter::Tree, index: usize) -> (r: NodeRow)
    requires
        index < tree_rows(*tree).len(),
    ensures
        r@ == without_fields(tree_rows(*tree)[index as int]),
{
    let mut cursor = tree.walk();
    cursor.goto_descendant(index);
    let node = cursor.node();
    let kind = node.kind().to_string();
    let (start_byte, end_byte) = (node.start_byte(), node.end_byte());
    let (start_row, end_row) = (node.start_position().row, node.end_position().row);
    let named = node.is_named();
    NodeRow {
        depth: cursor.depth() as usize,
        info: NodeInfo { kind, fields: vec![], named, start_byte, end_byte, start_row, end_row },
    }
}

/// `Node::child_by_field_name` (tree-sitter), asked of the parent of the node at
/// the given place of the preorder: whether it gives that node for the field's
/// name. The root has no parent, and no field gives it.
#[verifier::external_body]
fn given_for(tree: &tree_sitter::Tree, index: usize, field: Field, name: &str) -> (r: bool)
    requires
        index < tree_rows(*tree).len(),
        name@ == field.spelling(),
    ensures
        r == tree_rows(*tree)[index as int].info.fields.contains(field),
{
    let mut cursor = tree.walk();
    cursor.goto_descendant(index);
    let node = cursor.node();
    cursor.goto_parent() && cursor.node().child_by_field_name(name) == Some(node)
}

fn add_field(tree: &tree_sitter::Tree, index: usize, field: Field, fields: &mut Vec<Field>)
    requires
        index < tree_rows(*tree).len(),
    ensures
        final(fields)@.to_set() == if tree_rows(*tree)[index as int].info.fields.contains(field) {
            old(fields)@.to_set().insert(field)
        } else {
            old(fields)@.to_set()
        },
{
    if given_for(tree, index, field, field.as_str()) {
        proof {
            fields@.lemma_push_to_set_commute(field);
        }
        fields.push(field);
    }
}

/// The fields for which the node at the given place is given.
fn fields_at(tree: &tree_sitter::Tree, index: usize) -> (r: Vec<Field>)
    requires
        index < tree_rows(*tree).len(),
    ensures
        r@.to_set() == tree_rows(*tree)[index as int].info.fields,
{
    let mut fields: Vec<Field> = Vec::new();
    assert(fields@.to_set() =~= Set::empty());
    add_field(tree, index, Field::Name, &mut fields);
    add_field(tree, index, Field::Function, &mut fields);
    add_field(tree, index, Field::Type, &mut fields);
    add_field(tree, index, Field::Declarator, &mut fields);
    add_field(tree, index, Field::Scope, &mut fields);
    add_field(tree, index, Field::Member, &mut fields);
    add_field(tree, index, Field::Path, &mut fields);
    proof {
        let held = tree_rows(*tree)[index as int].info.fields;
        assert forall|f: Field| fields@.to_set().contains(f) == held.contains(f) by {
            match f {
                Field::Name => {},
                Field::Function => {},
                Field::Type => {},
                Field::Declarator => {},
                Field::Scope => {},
                Field::Member => {},
                Field::Path => {},
            }
        }
        assert(fields@.to_set() =~= held);
    }
    fields
}

/// All rows of a tree.
pub fn rows_of(tree: &tree_sitter::Tree) -> (r: Vec<NodeRow>)
    ensures
        crate::parsing::syntax::row_views(r@) == tree_rows(*tree),
{
    let count = row_count(tree);
    let mut rows: Vec<NodeRow> = Vec::new();
    let mut i: usize = 0;
    while i < count
        invariant
            count == tree_rows(*tree).len(),
            i <= count,
            rows@.len() == i,
            forall|j: int| 0 <= j < i ==> (#[trigger] rows@[j])@ == tree_rows(*tree)[j],
        decreases count - i,
    {
        let mut row = row_at(tree, i);
        row.info.fields = fields_at(tree, i);
        rows.push(row);
        i = i + 1;
    }
    assert(crate::parsing::syntax::row_views(rows@) =~= tree_rows(*tree));
    rows
}

/// Whether a parse gave a tree, and which.
pub open spec fn parsed_as(
    r: Option<tree_sitter::Tree>,
    rows: Option<Seq<crate::parsing::syntax::RowView>>,
) -> bool {
    match r {
        Some(tree) => rows == Some(tree_rows(tree)),
        None => rows is None,
    }
}

/// The rows of the tree that the Python grammar yields for a source text, if it
/// yields one.
pub uninterp spec fn python_tree(source: Seq<char>) -> Option<Seq<crate::parsing::syntax::RowView>>;

/// `Parser::parse` (tree-sitter) with the grammar of `tree_sitter_python`, from scratch. The
/// tree is named, not described; it depends on the text alone. There is none
/// where the grammar does not fit the library.
#[verifier::external_body]
pub(crate) fn parse_python(source: &str) -> (r: Option<tree_sitter::Tree>)
    ensures
        parsed_as(r, python_tree(source@)),
{
    let mut parser = tree_sitter::Parser::new();
    parser.set_language(&tree_sitter_python::LANGUAGE.into()).ok()?;
    parser.parse(source, None)
}

/// The rows of the tree that the JavaScript grammar yields for a source text, if it
/// yields one.
pub uninterp spec fn javascript_tree(source: Seq<char>) -> Option<Seq<crate::parsing::syntax::RowView>>;

/// `Parser::parse` (tree-sitter) with the grammar of `tree_sitter_javascript`, from scratch. The
/// tree is named, not described; it depends on the text alone. There is none
/// where the grammar does not fit the library.
#[verifier::external_body]
pub(crate) fn parse_javascript(source: &str) -> (r: Option<tree_sitter::Tree>)
    ensures
        parsed_as(r, javascript_tree(source@)),
{
    let mut parser = tree_sitter::Parser::new();
    parser.set_language(&tree_sitter_javascript::LANGUAGE.into()).ok()?;
    parser.parse(source, None)
}

/// The rows of the tree that the TypeScript grammar yields for a source text, if it
/// yields one.
pub uninterp spec fn typescript_tree(source: Seq<char>) -> Option<Seq<crate::parsing::syntax::RowView>>;

/// `Parser::parse` (tree-sitter) with the grammar of `tree_sitter_typescript`, from scratch. The
/// tree is named, not described; it depends on the text alone. There is none
/// where the grammar does not fit the library.
#[verifier::external_body]
pub(crate) fn parse_typescript(source: &str) -> (r: Option<tree_sitter::Tree>)
    ensures
        parsed_as(r, typescript_tree(source@)),
{
    let mut parser = tree_sitter::Parser::new();
    parser.set_language(&tree_sitter_typescript::LANGUAGE_TYPESCRIPT.into()).ok()?;
    parser.parse(source, None)
}

/// The rows of the tree that the Rust grammar yields for a source text, if it
/// yields one.
pub uninterp spec fn rust_tree(source: Seq<char>) -> Option<Seq<crate::parsing::syntax::RowView>>;

/// `Parser::parse` (tree-sitter) with the grammar of `tree_sitter_rust`, from scratch. The
/// tree is named, not described; it depends on the text alone. There is none
/// where the grammar does not fit the library.
#[verifier::external_body]
pub(crate) fn parse_rust(source: &str) -> (r: Option<tree_sitter::Tree>)
    ensures
        parsed_as(r, rust_tree(source@)),
{
    let mut parser = tree_sitter::Parser::new();
    parser.set_language(&tree_sitter_rust::LANGUAGE.into()).ok()?;
    parser.parse(source, None)
}

/// The rows of the tree that the Go grammar yields for a source text, if it
/// yields one.
pub uninterp spec fn go_tree(source: Seq<char>) -> Option<Seq<crate::parsing::syntax::RowView>>;

/// `Parser::parse` (tree-sitter) with the grammar of `tree_sitter_go`, from scratch. The
/// tree is named, not described; it depends on the text alone. There is none
/// where the grammar does not fit the library.
#[verifier::external_body]
pub(crate) fn parse_go(source: &str) -> (r: Option<tree_sitter::Tree>)
    ensures
        parsed_as(r, go_tree(source@)),
{
    let mut parser = tree_sitter::Parser::new();
    parser.set_language(&tree_sitter_go::LANGUAGE.into()).ok()?;
    parser.parse(source, None)
}

/// The rows of the tree that the Java grammar yields for a source text, if it
/// yields one.
pub uninterp spec fn java_tree(source: Seq<char>) -> Option<Seq<crate::parsing::syntax::RowView>>;

/// `Parser::parse` (tree-sitter) with the grammar of `tree_sitter_java`, from scratch. The
/// tree is named, not described; it depends on the text alone. There is none
/// where the grammar does not fit the library.
#[verifier::external_body]
pub(crate) fn parse_java(source: &str) -> (r: Option<tree_sitter::Tree>)
    ensures
        parsed_as(r, java_tree(source@)),
{
    let mut parser = tree_sitter::Parser::new();
    parser.set_language(&tree_sitter_java::LANGUAGE.into()).ok()?;
    parser.parse(source, None)
}

/// The rows of the tree that the C grammar yields for a source text, if it
/// yields one.
pub uninterp spec fn c_tree(source: Seq<char>) -> Option<Seq<crate::parsing::syntax::RowView>>;

/// `Parser::parse` (tree-sitter) with the grammar of `tree_sitter_c`, from scratch. The
/// tree is named, not described; it depends on the text alone. There is none
/// where the grammar does not fit the library.
#[verifier::external_body]
pub(crate) fn parse_c(source: &str) -> (r: Option<tree_sitter::Tree>)
    ensures
        parsed_as(r, c_tree(source@)),
{
    let mut parser = tree_sitter::Parser::new();
    parser.set_language(&tree_sitter_c::LANGUAGE.into()).ok()?;
    parser.parse(source, None)
}

/// The rows of the tree that the C++ grammar yields for a source text, if it
/// yields one.
pub uninterp spec fn cpp_tree(source: Seq<char>) -> Option<Seq<crate::parsing::syntax::RowView>>;

/// `Parser::parse` (tree-sitter) with the grammar of `tree_sitter_cpp`, from scratch. The
/// tree is named, not described; it depends on the text alone. There is none
/// where the grammar does not fit the library.
#[verifier::external_body]
pub(crate) fn parse_cpp(source: &str) -> (r: Option<tree_sitter::Tree>)
    ensures
        parsed_as(r, cpp_tree(source@)),
{
    let mut parser = tree_sitter::Parser::new();
    parser.set_language(&tree_sitter_cpp::LANGUAGE.into()).ok()?;
    parser.parse(source, None)
}

}
