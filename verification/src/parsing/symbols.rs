//! Symbols and their qualified names.
use vstd::prelude::*;

use crate::text::{clone_opt, clone_texts, join};

verus! {

broadcast use vstd::seq_lib::group_seq_properties;

#[derive(Clone, Copy, Debug, PartialEq, Eq, Structural)]
pub enum SymbolKind {
    Function,
    Method,
    Class,
    Struct,
    Trait,
    Impl,
    Module,
    Interface,
}

/// A symbol's name together with the file and the scopes that hold it.
#[derive(Debug)]
pub struct QualifiedSymbol {
    pub file: String,
    pub scope_path: Vec<String>,
    pub name: String,
}

/// What a [`QualifiedSymbol`] says.
pub struct QualifiedView {
    pub file: Seq<char>,
    pub scope_path: Seq<Seq<char>>,
    pub name: Seq<char>,
}

impl View for QualifiedSymbol {
    type V = QualifiedView;

    open spec fn view(&self) -> QualifiedView {
        QualifiedView {
            file: self.file@,
            scope_path: crate::text::texts(self.scope_path@),
            name: self.name@,
        }
    }
}

/// `file::scope::…::name`, as in `src/foo.rs::Mod::func`.
pub open spec fn fqn_of(q: QualifiedView) -> Seq<char> {
    crate::text::joined(seq![q.file] + q.scope_path + seq![q.name], "::"@)
}

impl QualifiedSymbol {
    /// The fully qualified name: the file, the scopes and the name, joined by
    /// `::`.
    pub fn fqn(&self) -> (r: String)
        ensures
            r@ == fqn_of(self@),
    {
        let mut parts: Vec<String> = Vec::new();
        parts.push(self.file.clone());
        let mut scopes = clone_texts(&self.scope_path);
        parts.append(&mut scopes);
        parts.push(self.name.clone());
        assert(crate::text::texts(parts@) =~= seq![self@.file] + self@.scope_path + seq![
            self@.name,
        ]) by {
            assert forall|i: int| 0 <= i < self@.scope_path.len() implies #[trigger] parts@[i
                + 1]@ == self@.scope_path[i] by {
                assert(crate::text::texts(scopes_of(parts@))[i] == self@.scope_path[i]);
            }
        }
        join(parts.as_slice(), "::")
    }
}

spec fn scopes_of(parts: Seq<String>) -> Seq<String> {
    parts.subrange(1, parts.len() - 1)
}

impl Clone for QualifiedSymbol {
    fn clone(&self) -> (r: Self)
        ensures
            r@ == self@,
    {
        QualifiedSymbol {
            file: self.file.clone(),
            scope_path: clone_texts(&self.scope_path),
            name: self.name.clone(),
        }
    }
}

/// A definition found in a source file. Lines are 1-based and inclusive.
#[derive(Debug)]
pub struct Symbol {
    pub qualified: QualifiedSymbol,
    pub kind: SymbolKind,
    pub line_start: u32,
    pub line_end: u32,
    pub signature: Option<String>,
    pub parent_fqn: Option<String>,
}

/// What a [`Symbol`] says.
pub struct SymbolView {
    pub qualified: QualifiedView,
    pub kind: SymbolKind,
    pub line_start: u32,
    pub line_end: u32,
    pub signature: Option<Seq<char>>,
    pub parent_fqn: Option<Seq<char>>,
}

impl View for Symbol {
    type V = SymbolView;

    open spec fn view(&self) -> SymbolView {
        SymbolView {
            qualified: self.qualified@,
            kind: self.kind,
            line_start: self.line_start,
            line_end: self.line_end,
            signature: crate::text::opt_text(self.signature),
            parent_fqn: crate::text::opt_text(self.parent_fqn),
        }
    }
}

impl Clone for Symbol {
    fn clone(&self) -> (r: Self)
        ensures
            r@ == self@,
    {
        Symbol {
            qualified: self.qualified.clone(),
            kind: self.kind,
            line_start: self.line_start,
            line_end: self.line_end,
            signature: clone_opt(&self.signature),
            parent_fqn: clone_opt(&self.parent_fqn),
        }
    }
}

pub open spec fn symbol_views(v: Seq<Symbol>) -> Seq<SymbolView> {
    Seq::new(v.len(), |i: int| v[i]@)
}

pub open spec fn qualified_views(v: Seq<QualifiedSymbol>) -> Seq<QualifiedView> {
    Seq::new(v.len(), |i: int| v[i]@)
}

pub fn make_symbol(
    file: &str,
    name: &str,
    scope_path: Vec<String>,
    kind: SymbolKind,
    line_start: u32,
    line_end: u32,
    signature: Option<String>,
    parent_fqn: Option<String>,
) -> (r: Symbol)
    ensures
        r@ == (SymbolView {
            qualified: QualifiedView {
                file: file@,
                scope_path: crate::text::texts(scope_path@),
                name: name@,
            },
            kind,
            line_start,
            line_end,
            signature: crate::text::opt_text(signature),
            parent_fqn: crate::text::opt_text(parent_fqn),
        }),
{
    Symbol {
        qualified: QualifiedSymbol { file: file.to_owned(), scope_path, name: name.to_owned() },
        kind,
        line_start,
        line_end,
        signature,
        parent_fqn,
    }
}

/// The symbol that a scope belongs to: its innermost name, in the scopes
/// around it. The file's own level belongs to none.
pub open spec fn scope_symbol(file: Seq<char>, scope: Seq<Seq<char>>) -> Option<QualifiedView> {
    if scope.len() == 0 {
        None
    } else {
        Some(QualifiedView { file, scope_path: scope.drop_last(), name: scope.last() })
    }
}

pub fn scope_to_qualified(file: &str, scope: &Vec<String>) -> (r: Option<QualifiedSymbol>)
    ensures
        match r {
            Some(q) => scope_symbol(file@, crate::text::texts(scope@)) == Some(q@),
            None => scope@.len() == 0,
        },
{
    if scope.len() == 0 {
        return None;
    }
    let last: usize = scope.len() - 1;
    let mut scope_path = clone_texts(scope);
    let ghost all = scope_path@;
    scope_path.truncate(last);
    proof {
        assert(crate::text::texts(scope_path@) =~= crate::text::texts(scope@).drop_last()) by {
            assert forall|i: int| 0 <= i < last implies (#[trigger] scope_path@[i])@
                == scope@[i]@ by {
                assert(crate::text::texts(all)[i] == crate::text::texts(scope@)[i]);
            }
        }
    }
    Some(QualifiedSymbol { file: file.to_owned(), scope_path, name: scope[last].clone() })
}

}
