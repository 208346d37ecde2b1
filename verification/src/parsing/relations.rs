//! Relations between symbols.
use vstd::prelude::*;

use crate::parsing::symbols::QualifiedSymbol;
use crate::text::clone_opt;

verus! {

#[derive(Clone, Copy, Debug, PartialEq, Eq, Structural)]
pub enum EdgeKind {
    Calls,
    Uses,
    Imports,
    Contains,
    Implements,
}

#[derive(Debug)]
pub enum EdgeTarget {
    Resolved(QualifiedSymbol),
    Unresolved { name: String, import_path: Option<String>, qualifier: Option<String> },
}

/// What an [`EdgeTarget`] says.
pub enum TargetView {
    Resolved(crate::parsing::symbols::QualifiedView),
    Unresolved {
        name: Seq<char>,
        import_path: Option<Seq<char>>,
        qualifier: Option<Seq<char>>,
    },
}

impl View for EdgeTarget {
    type V = TargetView;

    open spec fn view(&self) -> TargetView {
        match self {
            EdgeTarget::Resolved(q) => TargetView::Resolved(q@),
            EdgeTarget::Unresolved { name, import_path, qualifier } => TargetView::Unresolved {
                name: name@,
                import_path: crate::text::opt_text(*import_path),
                qualifier: crate::text::opt_text(*qualifier),
            },
        }
    }
}

impl Clone for EdgeTarget {
    fn clone(&self) -> (r: Self)
        ensures
            r@ == self@,
    {
        match self {
            EdgeTarget::Resolved(q) => EdgeTarget::Resolved(q.clone()),
            EdgeTarget::Unresolved { name, import_path, qualifier } => EdgeTarget::Unresolved {
                name: name.clone(),
                import_path: clone_opt(import_path),
                qualifier: clone_opt(qualifier),
            },
        }
    }
}

/// An edge as it stands in the source: the target may still be a bare name.
#[derive(Debug)]
pub struct RawEdge {
    pub from: QualifiedSymbol,
    pub to: EdgeTarget,
    pub kind: EdgeKind,
    pub line: u32,
}

/// What a [`RawEdge`] says.
pub struct EdgeView {
    pub from: crate::parsing::symbols::QualifiedView,
    pub to: TargetView,
    pub kind: EdgeKind,
    pub line: u32,
}

impl View for RawEdge {
    type V = EdgeView;

    open spec fn view(&self) -> EdgeView {
        EdgeView { from: self.from@, to: self.to@, kind: self.kind, line: self.line }
    }
}

impl Clone for RawEdge {
    fn clone(&self) -> (r: Self)
        ensures
            r@ == self@,
    {
        RawEdge {
            from: self.from.clone(),
            to: self.to.clone(),
            kind: self.kind,
            line: self.line,
        }
    }
}

pub open spec fn edge_views(v: Seq<RawEdge>) -> Seq<EdgeView> {
    Seq::new(v.len(), |i: int| v[i]@)
}

}
