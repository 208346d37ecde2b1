//! From source files to symbols, call edges and imports.
use vstd::prelude::*;

use crate::parsing::c_family::{extract_c_cpp_node, CParts};
use crate::parsing::chunker::Chunk;
use crate::parsing::extract::{extract_node, Family};
use crate::parsing::grammars::{
    parse_c, parse_cpp, parse_go, parse_java, parse_javascript, parse_python, parse_rust,
    parse_typescript, rows_of,
};
use crate::parsing::imports::ImportMap;
use crate::parsing::relations::RawEdge;
use crate::parsing::symbols::Symbol;
use crate::parsing::syntax::{build_tree, NodeRow};
use crate::paths::extension;
use crate::text::same_text;

pub mod c_family;
pub mod c_laws;
pub mod chunker;
pub mod extract;
pub mod family_laws;
pub mod grammars;
pub mod imports;
pub mod laws;
pub mod places;
pub mod relations;
pub mod symbols;
pub mod syntax;
pub mod tree_laws;

verus! {

/// Result of parsing one source file.
#[derive(Debug)]
pub struct ParseResult {
    pub symbols: Vec<Symbol>,
    pub edges: Vec<RawEdge>,
    pub chunks: Vec<Chunk>,
    /// Include paths of the file (best-effort, only for C and C++).
    pub imports: ImportMap,
}

impl ParseResult {
    /// Everything but the chunks.
    pub open spec fn found(&self) -> crate::parsing::c_family::CFound {
        crate::parsing::c_family::CFound {
            symbols: crate::parsing::symbols::symbol_views(self.symbols@),
            edges: crate::parsing::relations::edge_views(self.edges@),
            imports: self.imports@,
        }
    }
}

#[derive(Clone, Copy, Debug, PartialEq, Eq, Structural)]
pub enum Lang {
    Python,
    JavaScript,
    TypeScript,
    Tsx,
    Rust,
    Go,
    Java,
    C,
    Cpp,
    Other,
}

/// The language of files with the given extension.
pub open spec fn lang_of(ext: Option<Seq<char>>) -> Lang {
    match ext {
        Some(e) => if e == "py"@ {
            Lang::Python
        } else if e == "js"@ || e == "jsx"@ || e == "mjs"@ || e == "cjs"@ {
            Lang::JavaScript
        } else if e == "ts"@ {
            Lang::TypeScript
        } else if e == "tsx"@ {
            Lang::Tsx
        } else if e == "rs"@ {
            Lang::Rust
        } else if e == "go"@ {
            Lang::Go
        } else if e == "java"@ {
            Lang::Java
        } else if e == "c"@ {
            Lang::C
        } else if e == "cpp"@ || e == "cc"@ || e == "cxx"@ || e == "h"@ || e == "hpp"@ || e
            == "hxx"@ || e == "hh"@ {
            Lang::Cpp
        } else {
            Lang::Other
        },
        None => Lang::Other,
    }
}

/// The language of a file, told by the extension of its path.
pub fn detect_language(path: &str) -> (r: Lang)
    ensures
        r == lang_of(crate::paths::extension_of(path@)),
{
    match extension(path) {
        Some(ext) => {
            let e = ext.as_str();
            if same_text(e, "py") {
                Lang::Python
            } else if same_text(e, "js") || same_text(e, "jsx") || same_text(e, "mjs")
                || same_text(e, "cjs") {
                Lang::JavaScript
            } else if same_text(e, "ts") {
                Lang::TypeScript
            } else if same_text(e, "tsx") {
                Lang::Tsx
            } else if same_text(e, "rs") {
                Lang::Rust
            } else if same_text(e, "go") {
                Lang::Go
            } else if same_text(e, "java") {
                Lang::Java
            } else if same_text(e, "c") {
                Lang::C
            } else if same_text(e, "cpp") || same_text(e, "cc") || same_text(e, "cxx")
                || same_text(e, "h") || same_text(e, "hpp") || same_text(e, "hxx") || same_text(
                e,
                "hh",
            ) {
                Lang::Cpp
            } else {
                Lang::Other
            }
        },
        None => Lang::Other,
    }
}

/// What the tree of a file yields in the languages that share one traversal.
pub open spec fn found_by_family(
    family: Family,
    file: Seq<char>,
    source: Seq<char>,
    root: crate::parsing::syntax::SyntaxView,
) -> crate::parsing::c_family::CFound {
    let found = crate::parsing::extract::found_at(
        family,
        file,
        source,
        root,
        Seq::empty(),
        None,
    );
    crate::parsing::c_family::CFound {
        symbols: found.symbols,
        edges: found.edges,
        imports: Seq::empty(),
    }
}

/// What the tree of a file yields in its language, with nothing around it.
pub open spec fn found_in_tree(
    lang: Lang,
    file: Seq<char>,
    source: Seq<char>,
    root: crate::parsing::syntax::SyntaxView,
) -> crate::parsing::c_family::CFound {
    match lang {
        Lang::Python => found_by_family(Family::Python, file, source, root),
        Lang::JavaScript | Lang::Tsx | Lang::TypeScript => found_by_family(
            Family::JavaScript,
            file,
            source,
            root,
        ),
        Lang::Rust => found_by_family(Family::Rust, file, source, root),
        Lang::Go => found_by_family(Family::Go, file, source, root),
        Lang::Java => found_by_family(Family::Java, file, source, root),
        Lang::C | Lang::Cpp => crate::parsing::c_family::c_found_at(
            file,
            source,
            root,
            Seq::empty(),
            None,
            crate::parsing::c_family::CFound::none(),
        ),
        Lang::Other => crate::parsing::c_family::CFound::none(),
    }
}

/// What a file yields whose tree consists of the given rows; nothing where there
/// is no tree.
pub open spec fn found_in_rows(
    lang: Lang,
    file: Seq<char>,
    source: Seq<char>,
    rows: Option<Seq<crate::parsing::syntax::RowView>>,
) -> crate::parsing::c_family::CFound {
    match rows {
        Some(all) => match crate::parsing::syntax::tree_from(all) {
            Some(root) => found_in_tree(lang, file, source, root),
            None => crate::parsing::c_family::CFound::none(),
        },
        None => crate::parsing::c_family::CFound::none(),
    }
}

/// The rows of the tree of a source text, by the grammar of its language. `.tsx`
/// files are read with the grammar of JavaScript.
pub open spec fn rows_for(lang: Lang, source: Seq<char>) -> Option<
    Seq<crate::parsing::syntax::RowView>,
> {
    match lang {
        Lang::Python => crate::parsing::grammars::python_tree(source),
        Lang::JavaScript | Lang::Tsx => crate::parsing::grammars::javascript_tree(source),
        Lang::TypeScript => crate::parsing::grammars::typescript_tree(source),
        Lang::Rust => crate::parsing::grammars::rust_tree(source),
        Lang::Go => crate::parsing::grammars::go_tree(source),
        Lang::Java => crate::parsing::grammars::java_tree(source),
        Lang::C => crate::parsing::grammars::c_tree(source),
        Lang::Cpp => crate::parsing::grammars::cpp_tree(source),
        Lang::Other => None,
    }
}

/// Everything that the text of a file yields but its chunks.
pub open spec fn found_in_file(file: Seq<char>, source: Seq<char>) -> crate::parsing::c_family::CFound {
    let lang = lang_of(crate::paths::extension_of(file));
    found_in_rows(lang, file, source, rows_for(lang, source))
}

fn extract_family(
    family: Family,
    file: &str,
    source: &str,
    root: &crate::parsing::syntax::SyntaxNode,
) -> (r: CParts)
    ensures
        r@ == found_by_family(family, file@, source@, root.view()),
{
    let mut symbols: Vec<Symbol> = Vec::new();
    let mut edges: Vec<RawEdge> = Vec::new();
    let scope: Vec<String> = Vec::new();
    assert(crate::text::texts(scope@) =~= Seq::empty());
    extract_node(family, file, source, root, &scope, &None, &mut symbols, &mut edges);
    let parts = CParts { symbols, edges, imports: ImportMap::new() };
    assert(parts@ =~= found_by_family(family, file@, source@, root.view()));
    parts
}

fn extract_c_cpp(
    file: &str,
    source: &str,
    root: &crate::parsing::syntax::SyntaxNode,
) -> (r: CParts)
    ensures
        r@ == crate::parsing::c_family::c_found_at(
            file@,
            source@,
            root.view(),
            Seq::empty(),
            None,
            crate::parsing::c_family::CFound::none(),
        ),
{
    let mut parts = no_parts();
    let scope: Vec<String> = Vec::new();
    assert(crate::text::texts(scope@) =~= Seq::empty());
    extract_c_cpp_node(file, source, root, &scope, &None, &mut parts);
    parts
}

fn no_parts() -> (r: CParts)
    ensures
        r@ == crate::parsing::c_family::CFound::none(),
{
    let parts = CParts { symbols: Vec::new(), edges: Vec::new(), imports: ImportMap::new() };
    assert(parts@ =~= crate::parsing::c_family::CFound::none());
    parts
}

pub open spec fn opt_rows(rows: Option<Vec<NodeRow>>) -> Option<
    Seq<crate::parsing::syntax::RowView>,
> {
    match rows {
        Some(v) => Some(crate::parsing::syntax::row_views(v@)),
        None => None,
    }
}

/// Symbols, edges and imports of a file, from the rows of its syntax tree.
pub fn extract_rows(
    lang: Lang,
    file: &str,
    source: &str,
    rows: &Option<Vec<NodeRow>>,
) -> (r: CParts)
    ensures
        r@ == found_in_rows(lang, file@, source@, opt_rows(*rows)),
{
    let all = match rows {
        Some(all) => all,
        None => {
            return no_parts();
        },
    };
    let root = match build_tree(all) {
        Some(root) => root,
        None => {
            return no_parts();
        },
    };
    match lang {
        Lang::Python => extract_family(Family::Python, file, source, &root),
        Lang::JavaScript | Lang::Tsx | Lang::TypeScript => extract_family(
            Family::JavaScript,
            file,
            source,
            &root,
        ),
        Lang::Rust => extract_family(Family::Rust, file, source, &root),
        Lang::Go => extract_family(Family::Go, file, source, &root),
        Lang::Java => extract_family(Family::Java, file, source, &root),
        Lang::C | Lang::Cpp => extract_c_cpp(file, source, &root),
        Lang::Other => no_parts(),
    }
}

/// Parses a source text with the grammar of its language.
fn tree_rows_for(lang: Lang, source: &str) -> (r: Option<Vec<NodeRow>>)
    ensures
        opt_rows(r) == rows_for(lang, source@),
{
    let tree = match lang {
        Lang::Python => parse_python(source),
        Lang::JavaScript | Lang::Tsx => parse_javascript(source),
        Lang::TypeScript => parse_typescript(source),
        Lang::Rust => parse_rust(source),
        Lang::Go => parse_go(source),
        Lang::Java => parse_java(source),
        Lang::C => parse_c(source),
        Lang::Cpp => parse_cpp(source),
        Lang::Other => None,
    };
    match tree {
        Some(tree) => Some(rows_of(&tree)),
        None => None,
    }
}

/// Parse a source file and return symbols, edges, and chunks.
/// Falls back to coverage-only chunks on parse failure: `chunk_file` gets the
/// path, the text and whatever symbols were found.
pub fn parse_file<F: Fn(&str, &str, &Vec<Symbol>) -> Vec<Chunk>>(
    file_path: &str,
    source: &str,
    chunk_file: F,
) -> (r: ParseResult)
    requires
        forall|symbols: &Vec<Symbol>| call_requires(chunk_file, (file_path, source, symbols)),
    ensures
        r.found() == found_in_file(file_path@, source@),
        call_ensures(chunk_file, (file_path, source, &r.symbols), r.chunks),
{
    let lang = detect_language(file_path);
    let rows = tree_rows_for(lang, source);
    let parts = extract_rows(lang, file_path, source, &rows);
    let chunks = chunk_file(file_path, source, &parts.symbols);
    ParseResult { symbols: parts.symbols, edges: parts.edges, chunks, imports: parts.imports }
}

}
