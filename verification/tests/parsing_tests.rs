use context_engine::parsing::c_family::{
    callee_leaf_name, declarator_name, extract_call_qualifier, qualified_scope_prefix,
};
use context_engine::parsing::chunker::Chunk;
use context_engine::parsing::grammars::rows_of;
use context_engine::parsing::imports::{include_basename, ImportMap};
use context_engine::parsing::relations::{EdgeKind, EdgeTarget};
use context_engine::parsing::symbols::{
    make_symbol, scope_to_qualified, QualifiedSymbol, Symbol, SymbolKind,
};
use context_engine::parsing::syntax::{
    build_tree, child_by_field_name, node_line_end, node_line_start, node_text, Field, NodeInfo,
    NodeRow, SyntaxNode,
};
use context_engine::parsing::{detect_language, extract_rows, parse_file, Lang, ParseResult};

fn no_chunks(_file: &str, _source: &str, _symbols: &Vec<Symbol>) -> Vec<Chunk> {
    vec![]
}

fn parse(file: &str, source: &str) -> ParseResult {
    parse_file(file, source, no_chunks)
}

/// Helper: parse C++ source and return the ParseResult.
fn parse_cpp(source: &str) -> ParseResult {
    parse("test.cpp", source)
}

fn names(result: &ParseResult) -> Vec<(String, SymbolKind)> {
    result.symbols.iter().map(|s| (s.qualified.fqn(), s.kind)).collect()
}

fn calls(result: &ParseResult) -> Vec<(String, String)> {
    result
        .edges
        .iter()
        .map(|e| match &e.to {
            EdgeTarget::Unresolved { name, .. } => (e.from.fqn(), name.clone()),
            EdgeTarget::Resolved(q) => (e.from.fqn(), q.fqn()),
        })
        .collect()
}

fn owned(list: &[(&str, SymbolKind)]) -> Vec<(String, SymbolKind)> {
    list.iter().map(|(n, k)| (n.to_string(), *k)).collect()
}

fn pairs(list: &[(&str, &str)]) -> Vec<(String, String)> {
    list.iter().map(|(a, b)| (a.to_string(), b.to_string())).collect()
}

// ─── C and C++ ───

/// Parse a simple free C++ function — verify name, kind, and line numbers.
#[test]
fn test_basic_function_extraction() {
    let src = r#"
int add(int a, int b) {
    return a + b;
}
"#;
    let result = parse_cpp(src);
    let syms = &result.symbols;
    assert!(!syms.is_empty(), "expected at least one symbol");
    let func = syms.iter().find(|s| s.qualified.name == "add");
    assert!(
        func.is_some(),
        "expected symbol named 'add'; got: {:?}",
        syms.iter().map(|s| &s.qualified.name).collect::<Vec<_>>()
    );
    let func = func.unwrap();
    assert_eq!(func.kind, SymbolKind::Function, "add must be Function kind");
    assert_eq!(
        func.qualified.scope_path,
        Vec::<String>::new(),
        "add must have empty scope_path at file level"
    );
    assert!(func.line_start >= 1, "line_start must be >= 1");
    assert!(func.line_end >= func.line_start, "line_end must be >= line_start");
    assert_eq!((func.line_start, func.line_end), (2, 4));
}

/// Nested namespaces produce correct scope_path on the inner function.
#[test]
fn test_nested_namespace_scope_path() {
    let src = r#"
namespace outer {
    namespace inner {
        void foo() {}
    }
}
"#;
    let result = parse_cpp(src);
    let syms = &result.symbols;
    let foo = syms.iter().find(|s| s.qualified.name == "foo");
    assert!(
        foo.is_some(),
        "expected symbol 'foo'; got: {:?}",
        syms.iter().map(|s| &s.qualified.name).collect::<Vec<_>>()
    );
    let foo = foo.unwrap();
    assert!(
        foo.qualified.scope_path.contains(&"outer".to_string()),
        "scope_path must contain 'outer'; got: {:?}",
        foo.qualified.scope_path
    );
    assert!(
        foo.qualified.scope_path.contains(&"inner".to_string()),
        "scope_path must contain 'inner'; got: {:?}",
        foo.qualified.scope_path
    );
}

/// Class with an inline method and an out-of-line `Foo::bar()` definition
/// both produce Method-kind symbols.
#[test]
fn test_class_inline_and_outofline_methods() {
    let src = r#"
class Foo {
public:
    void inline_method() {}
    void bar();
};

void Foo::bar() {
    // out-of-line
}
"#;
    let result = parse_cpp(src);
    let syms = &result.symbols;

    // inline_method inside the class should be Method
    let inline_m = syms.iter().find(|s| s.qualified.name == "inline_method");
    assert!(
        inline_m.is_some(),
        "expected 'inline_method'; symbols: {:?}",
        syms.iter().map(|s| &s.qualified.name).collect::<Vec<_>>()
    );
    assert_eq!(
        inline_m.unwrap().kind,
        SymbolKind::Method,
        "inline_method must be Method"
    );

    // out-of-line Foo::bar() must also be Method
    let bar = syms.iter().find(|s| s.qualified.name == "bar");
    assert!(
        bar.is_some(),
        "expected 'bar'; symbols: {:?}",
        syms.iter().map(|s| &s.qualified.name).collect::<Vec<_>>()
    );
    assert_eq!(
        bar.unwrap().kind,
        SymbolKind::Method,
        "Foo::bar must be Method (out-of-line)"
    );
    assert_eq!(bar.unwrap().qualified.scope_path, vec!["Foo".to_string()]);
}

/// When function A calls function B, a RawEdge must be produced.
#[test]
fn test_call_edge_a_calls_b() {
    let src = r#"
void b_func() {}

void a_func() {
    b_func();
}
"#;
    let result = parse_cpp(src);
    let edge = result.edges.iter().find(|e| {
        if let EdgeTarget::Unresolved { name, .. } = &e.to {
            e.from.name == "a_func" && name == "b_func"
        } else {
            false
        }
    });
    assert!(
        edge.is_some(),
        "expected edge from a_func to b_func; edges: {:?}",
        result.edges.iter().map(|e| (&e.from.name, &e.to)).collect::<Vec<_>>()
    );
    let edge = edge.unwrap();
    assert_eq!(edge.kind, EdgeKind::Calls, "edge kind must be Calls");
    assert_eq!(edge.line, 5);
}

/// Both `#include <linux/list.h>` and `#include "local.h"` must produce
/// entries in ParseResult.imports with the stripped path as key.
#[test]
fn test_include_extraction() {
    let src = r#"
#include <linux/list.h>
#include "local.h"

void foo() {}
"#;
    let result = parse_cpp(src);
    let imp = &result.imports;
    assert!(
        imp.contains_key("linux/list.h"),
        "imports must contain 'linux/list.h'; got: {:?}",
        imp.keys()
    );
    assert!(
        imp.contains_key("local.h"),
        "imports must contain 'local.h'; got: {:?}",
        imp.keys()
    );
    assert_eq!(imp.len(), 2);
    assert!(!imp.is_empty());
}

/// `#include "Agent.h"` + `Agent::run()` call must produce an edge with
/// `import_path = Some("Agent.h")`.
#[test]
fn test_import_context_propagation_qualified_call() {
    let src = r#"
#include "Agent.h"

void caller() {
    Agent::run();
}
"#;
    let result = parse_cpp(src);
    let edge = result.edges.iter().find(|e| {
        if let EdgeTarget::Unresolved { name, .. } = &e.to {
            name == "run"
        } else {
            false
        }
    });
    assert!(
        edge.is_some(),
        "expected edge with callee 'run'; edges: {:?}",
        result.edges.iter().map(|e| &e.to).collect::<Vec<_>>()
    );
    let edge = edge.unwrap();
    if let EdgeTarget::Unresolved { import_path, .. } = &edge.to {
        assert_eq!(
            *import_path,
            Some("Agent.h".to_string()),
            "edge.import_path must be Some(\"Agent.h\")"
        );
    } else {
        panic!("edge must be Unresolved");
    }
}

/// Various call expression forms must produce edges with correct callee
/// leaf names.
#[test]
fn test_qualified_and_field_call_leaf_names() {
    let src = r#"
void caller() {
    ns::Foo::method();
    obj.field_method();
    ptr->ptr_method();
}
"#;
    let result = parse_cpp(src);
    let callee_names: Vec<&str> = result
        .edges
        .iter()
        .filter_map(|e| {
            if let EdgeTarget::Unresolved { name, .. } = &e.to {
                Some(name.as_str())
            } else {
                None
            }
        })
        .collect();

    assert!(
        callee_names.contains(&"method"),
        "expected callee 'method' (from ns::Foo::method()); got: {:?}",
        callee_names
    );
    assert!(
        callee_names.contains(&"field_method"),
        "expected callee 'field_method' (from obj.field_method()); got: {:?}",
        callee_names
    );
    assert!(
        callee_names.contains(&"ptr_method"),
        "expected callee 'ptr_method' (from ptr->ptr_method()); got: {:?}",
        callee_names
    );
}

#[test]
fn qualified_definitions_keep_their_whole_scope() {
    let src = "void *ns::Foo::bar(int a) {\n    helper(a);\n}\n";
    let result = parse_cpp(src);
    assert_eq!(
        names(&result),
        owned(&[("test.cpp::ns::Foo::bar", SymbolKind::Method)])
    );
    assert_eq!(
        calls(&result),
        pairs(&[("test.cpp::ns::Foo::bar", "helper")])
    );
}

#[test]
fn calls_outside_of_functions_have_no_edge() {
    let result = parse_cpp("int x = f();\n");
    assert!(result.edges.is_empty());
    assert!(result.symbols.is_empty());
}

#[test]
fn c_structs_and_plain_calls() {
    let src = "#include \"list.h\"\nstruct node { int v; };\nstatic int use(void) { return list(); }\n";
    let result = parse("a/b.c", src);
    assert_eq!(
        names(&result),
        owned(&[
            ("a/b.c::node", SymbolKind::Struct),
            ("a/b.c::use", SymbolKind::Function),
        ])
    );
    match &result.edges[0].to {
        EdgeTarget::Unresolved { name, import_path, qualifier } => {
            assert_eq!(name, "list");
            assert_eq!(import_path.as_deref(), Some("list.h"));
            assert_eq!(*qualifier, None);
        }
        EdgeTarget::Resolved(_) => panic!("edge must be unresolved"),
    }
}

#[test]
fn anonymous_namespace_has_a_name() {
    let result = parse_cpp("namespace {\nint f() { return 1; }\n}\n");
    assert_eq!(
        names(&result),
        owned(&[
            ("test.cpp::<anonymous>", SymbolKind::Module),
            ("test.cpp::<anonymous>::f", SymbolKind::Function),
        ])
    );
    assert_eq!(
        result.symbols[1].parent_fqn.as_deref(),
        Some("test.cpp::<anonymous>")
    );
}

#[test]
fn repeated_includes_count_once() {
    let result = parse_cpp("#include \"b.h\"\n#include \"a.h\"\n#include <b.h>\n");
    assert_eq!(result.imports.keys(), &vec!["b.h".to_string(), "a.h".to_string()]);
}

// ─── Other languages ───

#[test]
fn python_methods_and_calls() {
    let src = "class A:\n    def m(self):\n        helper(1)\n\ndef top():\n    A().m()\n";
    let result = parse("x.py", src);
    assert_eq!(
        names(&result),
        owned(&[
            ("x.py::A", SymbolKind::Class),
            ("x.py::A::m", SymbolKind::Method),
            ("x.py::top", SymbolKind::Function),
        ])
    );
    assert_eq!(
        calls(&result),
        pairs(&[
            ("x.py::A::m", "helper"),
            ("x.py::top", "A().m"),
            ("x.py::top", "A"),
        ])
    );
    assert_eq!(result.symbols[1].parent_fqn.as_deref(), Some("x.py::A"));
    assert_eq!((result.symbols[2].line_start, result.symbols[2].line_end), (5, 6));
}

#[test]
fn javascript_functions_and_classes() {
    let src = "function f() { g(); }\nclass K { m() { f(); } }\n";
    for file in ["a.js", "a.jsx", "a.mjs", "a.cjs", "a.tsx"] {
        let result = parse(file, src);
        let f = format!("{file}::f");
        let k = format!("{file}::K");
        // The keywords are tokens of the kinds `function` and `class`, and nameless.
        assert_eq!(
            names(&result),
            vec![
                (f.clone(), SymbolKind::Function),
                (format!("{f}::<anonymous>"), SymbolKind::Method),
                (k.clone(), SymbolKind::Class),
                (format!("{k}::<anonymous>"), SymbolKind::Class),
            ]
        );
        assert_eq!(
            calls(&result),
            vec![(f, "g".to_string()), (k, "f".to_string())]
        );
    }
}

#[test]
fn typescript_has_its_own_grammar() {
    let result = parse("a.ts", "function f(x: number): string { return g(x); }\n");
    assert_eq!(
        names(&result),
        owned(&[
            ("a.ts::f", SymbolKind::Function),
            ("a.ts::f::<anonymous>", SymbolKind::Method),
        ])
    );
    assert_eq!(calls(&result), pairs(&[("a.ts::f", "g")]));
}

#[test]
fn rust_impls_traits_and_modules() {
    let src = "mod m { struct S; impl S { fn a(&self) { b(); } } }\ntrait T { fn d(&self) {} }\nfn b() {}\n";
    let result = parse("l.rs", src);
    assert_eq!(
        names(&result),
        owned(&[
            ("l.rs::m", SymbolKind::Module),
            ("l.rs::m::S", SymbolKind::Struct),
            ("l.rs::m::impl_S", SymbolKind::Impl),
            ("l.rs::m::impl_S::a", SymbolKind::Method),
            ("l.rs::T", SymbolKind::Trait),
            ("l.rs::T::d", SymbolKind::Function),
            ("l.rs::b", SymbolKind::Function),
        ])
    );
    assert_eq!(calls(&result), pairs(&[("l.rs::m::impl_S::a", "b")]));
}

#[test]
fn go_functions_methods_and_types() {
    let src = "package p\ntype T struct{}\nfunc (t T) M() { f() }\nfunc f() {}\n";
    let result = parse("g.go", src);
    assert_eq!(
        names(&result),
        owned(&[
            ("g.go::T", SymbolKind::Struct),
            ("g.go::M", SymbolKind::Method),
            ("g.go::f", SymbolKind::Function),
        ])
    );
    assert_eq!(calls(&result), pairs(&[("g.go::M", "f")]));
}

#[test]
fn java_classes_and_interfaces() {
    let src = "class A { A() { m(); } void m() { x.y(); } }\ninterface I { void n(); }\n";
    let result = parse("A.java", src);
    assert_eq!(
        names(&result),
        owned(&[
            ("A.java::A", SymbolKind::Class),
            ("A.java::A::A", SymbolKind::Method),
            ("A.java::A::m", SymbolKind::Method),
            ("A.java::I", SymbolKind::Interface),
            ("A.java::I::n", SymbolKind::Method),
        ])
    );
    assert_eq!(
        calls(&result),
        pairs(&[("A.java::A::A", "m"), ("A.java::A::m", "y")])
    );
}

#[test]
fn unknown_files_yield_nothing_but_chunks() {
    let chunker = |file: &str, source: &str, symbols: &Vec<Symbol>| -> Vec<Chunk> {
        assert!(symbols.is_empty());
        vec![Chunk {
            file: file.to_string(),
            line_start: 1,
            line_end: 1,
            content: source.to_string(),
            symbol_ref: None,
        }]
    };
    let result = parse_file("notes.txt", "hello", chunker);
    assert!(result.symbols.is_empty() && result.edges.is_empty() && result.imports.is_empty());
    assert_eq!(result.chunks.len(), 1);
    assert_eq!(result.chunks[0].content, "hello");
}

#[test]
fn non_ascii_names_survive() {
    let result = parse("u.py", "# naïve ✓\ndef größe():\n    überprüfe('✓')\n");
    assert_eq!(names(&result), owned(&[("u.py::größe", SymbolKind::Function)]));
    assert_eq!(calls(&result), pairs(&[("u.py::größe", "überprüfe")]));
}

// ─── Languages ───

#[test]
fn languages_by_extension() {
    let cases = [
        ("a.py", Lang::Python),
        ("a.js", Lang::JavaScript),
        ("a.jsx", Lang::JavaScript),
        ("a.mjs", Lang::JavaScript),
        ("a.cjs", Lang::JavaScript),
        ("a.ts", Lang::TypeScript),
        ("a.tsx", Lang::Tsx),
        ("a.rs", Lang::Rust),
        ("a.go", Lang::Go),
        ("a.java", Lang::Java),
        ("a.c", Lang::C),
        ("a.cpp", Lang::Cpp),
        ("a.cc", Lang::Cpp),
        ("a.cxx", Lang::Cpp),
        ("a.h", Lang::Cpp),
        ("a.hpp", Lang::Cpp),
        ("a.hxx", Lang::Cpp),
        ("a.hh", Lang::Cpp),
        ("a.PY", Lang::Other),
        (".py", Lang::Other),
        ("py", Lang::Other),
        ("dir.rs/file", Lang::Other),
        ("dir/file.rs/", Lang::Rust),
        ("a.tar.go", Lang::Go),
    ];
    for (path, lang) in cases {
        assert_eq!(detect_language(path), lang, "{path}");
    }
}

// ─── Pieces ───

#[test]
fn basenames_of_includes() {
    assert_eq!(include_basename("linux/list.h"), "list");
    assert_eq!(include_basename("Agent.h"), "Agent");
    assert_eq!(include_basename("a.b/c"), "c");
    assert_eq!(include_basename("a/b.c.h"), "b.c");
    assert_eq!(include_basename("a/"), "");
}

#[test]
fn import_map_finds_the_first_match() {
    let mut map = ImportMap::new();
    map.insert("x/list.h".to_string());
    map.insert("y/list.h".to_string());
    map.insert("x/list.h".to_string());
    assert_eq!(map.len(), 2);
    assert_eq!(map.find("list"), Some("x/list.h".to_string()));
    assert_eq!(map.find("List"), None);
}

#[test]
fn qualified_names() {
    let q = QualifiedSymbol {
        file: "src/foo.rs".to_string(),
        scope_path: vec!["Mod".to_string()],
        name: "func".to_string(),
    };
    assert_eq!(q.fqn(), "src/foo.rs::Mod::func");
    assert_eq!(q.clone().fqn(), q.fqn());
    let scope = vec!["Mod".to_string(), "func".to_string()];
    let s = scope_to_qualified("src/foo.rs", &scope).unwrap();
    assert_eq!(s.fqn(), q.fqn());
    assert!(scope_to_qualified("src/foo.rs", &vec![]).is_none());
    let sym = make_symbol(
        "f",
        "n",
        vec!["s".to_string()],
        SymbolKind::Trait,
        3,
        7,
        Some("sig".to_string()),
        Some("p".to_string()),
    );
    assert_eq!(sym.qualified.fqn(), "f::s::n");
    assert_eq!((sym.kind, sym.line_start, sym.line_end), (SymbolKind::Trait, 3, 7));
    assert_eq!(sym.signature.as_deref(), Some("sig"));
    assert_eq!(sym.parent_fqn.as_deref(), Some("p"));
}

fn row(depth: usize, kind: &str, field: Option<Field>, start: usize, end: usize) -> NodeRow {
    NodeRow {
        depth,
        info: NodeInfo {
            kind: kind.to_string(),
            fields: field.into_iter().collect(),
            named: true,
            start_byte: start,
            end_byte: end,
            start_row: 0,
            end_row: 0,
        },
    }
}

#[test]
fn trees_are_rebuilt_from_rows() {
    let rows = vec![
        row(0, "root", None, 0, 9),
        row(1, "a", Some(Field::Name), 0, 3),
        row(2, "b", None, 1, 2),
        row(1, "c", None, 3, 9),
    ];
    let root = build_tree(&rows).unwrap();
    assert_eq!(root.children.len(), 2);
    assert_eq!(root.children[0].children.len(), 1);
    assert_eq!(root.children[0].children[0].info.kind, "b");
    assert_eq!(root.children[1].info.kind, "c");
    assert_eq!(node_text(&root.children[0], "foo bar x"), "foo");
    assert_eq!(child_by_field_name(&root, Field::Name).unwrap().info.kind, "a");
    assert!(child_by_field_name(&root, Field::Scope).is_none());
    assert!(build_tree(&vec![]).is_none());
}

#[test]
fn extraction_works_on_given_rows() {
    let rows = vec![
        row(0, "module", None, 0, 17),
        row(1, "function_definition", None, 0, 17),
        row(2, "identifier", Some(Field::Name), 4, 5),
        row(2, "call", None, 12, 15),
        row(3, "identifier", Some(Field::Function), 12, 13),
    ];
    let parts = extract_rows(Lang::Python, "m.py", "def f():    g()  ", &Some(rows));
    assert_eq!(parts.symbols[0].qualified.fqn(), "m.py::f");
    assert_eq!(parts.edges.len(), 1);
    let none = extract_rows(Lang::Python, "m.py", "", &None);
    assert!(none.symbols.is_empty() && none.edges.is_empty());
}

#[test]
fn texts_off_the_character_boundaries_are_empty() {
    let inside = row(0, "x", None, 1, 3);
    let past = row(0, "x", None, 0, 9);
    let whole = row(0, "x", None, 0, 2);
    let text = "é!";
    assert_eq!(node_text(&build_tree(&vec![inside]).unwrap(), text), "");
    assert_eq!(node_text(&build_tree(&vec![past]).unwrap(), text), "");
    assert_eq!(node_text(&build_tree(&vec![whole]).unwrap(), text), "é");
}

// ─── Against the trees themselves ───

fn samples() -> Vec<(&'static str, tree_sitter::Language, &'static str)> {
    vec![
        ("python", tree_sitter_python::LANGUAGE.into(),
            "class A(B):\n    @dec\n    async def m(self, x=1):\n        return [f(y) for y in x]\n\ndef g(): pass\n# ä\nprint(g(), k=2)\n"),
        ("javascript", tree_sitter_javascript::LANGUAGE.into(),
            "class K extends L { #p = 1; m() { return super.m(this.#p); } }\nconst f = async (a) => { await g(`${a}`); };\nfunction h() {}\nnew K().m();\n"),
        ("typescript", tree_sitter_typescript::LANGUAGE_TYPESCRIPT.into(),
            "interface I<T> { x: T; }\nexport class C implements I<number> { x = 1; get y(): number { return f<number>(this.x); } }\n"),
        ("rust", tree_sitter_rust::LANGUAGE.into(),
            "mod m { pub struct S<T>(T); impl<T: Clone> S<T> { fn a(&self) -> T { self.0.clone() } } }\nfn main() { m::S(1).a(); println!(\"{}\", 2); }\n"),
        ("go", tree_sitter_go::LANGUAGE.into(),
            "package p\nimport \"fmt\"\ntype (\n\tA struct{ x int }\n\tB = A\n)\nfunc (a *A) M(y ...int) (int, error) { fmt.Println(y...); return a.x, nil }\n"),
        ("java", tree_sitter_java::LANGUAGE.into(),
            "package p; class A<T> extends B implements C { A() { super(); } @Override public void m(int... x) { this.n(x[0]).o(); } }\n"),
        ("c", tree_sitter_c::LANGUAGE.into(),
            "#include <stdio.h>\nstruct s { int *p; };\nstatic int *f(struct s *a, int b) { return a->p + g(b); }\nint (*fp)(int) = f;\n"),
        ("cpp", tree_sitter_cpp::LANGUAGE.into(),
            "#include \"a.h\"\nnamespace n::m { template <class T> struct S { ~S() {} T &get() const { return t; } T t; }; }\nint *A::B::f(int x) { return n::m::g<int>(x)->h(); }\nA::~A() {}\nbool operator==(const A &, const A &);\nint bad( {\n"),
    ]
}

fn same_tree(node: tree_sitter::Node, own: &SyntaxNode, source: &str) {
    assert_eq!(node.kind(), own.info.kind);
    assert_eq!(node.is_named(), own.info.named);
    assert_eq!((node.start_byte(), node.end_byte()), (own.info.start_byte, own.info.end_byte));
    assert_eq!(node.start_position().row as u32 + 1, node_line_start(own));
    assert_eq!(node.end_position().row as u32 + 1, node_line_end(own));
    assert_eq!(node.utf8_text(source.as_bytes()).unwrap_or(""), node_text(own, source));
    assert_eq!(node.child_count() as usize, own.children.len());
    for field in [
        Field::Name,
        Field::Function,
        Field::Type,
        Field::Declarator,
        Field::Scope,
        Field::Member,
        Field::Path,
    ] {
        let theirs = node
            .child_by_field_name(field.as_str())
            .map(|n| (n.kind().to_string(), n.start_byte(), n.end_byte()));
        let ours = child_by_field_name(own, field)
            .map(|n| (n.info.kind.clone(), n.info.start_byte, n.info.end_byte));
        assert_eq!(theirs, ours, "{} of {}", field.as_str(), node.kind());
    }
    let mut cursor = node.walk();
    let children: Vec<tree_sitter::Node> = node.children(&mut cursor).collect();
    for (child, own_child) in children.into_iter().zip(own.children.iter()) {
        same_tree(child, own_child, source);
    }
}

#[test]
fn rebuilt_trees_are_the_parsed_trees() {
    for (name, language, source) in samples() {
        let mut parser = tree_sitter::Parser::new();
        parser.set_language(&language).unwrap();
        let tree = parser.parse(source, None).unwrap();
        let rows = rows_of(&tree);
        assert_eq!(rows.len(), tree.root_node().descendant_count(), "{name}");
        let root = build_tree(&rows).unwrap();
        same_tree(tree.root_node(), &root, source);
    }
}

fn cpp_root(source: &str) -> SyntaxNode {
    let mut parser = tree_sitter::Parser::new();
    parser.set_language(&tree_sitter_cpp::LANGUAGE.into()).unwrap();
    build_tree(&rows_of(&parser.parse(source, None).unwrap())).unwrap()
}

fn first_of<'a>(node: &'a SyntaxNode, kind: &str) -> Option<&'a SyntaxNode> {
    if node.info.kind == kind {
        return Some(node);
    }
    node.children.iter().find_map(|c| first_of(c, kind))
}

#[test]
fn declarators_and_callees() {
    let source = "int &ns::Foo::bar(int a) { return x::y::z(a); }";
    let root = cpp_root(source);
    let definition = first_of(&root, "function_definition").unwrap();
    let declarator = child_by_field_name(definition, Field::Declarator).unwrap();
    assert_eq!(declarator_name(declarator, source), Some(("bar", true)));
    assert_eq!(
        qualified_scope_prefix(declarator, source),
        vec!["ns".to_string(), "Foo".to_string()]
    );
    let call = first_of(&root, "call_expression").unwrap();
    let function = child_by_field_name(call, Field::Function).unwrap();
    assert_eq!(callee_leaf_name(function, source), Some("z"));
    assert_eq!(extract_call_qualifier(function, source), Some("y"));

    let plain = "void f() { g(); o.h(); }";
    let root = cpp_root(plain);
    let definition = first_of(&root, "function_definition").unwrap();
    let declarator = child_by_field_name(definition, Field::Declarator).unwrap();
    assert_eq!(declarator_name(declarator, plain), Some(("f", false)));
    assert!(qualified_scope_prefix(declarator, plain).is_empty());
    let call = first_of(&root, "call_expression").unwrap();
    let function = child_by_field_name(call, Field::Function).unwrap();
    assert_eq!(callee_leaf_name(function, plain), Some("g"));
    assert_eq!(extract_call_qualifier(function, plain), None);
}

#[test]
fn parents_are_the_scopes_around() {
    let result = parse_cpp("namespace n { class A { void f() {} }; }\nvoid B::g() {}\n");
    let parent = |name: &str| {
        let s = result.symbols.iter().find(|s| s.qualified.name == name).unwrap();
        (s.qualified.scope_path.clone(), s.parent_fqn.clone())
    };
    let (scope, above) = parent("n");
    assert!(scope.is_empty() && above.is_none());
    let (scope, above) = parent("A");
    assert_eq!(scope, vec!["n"]);
    assert!(above.unwrap().ends_with("::n"));
    let (scope, above) = parent("f");
    assert_eq!(scope, vec!["n", "A"]);
    assert!(above.unwrap().ends_with("::n::A"));
    // Defined out of line: in a scope that does not stand around it.
    let (scope, above) = parent("g");
    assert_eq!(scope, vec!["B"]);
    assert!(above.is_none());
}

#[test]
fn calls_of_an_out_of_line_method_start_at_its_symbol() {
    let result = parse_cpp("void Foo::bar() { baz(); }\n");
    assert_eq!(result.symbols[0].qualified.scope_path, vec!["Foo"]);
    assert_eq!(result.edges[0].from.fqn(), result.symbols[0].qualified.fqn());

    let result = parse_cpp("namespace n { void A::f() { struct S {}; g(); } }\n");
    let find = |name: &str| result.symbols.iter().find(|s| s.qualified.name == name).unwrap();
    assert_eq!(find("f").qualified.scope_path, vec!["n", "A"]);
    assert!(find("f").parent_fqn.as_deref().unwrap().ends_with("::n"));
    assert_eq!(find("S").qualified.scope_path, vec!["n", "A", "f"]);
    assert_eq!(find("S").parent_fqn, Some(find("f").qualified.fqn()));
    assert_eq!(result.edges[0].from.fqn(), find("f").qualified.fqn());
}
