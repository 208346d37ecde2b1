use context_engine::embedding::InputType;
use context_engine::paths::{components, extension, file_name, path_in_repo};
use context_engine::store::schema::SCHEMA_DDL;
use context_engine::store::{read_symbol_ref, short_name, symbol_ref};
use context_engine::text::{decimal, has_trim_char, join, lines, trim, TrimSet};

#[test]
fn lines_are_those_of_str() {
    for s in [
        "", "\n", "a", "a\n", "a\nb", "a\r\nb\r\n", "a\r", "a\r\r\nb", "\r\n", "\n\n", "é\n✓\r",
        "x\n\ny\n",
    ] {
        let want: Vec<String> = s.lines().map(|l| l.to_string()).collect();
        assert_eq!(lines(s), want, "{s:?}");
    }
}

#[test]
fn lines_survive_joining() {
    let parts = vec!["1: a".to_string(), "2: ".to_string(), "3: b".to_string()];
    assert_eq!(lines(&join(&parts, "\n")), parts);
    assert_eq!(join(&[], "\n"), "");
    assert_eq!(join(&parts, "--"), "1: a--2: --3: b");
}

#[test]
fn whitespace_is_that_of_char() {
    for n in 0u32..0x1_1000 {
        if let Some(c) = char::from_u32(n) {
            assert_eq!(has_trim_char(TrimSet::Whitespace, c), c.is_whitespace(), "{n:x}");
        }
    }
}

#[test]
fn trimming() {
    for s in ["", "  ", " a b\t", "\u{a0}x\u{2003}", "x"] {
        assert_eq!(trim(s, TrimSet::Whitespace), s.trim());
    }
    assert_eq!(trim("<linux/list.h>", TrimSet::Quotes), "linux/list.h");
    assert_eq!(trim("\"a\"b\"", TrimSet::Quotes), "a\"b");
    assert_eq!(trim("\"\"", TrimSet::Quotes), "");
}

#[test]
fn numbers_in_decimal() {
    for n in [0u64, 7, 10, 99, 100, 6699, 4294967295, u64::MAX] {
        assert_eq!(decimal(n), n.to_string());
    }
}

#[test]
fn paths_are_those_of_std() {
    for s in [
        "", "/", ".", "..", "a", "a/", "/a/b", "./a", "./", "a/./b", "a//b", "/./a", "../x.rs",
        "a/..", ".hidden", "a/.b", "x.tar.gz", "x.", "a.b/c", "/a.b/", "..rs", "a/b.c/.", "....",
    ] {
        let path = std::path::Path::new(s);
        let name = path.file_name().map(|n| n.to_str().unwrap().to_string());
        let ext = path.extension().map(|n| n.to_str().unwrap().to_string());
        assert_eq!(file_name(s), name, "{s}");
        assert_eq!(extension(s), ext, "{s}");
        let parts: Vec<String> = path
            .components()
            .map(|c| c.as_os_str().to_str().unwrap().to_string())
            .collect();
        assert_eq!(components(s), parts, "{s}");
        for dir in ["", "/", "a", "/a", ".", "a/b", "./a"] {
            assert_eq!(path_in_repo(s, dir), path.starts_with(dir), "{s} in {dir}");
        }
    }
}

#[test]
fn symbol_references_are_read_back() {
    for fqn in ["src/foo.rs::Mod::func", "", "⟩", "symbol:⟨x⟩"] {
        assert_eq!(read_symbol_ref(&symbol_ref(fqn)), Some(fqn.to_string()));
    }
    assert_eq!(symbol_ref("a::b"), "symbol:⟨a::b⟩");
    assert_eq!(read_symbol_ref("symbol:⟨"), None);
    assert_eq!(read_symbol_ref("chunk:⟨a⟩"), None);
    assert_eq!(read_symbol_ref("symbol:⟨a"), None);
}

#[test]
fn short_names() {
    for s in ["src/foo.rs::Mod::func", "plain", "", "a::", "a:::b", "::", ":", "a:b"] {
        assert_eq!(short_name(s), s.rsplit("::").next().unwrap_or(s), "{s}");
    }
}

#[test]
fn input_types_have_names() {
    assert_eq!(InputType::Document.as_str(), "document");
    assert_eq!(InputType::Query.as_str(), "query");
}

#[test]
fn schema_defines_all_tables() {
    for table in ["symbol", "chunk", "calls", "uses", "imports", "contains", "implements"] {
        assert!(SCHEMA_DDL.contains(&format!(" {table} ")), "{table}");
    }
}
