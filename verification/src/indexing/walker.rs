//! Which files of a repository are indexed.
use vstd::prelude::*;

use crate::paths::{begins_with, components, extension, file_name, normal};
use crate::text::{chars_of, lowercase, same_text};

verus! {

/// Extensions considered indexable code/config.
pub const CODE_EXTENSIONS: [&'static str; 50] = [
    "py", "js", "ts", "tsx", "jsx", "rs", "go", "java", "cs", "cpp", "c", "h", "hpp", "cc", "cxx",
    "hxx", "hh", "rb", "php", "swift", "kt", "scala", "ex", "exs", "clj", "hs", "ml", "lua", "r",
    "sh", "bash", "zsh", "fish", "ps1", "yaml", "yml", "toml", "json", "xml", "html", "css", "scss",
    "sql", "proto", "graphql", "md", "txt", "dockerfile", "tf", "hcl",
];

/// Non-dot directories to always skip (dot-prefixed directories are pruned by the
/// walk filter automatically, so they do not need to appear here).
pub const SKIP_DIRS: [&'static str; 6] = [
    "node_modules", "target", "build", "dist", "__pycache__", "vendor",
];

pub open spec fn is_code_extension(ext: Seq<char>) -> bool {
    exists|i: int| 0 <= i < 50 && #[trigger] CODE_EXTENSIONS@[i]@ == ext
}

pub open spec fn is_skipped_dir(name: Seq<char>) -> bool {
    exists|i: int| 0 <= i < 6 && #[trigger] SKIP_DIRS@[i]@ == name
}

fn code_extension(ext: &str) -> (r: bool)
    ensures
        r == is_code_extension(ext@),
{
    let all = CODE_EXTENSIONS;
    let mut i: usize = 0;
    while i < 50
        invariant
            all == CODE_EXTENSIONS,
            i <= 50,
            forall|k: int| 0 <= k < i ==> #[trigger] CODE_EXTENSIONS@[k]@ != ext@,
        decreases 50 - i,
    {
        if same_text(all[i], ext) {
            assert(CODE_EXTENSIONS@[i as int]@ == ext@);
            return true;
        }
        i = i + 1;
    }
    false
}

fn skipped_dir(name: &str) -> (r: bool)
    ensures
        r == is_skipped_dir(name@),
{
    let all = SKIP_DIRS;
    let mut i: usize = 0;
    while i < 6
        invariant
            all == SKIP_DIRS,
            i <= 6,
            forall|k: int| 0 <= k < i ==> #[trigger] SKIP_DIRS@[k]@ != name@,
        decreases 6 - i,
    {
        if same_text(all[i], name) {
            assert(SKIP_DIRS@[i as int]@ == name@);
            return true;
        }
        i = i + 1;
    }
    false
}

// ─── The walk ───

pub open spec fn starts_with_dot(name: Seq<char>) -> bool {
    name.len() > 0 && name[0] == '.'
}

/// The walk goes into every directory but those of the list and, below the
/// root, those whose names begin with a dot. It visits every file.
pub open spec fn keeps(is_dir: bool, name: Seq<char>, depth: nat) -> bool {
    is_dir ==> !is_skipped_dir(name) && !(depth > 0 && starts_with_dot(name))
}

/// Whether the walk visits an entry. The root of the walk has depth 0.
pub fn keep_entry(is_dir: bool, name: &str, depth: usize) -> (r: bool)
    ensures
        r == keeps(is_dir, name@, depth as nat),
{
    if is_dir {
        if skipped_dir(name) {
            return false;
        }
        let cs = chars_of(name);
        if depth > 0 && cs.len() > 0 && cs[0] == '.' {
            return false;
        }
    }
    true
}

/// Whether a file is indexed, by its extension or, where it has none, by its
/// name; both in lowercase.
pub open spec fn is_indexable_as(ext: Option<Seq<char>>, name: Seq<char>) -> bool {
    match ext {
        Some(e) => is_code_extension(e),
        None => name == "dockerfile"@ || name == "makefile"@ || name == "justfile"@,
    }
}

/// Whether a file with the given lowercase extension and name is indexed.
pub fn indexable_as(ext: &Option<String>, name: &str) -> (r: bool)
    ensures
        r == is_indexable_as(crate::text::opt_text(*ext), name@),
{
    match ext {
        Some(e) => code_extension(e.as_str()),
        None => same_text(name, "dockerfile") || same_text(name, "makefile") || same_text(
            name,
            "justfile",
        ),
    }
}

/// The lowercase of an optional text.
pub open spec fn opt_lowercase(s: Option<Seq<char>>) -> Option<Seq<char>> {
    match s {
        Some(t) => Some(crate::text::lowercase_of(t)),
        None => None,
    }
}

pub open spec fn indexable(path: Seq<char>) -> bool {
    is_indexable_as(
        opt_lowercase(crate::paths::extension_of(path)),
        crate::text::lowercase_of(
            match crate::paths::file_name_of(path) {
                Some(name) => name,
                None => ""@,
            },
        ),
    )
}

/// Whether a file is indexed.
pub fn is_indexable(path: &str) -> (r: bool)
    ensures
        r == indexable(path@),
{
    let ext = match extension(path) {
        Some(e) => Some(lowercase(e.as_str())),
        None => None,
    };
    let name = match file_name(path) {
        Some(name) => lowercase(name.as_str()),
        None => lowercase(""),
    };
    indexable_as(&ext, name.as_str())
}

/// The files of a list that are indexed, in its order.
pub open spec fn indexable_among(paths: Seq<Seq<char>>) -> Seq<Seq<char>>
    decreases paths.len(),
{
    if paths.len() == 0 {
        Seq::empty()
    } else if indexable(paths.last()) {
        indexable_among(paths.drop_last()).push(paths.last())
    } else {
        indexable_among(paths.drop_last())
    }
}

/// Of the files that a walk visited, those that are indexed.
pub fn indexable_files(paths: &Vec<String>) -> (r: Vec<String>)
    ensures
        crate::text::texts(r@) == indexable_among(crate::text::texts(paths@)),
{
    let ghost all = crate::text::texts(paths@);
    let mut out: Vec<String> = Vec::new();
    let mut i: usize = 0;
    assert(all.take(0) =~= Seq::empty());
    assert(crate::text::texts(out@) =~= Seq::empty());
    while i < paths.len()
        invariant
            all == crate::text::texts(paths@),
            i <= paths@.len(),
            crate::text::texts(out@) == indexable_among(all.take(i as int)),
        decreases paths@.len() - i,
    {
        assert(all.take(i + 1).drop_last() =~= all.take(i as int));
        assert(all.take(i + 1).last() == paths@[i as int]@);
        if is_indexable(paths[i].as_str()) {
            let ghost before = crate::text::texts(out@);
            out.push(paths[i].clone());
            assert(crate::text::texts(out@) =~= before.push(paths@[i as int]@));
        }
        i = i + 1;
    }
    assert(all.take(i as int) =~= all);
    out
}

// ─── Hidden directories ───

/// A component that is hidden by convention: a name that begins with a dot.
pub open spec fn is_hidden(component: Seq<char>) -> bool {
    crate::paths::is_normal(component) && component.len() > 0 && component[0] == '.'
}

/// Some directory strictly between the repository and the file is hidden.
pub open spec fn under_hidden(repo_root: Seq<char>, path: Seq<char>) -> bool {
    let all = crate::paths::components_of(path);
    crate::paths::lies_in(path, repo_root) && exists|i: int|
        crate::paths::components_of(repo_root).len() <= i < all.len() - 1 && is_hidden(#[trigger] all[i])
}

/// Returns true if `path` is inside a dot-prefixed directory relative to `repo_root`.
/// The check looks ONLY at directory components between `repo_root` and the file's
/// parent — the file's own basename does not count, so a root-level file like
/// `.eslintrc.json` returns false. The repo root itself is never considered hidden.
/// Returns false if `path` is not inside `repo_root` (caller's responsibility).
pub fn is_under_hidden_dir(repo_root: &str, path: &str) -> (r: bool)
    ensures
        r == under_hidden(repo_root@, path@),
{
    let all = components(path);
    let root = components(repo_root);
    let ghost views = crate::paths::components_of(path@);
    if !begins_with(&all, &root) {
        return false;
    }
    let from: usize = root.len();
    let mut i: usize = from;
    while i < all.len() && i < all.len() - 1
        invariant
            views == crate::text::texts(all@),
            views == crate::paths::components_of(path@),
            from == crate::paths::components_of(repo_root@).len(),
            crate::paths::lies_in(path@, repo_root@),
            from <= i <= all@.len(),
            forall|k: int| from <= k < i ==> !is_hidden(#[trigger] views[k]),
        decreases all@.len() - i,
    {
        assert(views[i as int] == all@[i as int]@);
        let name = chars_of(all[i].as_str());
        if name.len() > 0 && name[0] == '.' && normal(all[i].as_str()) {
            assert(is_hidden(views[i as int]));
            return true;
        }
        i = i + 1;
    }
    false
}

// ─── The laws ───

/// The name of the file itself is never looked at: two files of one directory
/// are both under a hidden directory or neither is.
pub proof fn law_basename_does_not_count(
    repo_root: Seq<char>,
    a: Seq<char>,
    b: Seq<char>,
)
    requires
        crate::paths::components_of(a).len() == crate::paths::components_of(b).len(),
        crate::paths::components_of(a).len() > crate::paths::components_of(repo_root).len(),
        crate::paths::components_of(a).drop_last() == crate::paths::components_of(b).drop_last(),
    ensures
        under_hidden(repo_root, a) == under_hidden(repo_root, b),
{
    let x = crate::paths::components_of(a);
    let y = crate::paths::components_of(b);
    let root = crate::paths::components_of(repo_root);
    assert forall|i: int| 0 <= i < x.len() - 1 implies #[trigger] x[i] == y[i] by {
        assert(x.drop_last()[i] == y.drop_last()[i]);
    }
    assert(x.subrange(0, root.len() as int) =~= y.subrange(0, root.len() as int));
    if under_hidden(repo_root, a) {
        let i = choose|i: int| root.len() <= i < x.len() - 1 && is_hidden(#[trigger] x[i]);
        assert(is_hidden(y[i]));
    }
    if under_hidden(repo_root, b) {
        let i = choose|i: int| root.len() <= i < y.len() - 1 && is_hidden(#[trigger] y[i]);
        assert(is_hidden(x[i]));
    }
}

/// A file directly in the repository root is not under a hidden directory,
/// whatever the root and the file are called.
pub proof fn law_root_is_never_hidden(repo_root: Seq<char>, path: Seq<char>)
    requires
        crate::paths::components_of(path).len() <= crate::paths::components_of(repo_root).len() + 1,
    ensures
        !under_hidden(repo_root, path),
{
}

/// A path outside of the repository is not under a hidden directory of it.
pub proof fn law_outside_is_not_hidden(repo_root: Seq<char>, path: Seq<char>)
    requires
        !crate::paths::lies_in(path, repo_root),
    ensures
        !under_hidden(repo_root, path),
{
}

/// The walk of a repository comes to the file: it goes into every directory
/// between the root and the file.
pub open spec fn is_visited(repo_root: Seq<char>, path: Seq<char>) -> bool {
    let all = crate::paths::components_of(path);
    let n = crate::paths::components_of(repo_root).len() as int;
    crate::paths::lies_in(path, repo_root) && forall|i: int|
        n <= i < all.len() - 1 ==> keeps(true, #[trigger] all[i], (i - n + 1) as nat)
}

/// No file that the walk comes to is under a hidden directory, or in one of the
/// directories that are always skipped.
pub proof fn law_walk_avoids_hidden_and_skipped(repo_root: Seq<char>, path: Seq<char>)
    requires
        is_visited(repo_root, path),
    ensures
        !under_hidden(repo_root, path),
        forall|i: int|
            crate::paths::components_of(repo_root).len() <= i < crate::paths::components_of(
                path,
            ).len() - 1 ==> !is_skipped_dir(#[trigger] crate::paths::components_of(path)[i]),
{
    let all = crate::paths::components_of(path);
    let n = crate::paths::components_of(repo_root).len() as int;
    assert forall|i: int| n <= i < all.len() - 1 implies !is_hidden(#[trigger] all[i])
        && !is_skipped_dir(all[i]) by {
        assert(keeps(true, all[i], (i - n + 1) as nat));
    }
}

/// The root of a walk is gone into whatever it is called, unless it is one of
/// the directories that are always skipped.
pub proof fn law_dotted_root_is_walked(name: Seq<char>)
    requires
        !is_skipped_dir(name),
    ensures
        keeps(true, name, 0),
{
}

/// The walk prunes nothing else: a file below the root is visited, at whatever
/// depth it stands, where no directory between the root and it has one of the
/// skipped names or a name that begins with a dot.
pub proof fn law_walk_prunes_nothing_else(repo_root: Seq<char>, path: Seq<char>)
    requires
        crate::paths::lies_in(path, repo_root),
        forall|i: int|
            crate::paths::components_of(repo_root).len() <= i < crate::paths::components_of(
                path,
            ).len() - 1 ==> !has_skipped_name(#[trigger] crate::paths::components_of(path)[i]) && (
            crate::paths::components_of(path)[i].len() == 0 || crate::paths::components_of(
                path,
            )[i][0] != '.'),
    ensures
        is_visited(repo_root, path),
        forall|i: int|
            crate::paths::components_of(repo_root).len() <= i < crate::paths::components_of(
                path,
            ).len() - 1 ==> keeps(
                true,
                #[trigger] crate::paths::components_of(path)[i],
                (i - crate::paths::components_of(repo_root).len() + 1) as nat,
            ),
        forall|name: Seq<char>, depth: nat| #[trigger] keeps(false, name, depth),
{
    let all = crate::paths::components_of(path);
    let n = crate::paths::components_of(repo_root).len() as int;
    assert forall|i: int| n <= i < all.len() - 1 implies keeps(
        true,
        #[trigger] all[i],
        (i - n + 1) as nat,
    ) by {
        lemma_skipped_names(all[i]);
    }
}

/// The names of the directories that are always skipped.
pub open spec fn has_skipped_name(name: Seq<char>) -> bool {
    ||| name == "node_modules"@
    ||| name == "target"@
    ||| name == "build"@
    ||| name == "dist"@
    ||| name == "__pycache__"@
    ||| name == "vendor"@
}

proof fn lemma_skipped_names(name: Seq<char>)
    ensures
        is_skipped_dir(name) <==> has_skipped_name(name),
{
    assert(SKIP_DIRS@[0]@ == "node_modules"@);
    assert(SKIP_DIRS@[1]@ == "target"@);
    assert(SKIP_DIRS@[2]@ == "build"@);
    assert(SKIP_DIRS@[3]@ == "dist"@);
    assert(SKIP_DIRS@[4]@ == "__pycache__"@);
    assert(SKIP_DIRS@[5]@ == "vendor"@);
    if is_skipped_dir(name) {
        let i = choose|i: int| 0 <= i < 6 && #[trigger] SKIP_DIRS@[i]@ == name;
        assert(i == 0 || i == 1 || i == 2 || i == 3 || i == 4 || i == 5);
    }
}

/// Below the root the depth does not count: a directory is gone into wherever one
/// of its name is.
pub proof fn law_depth_does_not_count(is_dir: bool, name: Seq<char>, a: nat, b: nat)
    requires
        a > 0,
        b > 0,
    ensures
        keeps(is_dir, name, a) == keeps(is_dir, name, b),
{
}

/// Of the visited files exactly those are indexed that are indexable, each as
/// often as it was visited and in the same order.
pub proof fn law_indexed_are_the_indexable(paths: Seq<Seq<char>>)
    ensures
        indexable_among(paths) == paths.filter(|p: Seq<char>| indexable(p)),
    decreases paths.len(),
{
    reveal(Seq::filter);
    if paths.len() > 0 {
        law_indexed_are_the_indexable(paths.drop_last());
    } else {
        assert(indexable_among(paths) =~= paths.filter(|p: Seq<char>| indexable(p)));
    }
}

/// The extensions of the files that are indexed.
pub open spec fn has_code_extension(ext: Seq<char>) -> bool {
    ||| ext == "py"@
    ||| ext == "js"@
    ||| ext == "ts"@
    ||| ext == "tsx"@
    ||| ext == "jsx"@
    ||| ext == "rs"@
    ||| ext == "go"@
    ||| ext == "java"@
    ||| ext == "cs"@
    ||| ext == "cpp"@
    ||| ext == "c"@
    ||| ext == "h"@
    ||| ext == "hpp"@
    ||| ext == "cc"@
    ||| ext == "cxx"@
    ||| ext == "hxx"@
    ||| ext == "hh"@
    ||| ext == "rb"@
    ||| ext == "php"@
    ||| ext == "swift"@
    ||| ext == "kt"@
    ||| ext == "scala"@
    ||| ext == "ex"@
    ||| ext == "exs"@
    ||| ext == "clj"@
    ||| ext == "hs"@
    ||| ext == "ml"@
    ||| ext == "lua"@
    ||| ext == "r"@
    ||| ext == "sh"@
    ||| ext == "bash"@
    ||| ext == "zsh"@
    ||| ext == "fish"@
    ||| ext == "ps1"@
    ||| ext == "yaml"@
    ||| ext == "yml"@
    ||| ext == "toml"@
    ||| ext == "json"@
    ||| ext == "xml"@
    ||| ext == "html"@
    ||| ext == "css"@
    ||| ext == "scss"@
    ||| ext == "sql"@
    ||| ext == "proto"@
    ||| ext == "graphql"@
    ||| ext == "md"@
    ||| ext == "txt"@
    ||| ext == "dockerfile"@
    ||| ext == "tf"@
    ||| ext == "hcl"@
}

/// A file is indexed exactly where its extension, in lowercase, is one of those
/// above; one without an extension exactly where its name, in lowercase, is that
/// of a build file.
pub proof fn law_indexed_by_extension_or_name(path: Seq<char>, name: Seq<char>)
    requires
        crate::paths::file_name_of(path) == Some(name),
    ensures
        crate::paths::extension_of(path) matches Some(ext) ==> (indexable(path)
            <==> has_code_extension(crate::text::lowercase_of(ext))),
        crate::paths::extension_of(path) is None ==> (indexable(path) <==> {
            let lower = crate::text::lowercase_of(name);
            lower == "dockerfile"@ || lower == "makefile"@ || lower == "justfile"@
        }),
{
    if let Some(ext) = crate::paths::extension_of(path) {
        lemma_code_extensions(crate::text::lowercase_of(ext));
    }
}

proof fn lemma_code_extensions(ext: Seq<char>)
    ensures
        is_code_extension(ext) <==> has_code_extension(ext),
{
    assert(CODE_EXTENSIONS@[0]@ == "py"@);
    assert(CODE_EXTENSIONS@[1]@ == "js"@);
    assert(CODE_EXTENSIONS@[2]@ == "ts"@);
    assert(CODE_EXTENSIONS@[3]@ == "tsx"@);
    assert(CODE_EXTENSIONS@[4]@ == "jsx"@);
    assert(CODE_EXTENSIONS@[5]@ == "rs"@);
    assert(CODE_EXTENSIONS@[6]@ == "go"@);
    assert(CODE_EXTENSIONS@[7]@ == "java"@);
    assert(CODE_EXTENSIONS@[8]@ == "cs"@);
    assert(CODE_EXTENSIONS@[9]@ == "cpp"@);
    assert(CODE_EXTENSIONS@[10]@ == "c"@);
    assert(CODE_EXTENSIONS@[11]@ == "h"@);
    assert(CODE_EXTENSIONS@[12]@ == "hpp"@);
    assert(CODE_EXTENSIONS@[13]@ == "cc"@);
    assert(CODE_EXTENSIONS@[14]@ == "cxx"@);
    assert(CODE_EXTENSIONS@[15]@ == "hxx"@);
    assert(CODE_EXTENSIONS@[16]@ == "hh"@);
    assert(CODE_EXTENSIONS@[17]@ == "rb"@);
    assert(CODE_EXTENSIONS@[18]@ == "php"@);
    assert(CODE_EXTENSIONS@[19]@ == "swift"@);
    assert(CODE_EXTENSIONS@[20]@ == "kt"@);
    assert(CODE_EXTENSIONS@[21]@ == "scala"@);
    assert(CODE_EXTENSIONS@[22]@ == "ex"@);
    assert(CODE_EXTENSIONS@[23]@ == "exs"@);
    assert(CODE_EXTENSIONS@[24]@ == "clj"@);
    assert(CODE_EXTENSIONS@[25]@ == "hs"@);
    assert(CODE_EXTENSIONS@[26]@ == "ml"@);
    assert(CODE_EXTENSIONS@[27]@ == "lua"@);
    assert(CODE_EXTENSIONS@[28]@ == "r"@);
    assert(CODE_EXTENSIONS@[29]@ == "sh"@);
    assert(CODE_EXTENSIONS@[30]@ == "bash"@);
    assert(CODE_EXTENSIONS@[31]@ == "zsh"@);
    assert(CODE_EXTENSIONS@[32]@ == "fish"@);
    assert(CODE_EXTENSIONS@[33]@ == "ps1"@);
    assert(CODE_EXTENSIONS@[34]@ == "yaml"@);
    assert(CODE_EXTENSIONS@[35]@ == "yml"@);
    assert(CODE_EXTENSIONS@[36]@ == "toml"@);
    assert(CODE_EXTENSIONS@[37]@ == "json"@);
    assert(CODE_EXTENSIONS@[38]@ == "xml"@);
    assert(CODE_EXTENSIONS@[39]@ == "html"@);
    assert(CODE_EXTENSIONS@[40]@ == "css"@);
    assert(CODE_EXTENSIONS@[41]@ == "scss"@);
    assert(CODE_EXTENSIONS@[42]@ == "sql"@);
    assert(CODE_EXTENSIONS@[43]@ == "proto"@);
    assert(CODE_EXTENSIONS@[44]@ == "graphql"@);
    assert(CODE_EXTENSIONS@[45]@ == "md"@);
    assert(CODE_EXTENSIONS@[46]@ == "txt"@);
    assert(CODE_EXTENSIONS@[47]@ == "dockerfile"@);
    assert(CODE_EXTENSIONS@[48]@ == "tf"@);
    assert(CODE_EXTENSIONS@[49]@ == "hcl"@);
    if is_code_extension(ext) {
        let i = choose|i: int| 0 <= i < 50 && #[trigger] CODE_EXTENSIONS@[i]@ == ext;
    }
}

/// Every directory between the repository and the file that begins with a dot
/// hides the file, wherever it stands.
pub proof fn law_every_dotted_directory_hides(repo_root: Seq<char>, path: Seq<char>, i: int)
    requires
        crate::paths::lies_in(path, repo_root),
        crate::paths::components_of(repo_root).len() <= i < crate::paths::components_of(path).len()
            - 1,
        crate::paths::components_of(path)[i].len() > 0,
        crate::paths::components_of(path)[i][0] == '.',
        crate::paths::components_of(path)[i] != seq!['.'],
        crate::paths::components_of(path)[i] != seq!['.', '.'],
    ensures
        under_hidden(repo_root, path),
{
    reveal_strlit(".");
    reveal_strlit("..");
    reveal_strlit("/");
    let c = crate::paths::components_of(path)[i];
    assert("."@ =~= seq!['.']);
    assert(".."@ =~= seq!['.', '.']);
    assert("/"@[0] == '/');
    assert(is_hidden(c));
}

/// Nothing else hides it: without a directory between the two whose name begins with
/// a dot the file is not hidden.
pub proof fn law_only_dotted_directories_hide(repo_root: Seq<char>, path: Seq<char>)
    requires
        forall|i: int|
            crate::paths::components_of(repo_root).len() <= i < crate::paths::components_of(
                path,
            ).len() - 1 && (#[trigger] crate::paths::components_of(path)[i]).len() > 0
                ==> crate::paths::components_of(path)[i][0] != '.',
    ensures
        !under_hidden(repo_root, path),
{
}

}
