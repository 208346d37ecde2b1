//! The files that a source file includes.
use vstd::prelude::*;
use vstd::string::StrSliceExecFns;

use crate::text::{chars_of, rfind, same_text};

verus! {

/// A path without its directories and without its last extension.
pub open spec fn basename_of(path: Seq<char>) -> Seq<char> {
    let filename = path.skip(crate::text::last_at(path, '/') + 1);
    let dot = crate::text::last_at(filename, '.');
    if dot >= 0 {
        filename.take(dot)
    } else {
        filename
    }
}

/// Return the basename (filename without extension) of an include path.
/// E.g. `"linux/list.h"` → `"list"`, `"Agent.h"` → `"Agent"`.
pub fn include_basename<'a>(path: &'a str) -> (r: &'a str)
    ensures
        r@ == basename_of(path@),
{
    let all = chars_of(path);
    let end: usize = all.len();
    let from: usize = match rfind(&all, '/') {
        Some(i) => i + 1,
        None => 0,
    };
    let filename = path.substring_char(from, end);
    assert(filename@ =~= path@.skip(crate::text::last_at(path@, '/') + 1));
    let rest = chars_of(filename);
    match rfind(&rest, '.') {
        Some(dot) => {
            let stem = filename.substring_char(0, dot);
            assert(stem@ =~= filename@.take(dot as int));
            stem
        },
        None => filename,
    }
}

/// The first of the paths whose basename is the given one.
pub open spec fn first_import(paths: Seq<Seq<char>>, name: Seq<char>) -> Option<Seq<char>>
    decreases paths.len(),
{
    if paths.len() == 0 {
        None
    } else if basename_of(paths[0]) == name {
        Some(paths[0])
    } else {
        first_import(paths.drop_first(), name)
    }
}

/// The paths with one more added at the end, unless it is there.
pub open spec fn with_import(paths: Seq<Seq<char>>, path: Seq<char>) -> Seq<Seq<char>> {
    if paths.contains(path) {
        paths
    } else {
        paths.push(path)
    }
}

/// The include paths of a file, each once, in the order in which they first
/// occur. Each path stands for itself.
#[derive(Debug)]
pub struct ImportMap {
    paths: Vec<String>,
}

impl View for ImportMap {
    type V = Seq<Seq<char>>;

    closed spec fn view(&self) -> Seq<Seq<char>> {
        crate::text::texts(self.paths@)
    }
}

impl ImportMap {
    #[verifier::type_invariant]
    spec fn distinct(&self) -> bool {
        crate::text::texts(self.paths@).no_duplicates()
    }

    pub fn new() -> (r: ImportMap)
        ensures
            r@ == Seq::<Seq<char>>::empty(),
    {
        let r = ImportMap { paths: Vec::new() };
        assert(r@ =~= Seq::<Seq<char>>::empty());
        r
    }

    pub fn len(&self) -> (r: usize)
        ensures
            r == self@.len(),
    {
        self.paths.len()
    }

    pub fn is_empty(&self) -> (r: bool)
        ensures
            r == (self@.len() == 0),
    {
        self.paths.len() == 0
    }

    /// The paths, in the order in which they were added. None occurs twice.
    pub fn keys(&self) -> (r: &Vec<String>)
        ensures
            crate::text::texts(r@) == self@,
            self@.no_duplicates(),
    {
        proof {
            use_type_invariant(self);
        }
        &self.paths
    }

    pub fn contains_key(&self, path: &str) -> (r: bool)
        ensures
            r == self@.contains(path@),
    {
        let mut i: usize = 0;
        while i < self.paths.len()
            invariant
                i <= self.paths@.len(),
                forall|j: int| 0 <= j < i ==> self@[j] != path@,
            decreases self.paths@.len() - i,
        {
            if same_text(self.paths[i].as_str(), path) {
                assert(self@[i as int] == path@);
                return true;
            }
            i = i + 1;
        }
        false
    }

    /// Adds a path, unless it is there.
    pub fn insert(&mut self, path: String)
        ensures
            final(self)@ == with_import(old(self)@, path@),
    {
        proof {
            use_type_invariant(&*self);
        }
        if !self.contains_key(path.as_str()) {
            let ghost before = self.paths@;
            let mut paths: Vec<String> = Vec::new();
            std::mem::swap(&mut self.paths, &mut paths);
            paths.push(path);
            assert(crate::text::texts(paths@) =~= crate::text::texts(before).push(path@));
            self.paths = paths;
        }
    }

    /// The first path whose basename is the given one.
    pub fn find(&self, name: &str) -> (r: Option<String>)
        ensures
            crate::text::opt_text(r) == first_import(self@, name@),
    {
        let mut i: usize = 0;
        assert(self@.skip(0) =~= self@);
        while i < self.paths.len()
            invariant
                i <= self.paths@.len(),
                first_import(self@, name@) == first_import(self@.skip(i as int), name@),
            decreases self.paths@.len() - i,
        {
            assert(self@.skip(i as int)[0] == self.paths@[i as int]@);
            assert(self@.skip(i as int).drop_first() =~= self@.skip(i + 1));
            if same_text(include_basename(self.paths[i].as_str()), name) {
                return Some(self.paths[i].clone());
            }
            i = i + 1;
        }
        None
    }
}

}
