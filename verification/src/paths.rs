//! Paths as lists of components. A slash separates them, on every platform: paths
//! with other separators are handed over with slashes in their place.
use vstd::prelude::*;

use crate::text::{chars_of, rfind, same_text, string_of};

verus! {

/// The position of the first slash, or the length where there is none.
pub open spec fn slash_at(s: Seq<char>) -> int
    decreases s.len(),
{
    if s.len() == 0 || s[0] == '/' {
        0
    } else {
        1 + slash_at(s.drop_first())
    }
}

proof fn lemma_slash_at_is(s: Seq<char>, n: int)
    requires
        0 <= n <= s.len(),
        n < s.len() ==> s[n] == '/',
        forall|k: int| 0 <= k < n ==> s[k] != '/',
    ensures
        slash_at(s) == n,
    decreases s.len(),
{
    if n > 0 {
        assert(s[0] != '/');
        assert forall|k: int| 0 <= k < n - 1 implies s.drop_first()[k] != '/' by {
            assert(s.drop_first()[k] == s[k + 1]);
        }
        lemma_slash_at_is(s.drop_first(), n - 1);
    }
}

/// What stands between the slashes.
pub open spec fn segments_of(s: Seq<char>) -> Seq<Seq<char>>
    decreases s.len(),
{
    let n = slash_at(s);
    if 0 <= n < s.len() {
        seq![s.take(n)] + segments_of(s.skip(n + 1))
    } else {
        seq![s]
    }
}

fn segments(path: &str) -> (r: Vec<String>)
    ensures
        crate::text::texts(r@) == segments_of(path@),
{
    let cs = chars_of(path);
    let n: usize = cs.len();
    let mut out: Vec<String> = Vec::new();
    let mut start: usize = 0;
    let mut i: usize = 0;
    assert(cs@.skip(0) =~= cs@);
    assert(crate::text::texts(out@) + segments_of(cs@) =~= segments_of(cs@));
    while i < n
        invariant
            n == cs@.len(),
            start <= i <= n,
            forall|k: int| start <= k < i ==> cs@[k] != '/',
            crate::text::texts(out@) + segments_of(cs@.skip(start as int)) == segments_of(cs@),
        decreases n - i,
    {
        if cs[i] == '/' {
            let ghost rest = cs@.skip(start as int);
            let ghost before = out@;
            let part = string_of(&cs, start, i);
            proof {
                assert forall|k: int| 0 <= k < i - start implies rest[k] != '/' by {
                    assert(rest[k] == cs@[start + k]);
                }
                lemma_slash_at_is(rest, i - start);
                assert(rest.take(i - start) =~= part@);
                assert(rest.skip(i - start + 1) =~= cs@.skip(i + 1));
                assert(crate::text::texts(before.push(part)) =~= crate::text::texts(before).push(
                    part@,
                ));
                assert(crate::text::texts(before).push(part@) + segments_of(cs@.skip(i + 1))
                    =~= crate::text::texts(before) + (seq![part@] + segments_of(
                    cs@.skip(i + 1),
                )));
            }
            out.push(part);
            start = i + 1;
        }
        i = i + 1;
    }
    let ghost rest = cs@.skip(start as int);
    let ghost before = out@;
    let part = string_of(&cs, start, n);
    proof {
        assert forall|k: int| 0 <= k < rest.len() implies rest[k] != '/' by {
            assert(rest[k] == cs@[start + k]);
        }
        lemma_slash_at_is(rest, rest.len() as int);
        assert(part@ =~= rest);
        assert(crate::text::texts(before.push(part)) =~= crate::text::texts(before) + seq![part@]);
    }
    out.push(part);
    out
}

/// The segments that stand for something: neither empty nor `.`.
pub open spec fn kept(segs: Seq<Seq<char>>) -> Seq<Seq<char>>
    decreases segs.len(),
{
    if segs.len() == 0 {
        Seq::empty()
    } else if segs.last().len() == 0 || segs.last() == "."@ {
        kept(segs.drop_last())
    } else {
        kept(segs.drop_last()).push(segs.last())
    }
}

/// What a path begins with: the root (`/`), the current directory (`.`), or
/// neither.
pub open spec fn start_of(path: Seq<char>) -> Seq<Seq<char>> {
    if path.len() > 0 && path[0] == '/' {
        seq!["/"@]
    } else if segments_of(path)[0] == "."@ {
        seq!["."@]
    } else {
        Seq::empty()
    }
}

/// The components of a path, left to right: a leading `/` or `.`, then each
/// segment between slashes that is neither empty nor `.`.
pub open spec fn components_of(path: Seq<char>) -> Seq<Seq<char>> {
    start_of(path) + kept(segments_of(path))
}

pub fn components(path: &str) -> (r: Vec<String>)
    ensures
        crate::text::texts(r@) == components_of(path@),
{
    let segs = segments(path);
    let ghost all = segments_of(path@);
    let cs = chars_of(path);
    let mut out: Vec<String> = Vec::new();
    proof {
        assert(all.len() > 0);
        assert(all == crate::text::texts(segs@));
        assert(all[0] == segs@[0]@);
    }
    if cs.len() > 0 && cs[0] == '/' {
        out.push("/".to_owned());
    } else if same_text(segs[0].as_str(), ".") {
        out.push(".".to_owned());
    }
    assert(crate::text::texts(out@) =~= start_of(path@));
    let mut i: usize = 0;
    assert(all.take(0) =~= Seq::empty());
    assert(start_of(path@) + kept(all.take(0)) =~= start_of(path@));
    while i < segs.len()
        invariant
            all == crate::text::texts(segs@),
            i <= segs@.len(),
            crate::text::texts(out@) == start_of(path@) + kept(all.take(i as int)),
        decreases segs@.len() - i,
    {
        assert(all.take(i + 1).drop_last() =~= all.take(i as int));
        assert(all.take(i + 1).last() == segs@[i as int]@);
        let ghost before = out@;
        if !segs[i].as_str().is_empty() && !same_text(segs[i].as_str(), ".") {
            out.push(segs[i].clone());
            assert(crate::text::texts(out@) =~= crate::text::texts(before).push(segs@[i as int]@));
            assert(crate::text::texts(out@) =~= start_of(path@) + kept(all.take(i + 1)));
        }
        i = i + 1;
    }
    assert(all.take(i as int) =~= all);
    out
}

/// A component that names something in a directory.
pub open spec fn is_normal(component: Seq<char>) -> bool {
    component != "/"@ && component != "."@ && component != ".."@
}

pub fn normal(component: &str) -> (r: bool)
    ensures
        r == is_normal(component@),
{
    !same_text(component, "/") && !same_text(component, ".") && !same_text(component, "..")
}

/// The last component, where it names something.
pub open spec fn file_name_of(path: Seq<char>) -> Option<Seq<char>> {
    let all = components_of(path);
    if all.len() > 0 && is_normal(all.last()) {
        Some(all.last())
    } else {
        None
    }
}

/// The last component of a path, where it is the name of a file or directory.
pub fn file_name(path: &str) -> (r: Option<String>)
    ensures
        crate::text::opt_text(r) == file_name_of(path@),
{
    let all = components(path);
    if all.len() > 0 {
        let last: usize = all.len() - 1;
        assert(components_of(path@).last() == all@[last as int]@);
        if normal(all[last].as_str()) {
            return Some(all[last].clone());
        }
    }
    None
}

/// What follows the last dot of a name. A dot at the very start does not count.
pub open spec fn suffix_of(name: Seq<char>) -> Option<Seq<char>> {
    let dot = crate::text::last_at(name, '.');
    if dot > 0 {
        Some(name.skip(dot + 1))
    } else {
        None
    }
}

pub open spec fn extension_of(path: Seq<char>) -> Option<Seq<char>> {
    match file_name_of(path) {
        Some(name) => suffix_of(name),
        None => None,
    }
}

/// The extension of the file that a path names.
pub fn extension(path: &str) -> (r: Option<String>)
    ensures
        crate::text::opt_text(r) == extension_of(path@),
{
    match file_name(path) {
        Some(name) => {
            let cs = chars_of(name.as_str());
            let end: usize = cs.len();
            match rfind(&cs, '.') {
                Some(dot) => if dot > 0 {
                    let suffix = string_of(&cs, dot + 1, end);
                    assert(suffix@ =~= name@.skip(dot + 1));
                    Some(suffix)
                } else {
                    None
                },
                None => None,
            }
        },
        None => None,
    }
}

/// The path lies in the directory or is it: its components begin with those of
/// the directory.
pub open spec fn lies_in(path: Seq<char>, dir: Seq<char>) -> bool {
    components_of(dir).is_prefix_of(components_of(path))
}

/// Whether the first list begins with the second.
pub fn begins_with(all: &Vec<String>, start: &Vec<String>) -> (r: bool)
    ensures
        r == crate::text::texts(start@).is_prefix_of(crate::text::texts(all@)),
{
    let ghost a = crate::text::texts(all@);
    let ghost b = crate::text::texts(start@);
    if start.len() > all.len() {
        return false;
    }
    let mut i: usize = 0;
    while i < start.len()
        invariant
            a == crate::text::texts(all@),
            b == crate::text::texts(start@),
            i <= start@.len() <= all@.len(),
            forall|k: int| 0 <= k < i ==> #[trigger] a[k] == b[k],
        decreases start@.len() - i,
    {
        if !same_text(all[i].as_str(), start[i].as_str()) {
            assert(a.subrange(0, b.len() as int)[i as int] != b[i as int]);
            return false;
        }
        i = i + 1;
    }
    assert(b =~= a.subrange(0, b.len() as int));
    true
}

/// Whether a path lies in a repository.
pub fn path_in_repo(path: &str, repo: &str) -> (r: bool)
    ensures
        r == lies_in(path@, repo@),
{
    begins_with(&components(path), &components(repo))
}

// ─── The laws ───

/// The segment holds no slash.
pub open spec fn is_segment(s: Seq<char>) -> bool {
    forall|i: int| 0 <= i < s.len() ==> #[trigger] s[i] != '/'
}

pub open spec fn are_segments(segs: Seq<Seq<char>>) -> bool {
    forall|i: int| 0 <= i < segs.len() ==> is_segment(#[trigger] segs[i])
}

proof fn lemma_segments_of_joined(segs: Seq<Seq<char>>)
    requires
        segs.len() > 0,
        are_segments(segs),
    ensures
        segments_of(crate::text::joined(segs, "/"@)) == segs,
    decreases segs.len(),
{
    reveal_strlit("/");
    let s = crate::text::joined(segs, "/"@);
    assert(is_segment(segs[0]));
    if segs.len() == 1 {
        lemma_slash_at_is(s, s.len() as int);
        assert(segments_of(s) =~= segs);
    } else {
        let rest = segs.drop_first();
        let n = segs[0].len() as int;
        assert forall|i: int| 0 <= i < rest.len() implies is_segment(#[trigger] rest[i]) by {
            assert(rest[i] == segs[i + 1]);
        }
        crate::text::lemma_joined_front(segs, "/"@);
        lemma_segments_of_joined(rest);
        assert(s[n] == '/');
        assert forall|k: int| 0 <= k < n implies s[k] != '/' by {
            assert(s[k] == segs[0][k]);
        }
        lemma_slash_at_is(s, n);
        assert(s.take(n) =~= segs[0]);
        assert(s.skip(n + 1) =~= crate::text::joined(rest, "/"@));
        assert(seq![segs[0]] + rest =~= segs);
    }
}

/// The segment stands for a component: it is neither empty nor `.`.
pub open spec fn counts(segment: Seq<char>) -> bool {
    segment.len() > 0 && !(segment.len() == 1 && segment[0] == '.')
}

proof fn lemma_kept(segs: Seq<Seq<char>>)
    ensures
        kept(segs) == segs.filter(|s: Seq<char>| counts(s)),
    decreases segs.len(),
{
    reveal(Seq::filter);
    reveal_strlit(".");
    if segs.len() > 0 {
        lemma_kept(segs.drop_last());
        let l = segs.last();
        if l.len() == 1 && l[0] == '.' {
            assert(l =~= "."@);
        }
    } else {
        assert(kept(segs) =~= segs.filter(|s: Seq<char>| counts(s)));
    }
}

/// The components of a path that is written as segments between slashes: its
/// segments without empty ones and dots, in their order, behind the root where the
/// path begins with a slash and behind a dot that it begins with.
pub proof fn law_components_are_the_segments(segs: Seq<Seq<char>>)
    requires
        segs.len() > 0,
        are_segments(segs),
    ensures
        ({
            let all = components_of(crate::text::joined(segs, "/"@));
            let named = segs.filter(|s: Seq<char>| counts(s));
            if segs.len() > 1 && segs[0].len() == 0 {
                all == seq![seq!['/']] + named
            } else if segs[0] == seq!['.'] {
                all == seq![seq!['.']] + named
            } else {
                all == named
            }
        }),
{
    reveal_strlit("/");
    reveal_strlit(".");
    let path = crate::text::joined(segs, "/"@);
    lemma_segments_of_joined(segs);
    lemma_kept(segs);
    assert("/"@ =~= seq!['/']);
    assert("."@ =~= seq!['.']);
    assert(is_segment(segs[0]));
    if segs.len() > 1 {
        crate::text::lemma_joined_front(segs, "/"@);
        if segs[0].len() == 0 {
            assert(path[0] == '/');
        } else {
            assert(path[0] == segs[0][0]);
        }
    } else if path.len() > 0 {
        assert(path[0] == segs[0][0]);
    }
    let named = segs.filter(|s: Seq<char>| counts(s));
    assert(Seq::<Seq<char>>::empty() + named =~= named);
}

proof fn lemma_all_count(segs: Seq<Seq<char>>)
    requires
        forall|i: int| 0 <= i < segs.len() ==> counts(#[trigger] segs[i]),
    ensures
        segs.filter(|s: Seq<char>| counts(s)) == segs,
    decreases segs.len(),
{
    reveal(Seq::filter);
    if segs.len() > 0 {
        let t = segs.drop_last();
        assert forall|i: int| 0 <= i < t.len() implies counts(#[trigger] t[i]) by {
            assert(t[i] == segs[i]);
        }
        lemma_all_count(t);
        assert(counts(segs[segs.len() - 1]));
        assert(t.push(segs.last()) =~= segs);
    } else {
        assert(segs.filter(|s: Seq<char>| counts(s)) =~= segs);
    }
}

/// The path of a list of names below the root.
pub open spec fn absolute(names: Seq<Seq<char>>) -> Seq<char> {
    crate::text::joined(seq![Seq::<char>::empty()] + names, "/"@)
}

/// Names that are written below the root are read back as the components.
pub proof fn law_names_are_read_back(names: Seq<Seq<char>>)
    requires
        names.len() > 0,
        are_segments(names),
        forall|i: int| 0 <= i < names.len() ==> counts(#[trigger] names[i]),
    ensures
        components_of(absolute(names)) == seq![seq!['/']] + names,
{
    reveal(Seq::filter);
    let none = seq![Seq::<char>::empty()];
    let segs = none + names;
    assert forall|i: int| 0 <= i < segs.len() implies is_segment(#[trigger] segs[i]) by {
        if i > 0 {
            assert(segs[i] == names[i - 1]);
        }
    }
    law_components_are_the_segments(segs);
    lemma_all_count(names);
    lemma_filter_skips_first(names);
}

proof fn lemma_filter_skips_first(names: Seq<Seq<char>>)
    ensures
        (seq![Seq::<char>::empty()] + names).filter(|s: Seq<char>| counts(s)) == names.filter(
            |s: Seq<char>| counts(s),
        ),
    decreases names.len(),
{
    reveal(Seq::filter);
    let none = seq![Seq::<char>::empty()];
    let all = none + names;
    if names.len() == 0 {
        assert(all.drop_last() =~= Seq::empty());
        assert(Seq::<Seq<char>>::empty().filter(|s: Seq<char>| counts(s)) =~= Seq::empty());
        assert(all.filter(|s: Seq<char>| counts(s)) =~= names.filter(|s: Seq<char>| counts(s)));
    } else {
        assert(all.drop_last() =~= none + names.drop_last());
        assert(all.last() == names.last());
        lemma_filter_skips_first(names.drop_last());
    }
}

/// A path lies in a directory exactly where its names begin with those of the
/// directory, however many follow.
pub proof fn law_lies_in_is_beginning_with(path: Seq<Seq<char>>, dir: Seq<Seq<char>>)
    requires
        path.len() > 0,
        dir.len() > 0,
        are_segments(path),
        are_segments(dir),
        forall|i: int| 0 <= i < path.len() ==> counts(#[trigger] path[i]),
        forall|i: int| 0 <= i < dir.len() ==> counts(#[trigger] dir[i]),
    ensures
        lies_in(absolute(path), absolute(dir)) <==> dir.is_prefix_of(path),
{
    law_names_are_read_back(path);
    law_names_are_read_back(dir);
    let (p, d) = (seq![seq!['/']] + path, seq![seq!['/']] + dir);
    if dir.is_prefix_of(path) {
        assert(d =~= p.subrange(0, d.len() as int));
    }
    if d.is_prefix_of(p) {
        assert forall|i: int| 0 <= i < dir.len() implies dir[i] == path[i] by {
            assert(d[i + 1] == p.subrange(0, d.len() as int)[i + 1]);
        }
        assert(dir =~= path.subrange(0, dir.len() as int));
    }
}

/// Every path lies in itself, and what lies in a directory lies in all that the
/// directory lies in.
pub proof fn law_lies_in_is_an_order(a: Seq<char>, b: Seq<char>, c: Seq<char>)
    ensures
        lies_in(a, a),
        lies_in(a, b) && lies_in(b, c) ==> lies_in(a, c),
{
    let (x, y, z) = (components_of(a), components_of(b), components_of(c));
    assert(x =~= x.subrange(0, x.len() as int));
    if lies_in(a, b) && lies_in(b, c) {
        assert forall|i: int| 0 <= i < z.len() implies z[i] == x[i] by {
            assert(z[i] == y.subrange(0, z.len() as int)[i]);
            assert(y[i] == x.subrange(0, y.len() as int)[i]);
        }
        assert(z =~= x.subrange(0, z.len() as int));
    }
}

/// The extension of a name is what follows its last dot, unless nothing precedes
/// that dot.
pub proof fn law_extension_follows_the_last_dot(stem: Seq<char>, ext: Seq<char>)
    requires
        forall|i: int| 0 <= i < ext.len() ==> #[trigger] ext[i] != '.',
    ensures
        stem.len() > 0 ==> suffix_of(stem.push('.') + ext) == Some(ext),
        suffix_of(seq!['.'] + ext) is None,
        suffix_of(ext) is None,
{
    let name = stem.push('.') + ext;
    crate::text::law_last_at_is_last(name, '.');
    crate::text::law_last_at_is_last(ext, '.');
    crate::text::law_last_at_is_last(seq!['.'] + ext, '.');
    let at = crate::text::last_at(name, '.');
    assert(name[stem.len() as int] == '.');
    if at > stem.len() {
        assert(name[at] == ext[at - stem.len() - 1]);
    }
    assert(name.skip(stem.len() as int + 1) =~= ext);
    let other = seq!['.'] + ext;
    let k = crate::text::last_at(other, '.');
    if k > 0 {
        assert(other[k] == ext[k - 1]);
    }
    let e = crate::text::last_at(ext, '.');
    if e >= 0 {
        assert(ext[e] != '.');
    }
}

/// The name of a file is the last of the names that its path is written with, and
/// decides its extension.
pub proof fn law_file_name_is_the_last_name(names: Seq<Seq<char>>)
    requires
        names.len() > 0,
        are_segments(names),
        forall|i: int| 0 <= i < names.len() ==> counts(#[trigger] names[i]),
        names.last() != seq!['.', '.'],
    ensures
        file_name_of(absolute(names)) == Some(names.last()),
        extension_of(absolute(names)) == suffix_of(names.last()),
{
    reveal_strlit("/");
    reveal_strlit(".");
    reveal_strlit("..");
    law_names_are_read_back(names);
    let all = components_of(absolute(names));
    assert(all.last() == names.last());
    assert(counts(names[names.len() - 1]));
    assert(is_segment(names[names.len() - 1]));
    if names.last() == "/"@ {
        assert(names.last()[0] == '/');
    }
    if names.last() == ".."@ {
        assert(names.last() =~= seq!['.', '.']);
    }
}

}
