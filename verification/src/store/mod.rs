//! How stored chunks refer to symbols.
use vstd::prelude::*;

use crate::text::{chars_of, string_of};

pub mod schema;

verus! {

/// `symbol:⟨fqn⟩`.
pub open spec fn symbol_ref_of(fqn: Seq<char>) -> Seq<char> {
    "symbol:⟨"@ + fqn + "⟩"@
}

/// The reference to the symbol with the given qualified name.
pub fn symbol_ref(fqn: &str) -> (r: String)
    ensures
        r@ == symbol_ref_of(fqn@),
{
    let mut out = "symbol:⟨".to_owned();
    out.append(fqn);
    out.append("⟩");
    out
}

/// The qualified name in a reference; nothing where it is no reference.
pub open spec fn referred(s: Seq<char>) -> Option<Seq<char>> {
    let open = "symbol:⟨"@;
    let close = "⟩"@;
    if open.is_prefix_of(s) && close.is_suffix_of(s.skip(open.len() as int)) {
        Some(s.subrange(open.len() as int, s.len() - close.len()))
    } else {
        None
    }
}

/// Whether the text stands at the given position.
fn has_at(s: &Vec<char>, at: usize, part: &Vec<char>) -> (r: bool)
    requires
        at + part@.len() <= s@.len(),
    ensures
        r == (s@.subrange(at as int, at + part@.len()) == part@),
{
    let n: usize = s.len();
    let mut i: usize = 0;
    while i < part.len()
        invariant
            n == s@.len(),
            at + part@.len() <= n,
            i <= part@.len(),
            forall|k: int| 0 <= k < i ==> s@[at + k] == #[trigger] part@[k],
        decreases part@.len() - i,
    {
        if s[at + i] != part[i] {
            assert(s@.subrange(at as int, at + part@.len())[i as int] != part@[i as int]);
            return false;
        }
        i = i + 1;
    }
    assert(s@.subrange(at as int, at + part@.len()) =~= part@);
    true
}

/// Reads a reference to a symbol.
pub fn read_symbol_ref(s: &str) -> (r: Option<String>)
    ensures
        crate::text::opt_text(r) == referred(s@),
{
    let all = chars_of(s);
    let open = chars_of("symbol:⟨");
    let close = chars_of("⟩");
    let n: usize = all.len();
    let a: usize = open.len();
    let b: usize = close.len();
    let ghost rest = s@.skip(a as int);
    if a > n || b > n - a {
        return None;
    }
    assert(rest.subrange(rest.len() - b, rest.len() as int) =~= s@.subrange(n - b, n as int));
    if has_at(&all, 0, &open) && has_at(&all, n - b, &close) {
        Some(string_of(&all, a, n - b))
    } else {
        None
    }
}

/// The position of the last `::`, or -1.
pub open spec fn last_scope_at(s: Seq<char>) -> int
    decreases s.len(),
{
    if s.len() < 2 {
        -1
    } else if s[s.len() - 2] == ':' && s.last() == ':' {
        s.len() - 2
    } else {
        last_scope_at(s.drop_last())
    }
}

/// What follows the last `::`.
pub open spec fn short_name_of(fqn: Seq<char>) -> Seq<char> {
    let at = last_scope_at(fqn);
    if at >= 0 {
        fqn.skip(at + 2)
    } else {
        fqn
    }
}

/// The last part of a qualified name.
pub fn short_name(fqn: &str) -> (r: String)
    ensures
        r@ == short_name_of(fqn@),
{
    let all = chars_of(fqn);
    let n: usize = all.len();
    let mut i: usize = n;
    assert(all@.take(i as int) =~= all@);
    while i >= 2
        invariant
            all@ == fqn@,
            n == all@.len(),
            i <= n,
            last_scope_at(all@) == last_scope_at(all@.take(i as int)),
        decreases i,
    {
        assert(all@.take(i as int).drop_last() =~= all@.take(i - 1));
        if all[i - 2] == ':' && all[i - 1] == ':' {
            let name = string_of(&all, i, n);
            assert(name@ =~= all@.skip(i as int));
            return name;
        }
        i = i - 1;
    }
    string_of(&all, 0, n)
}

/// A reference that was written is read back, whatever the name.
pub proof fn law_symbol_ref_round_trip(fqn: Seq<char>)
    ensures
        referred(symbol_ref_of(fqn)) == Some(fqn),
{
    let open = "symbol:⟨"@;
    let close = "⟩"@;
    let s = symbol_ref_of(fqn);
    let rest = s.skip(open.len() as int);
    assert(open =~= s.subrange(0, open.len() as int));
    assert(rest =~= fqn + close);
    assert(close =~= rest.subrange(rest.len() - close.len(), rest.len() as int));
    assert(s.subrange(open.len() as int, s.len() - close.len()) =~= fqn);
}

/// References of different symbols differ.
pub proof fn law_symbol_refs_differ(a: Seq<char>, b: Seq<char>)
    requires
        symbol_ref_of(a) == symbol_ref_of(b),
    ensures
        a == b,
{
    law_symbol_ref_round_trip(a);
    law_symbol_ref_round_trip(b);
}

proof fn lemma_last_scope(head: Seq<char>, name: Seq<char>)
    requires
        forall|i: int| 0 <= i < name.len() ==> #[trigger] name[i] != ':',
    ensures
        last_scope_at(head + "::"@ + name) == head.len(),
    decreases name.len(),
{
    reveal_strlit("::");
    let s = head + "::"@ + name;
    if name.len() == 0 {
        assert(s[s.len() - 2] == ':' && s.last() == ':');
    } else {
        let shorter = name.drop_last();
        assert forall|i: int| 0 <= i < shorter.len() implies #[trigger] shorter[i] != ':' by {
            assert(shorter[i] == name[i]);
        }
        lemma_last_scope(head, shorter);
        assert(name[name.len() - 1] != ':');
        assert(s.last() == name[name.len() - 1]);
        assert(s.drop_last() =~= head + "::"@ + shorter);
    }
}

/// The short name of a symbol's qualified name is the symbol's name, unless that
/// holds a colon.
pub proof fn law_short_name_of_fqn(q: crate::parsing::symbols::QualifiedView)
    requires
        forall|i: int| 0 <= i < q.name.len() ==> #[trigger] q.name[i] != ':',
    ensures
        short_name_of(crate::parsing::symbols::fqn_of(q)) == q.name,
{
    reveal_strlit("::");
    let parts = seq![q.file] + q.scope_path + seq![q.name];
    let head = crate::text::joined(parts.drop_last(), "::"@);
    assert(parts.last() == q.name);
    lemma_last_scope(head, q.name);
    assert((head + "::"@ + q.name).skip(head.len() as int + 2) =~= q.name);
}

/// Only a reference is read as one: what is read is what the reference was written
/// for.
pub proof fn law_only_references_are_read(s: Seq<char>)
    ensures
        referred(s) matches Some(fqn) ==> s == symbol_ref_of(fqn),
{
    let open = "symbol:⟨"@;
    let close = "⟩"@;
    if referred(s) is Some {
        let fqn = referred(s)->0;
        let rest = s.skip(open.len() as int);
        assert(close =~= rest.subrange(rest.len() - close.len(), rest.len() as int));
        assert forall|i: int| 0 <= i < close.len() implies s[s.len() - close.len() + i]
            == close[i] by {
            assert(rest.subrange(rest.len() - close.len(), rest.len() as int)[i] == close[i]);
        }
        assert forall|i: int| 0 <= i < open.len() implies s[i] == open[i] by {
            assert(s.subrange(0, open.len() as int)[i] == open[i]);
        }
        assert(s =~= symbol_ref_of(fqn));
    }
}

/// A reference shows the whole name, character by character.
pub proof fn law_references_show_the_name(fqn: Seq<char>)
    ensures
        symbol_ref_of(fqn).len() == fqn.len() + "symbol:⟨"@.len() + "⟩"@.len(),
        forall|i: int|
            0 <= i < fqn.len() ==> symbol_ref_of(fqn)[i + "symbol:⟨"@.len()] == #[trigger] fqn[i],
{
}

}
