//! The statements that write symbols and edges to the store.
use vstd::prelude::*;

use crate::indexing::graph::ResolvedEdge;
use crate::parsing::relations::EdgeKind;
use crate::parsing::symbols::{QualifiedSymbol, Symbol, SymbolKind};
use crate::text::{chars_of, decimal};

verus! {

/// Batch size for DB writes — keeps per-query payload small and avoids a
/// gigabyte-sized transaction on large repos.
pub const WRITE_BATCH_SIZE: usize = 512;

// ─── Escaping ───

/// A text with a backslash before each backslash and each single quote.
pub open spec fn escaped(s: Seq<char>) -> Seq<char>
    decreases s.len(),
{
    if s.len() == 0 {
        Seq::empty()
    } else if s.last() == '\\' || s.last() == '\'' {
        escaped(s.drop_last()).push('\\').push(s.last())
    } else {
        escaped(s.drop_last()).push(s.last())
    }
}

/// Escape a string for safe embedding in a SurrealQL single-quoted literal.
/// Handles backslashes and single quotes.
pub fn escape_surreal(s: &str) -> (r: String)
    ensures
        r@ == escaped(s@),
{
    let cs = chars_of(s);
    let mut out = String::new();
    let mut i: usize = 0;
    assert(cs@.take(0) =~= Seq::empty());
    while i < cs.len()
        invariant
            i <= cs@.len(),
            out@ == escaped(cs@.take(i as int)),
        decreases cs@.len() - i,
    {
        assert(cs@.take(i + 1).drop_last() =~= cs@.take(i as int));
        assert(cs@.take(i + 1).last() == cs@[i as int]);
        if cs[i] == '\\' || cs[i] == '\'' {
            out.push('\\');
        }
        out.push(cs[i]);
        i = i + 1;
    }
    assert(cs@.take(i as int) =~= cs@);
    out
}

/// What a single-quoted literal denotes, read from just behind its opening
/// quote: a backslash makes the next character stand for itself, and the first
/// quote without one ends the literal. The second part is what follows it;
/// there is nothing where the literal does not end.
pub open spec fn literal_read(s: Seq<char>) -> Option<(Seq<char>, Seq<char>)>
    decreases s.len(),
{
    if s.len() == 0 {
        None
    } else if s[0] == '\'' {
        Some((Seq::empty(), s.skip(1)))
    } else if s[0] == '\\' {
        if s.len() < 2 {
            None
        } else {
            match literal_read(s.skip(2)) {
                Some((text, rest)) => Some((seq![s[1]] + text, rest)),
                None => None,
            }
        }
    } else {
        match literal_read(s.skip(1)) {
            Some((text, rest)) => Some((seq![s[0]] + text, rest)),
            None => None,
        }
    }
}

/// Escaping from the front.
proof fn lemma_escaped_front(s: Seq<char>)
    requires
        s.len() > 0,
    ensures
        escaped(s) == (if s[0] == '\\' || s[0] == '\'' {
            seq!['\\', s[0]]
        } else {
            seq![s[0]]
        }) + escaped(s.skip(1)),
    decreases s.len(),
{
    let front = s.drop_last();
    if s.len() == 1 {
        assert(s.skip(1) =~= Seq::empty());
        assert(front =~= Seq::empty());
        assert(escaped(front) =~= Seq::empty());
    } else {
        lemma_escaped_front(front);
        assert(s.skip(1).drop_last() =~= front.skip(1));
        assert(s.skip(1).last() == s.last());
        assert(front[0] == s[0]);
    }
    assert(escaped(s) =~= (if s[0] == '\\' || s[0] == '\'' {
        seq!['\\', s[0]]
    } else {
        seq![s[0]]
    }) + escaped(s.skip(1)));
}

/// A text that is escaped and put between single quotes is read back as it was,
/// and whatever follows the closing quote is left alone.
pub proof fn law_escaped_literal_is_read_back(s: Seq<char>, rest: Seq<char>)
    ensures
        literal_read(escaped(s) + seq!['\''] + rest) == Some((s, rest)),
    decreases s.len(),
{
    let all = escaped(s) + seq!['\''] + rest;
    if s.len() == 0 {
        assert(all.skip(1) =~= rest);
        assert(s =~= Seq::empty());
    } else {
        lemma_escaped_front(s);
        law_escaped_literal_is_read_back(s.skip(1), rest);
        let tail = escaped(s.skip(1)) + seq!['\''] + rest;
        if s[0] == '\\' || s[0] == '\'' {
            assert(all =~= seq!['\\', s[0]] + tail);
            assert(all.skip(2) =~= tail);
            assert(all[0] == '\\' && all[1] == s[0]);
        } else {
            assert(all =~= seq![s[0]] + tail);
            assert(all.skip(1) =~= tail);
            assert(all[0] == s[0]);
        }
        assert(seq![s[0]] + s.skip(1) =~= s);
    }
}

/// Different texts are escaped differently.
pub proof fn law_escaping_is_injective(a: Seq<char>, b: Seq<char>)
    requires
        escaped(a) == escaped(b),
    ensures
        a == b,
{
    law_escaped_literal_is_read_back(a, Seq::empty());
    law_escaped_literal_is_read_back(b, Seq::empty());
}

// ─── Symbols ───

pub open spec fn kind_name(kind: SymbolKind) -> Seq<char> {
    match kind {
        SymbolKind::Function => "function"@,
        SymbolKind::Method => "method"@,
        SymbolKind::Class => "class"@,
        SymbolKind::Struct => "struct"@,
        SymbolKind::Trait => "trait"@,
        SymbolKind::Impl => "impl"@,
        SymbolKind::Module => "module"@,
        SymbolKind::Interface => "interface"@,
    }
}

pub fn kind_to_str(kind: SymbolKind) -> (r: &'static str)
    ensures
        r@ == kind_name(kind),
{
    match kind {
        SymbolKind::Function => "function",
        SymbolKind::Method => "method",
        SymbolKind::Class => "class",
        SymbolKind::Struct => "struct",
        SymbolKind::Trait => "trait",
        SymbolKind::Impl => "impl",
        SymbolKind::Module => "module",
        SymbolKind::Interface => "interface",
    }
}

/// An optional text as a literal, or `NONE`.
pub open spec fn signature_literal(s: Option<Seq<char>>) -> Seq<char> {
    match s {
        Some(text) => "'"@ + escaped(text) + "'"@,
        None => "NONE"@,
    }
}

fn signature_text(s: &Option<String>) -> (r: String)
    ensures
        r@ == signature_literal(crate::text::opt_text(*s)),
{
    match s {
        Some(text) => {
            let mut out = "'".to_owned();
            out.append(escape_surreal(text.as_str()).as_str());
            out.append("'");
            out
        },
        None => "NONE".to_owned(),
    }
}

/// The reference to a parent as a literal, or `NONE`.
pub open spec fn parent_literal(s: Option<Seq<char>>) -> Seq<char> {
    match s {
        Some(fqn) => "'symbol:⟨"@ + escaped(fqn) + "⟩'"@,
        None => "NONE"@,
    }
}

fn parent_text(s: &Option<String>) -> (r: String)
    ensures
        r@ == parent_literal(crate::text::opt_text(*s)),
{
    match s {
        Some(fqn) => {
            let mut out = "'symbol:⟨".to_owned();
            out.append(escape_surreal(fqn.as_str()).as_str());
            out.append("⟩'");
            out
        },
        None => "NONE".to_owned(),
    }
}

/// The statement that writes a symbol, behind what is there already.
pub open spec fn with_upsert(
    txn: Seq<char>,
    sym: crate::parsing::symbols::SymbolView,
) -> Seq<char> {
    txn + "UPSERT symbol:`⟨"@ + escaped(crate::parsing::symbols::fqn_of(sym.qualified))
        + "⟩` SET name = '"@ + escaped(sym.qualified.name) + "', kind = '"@ + kind_name(sym.kind)
        + "', file = '"@ + escaped(sym.qualified.file) + "', line_start = "@
        + crate::text::decimal_of(sym.line_start as nat) + ", line_end = "@
        + crate::text::decimal_of(sym.line_end as nat) + ", signature = "@ + signature_literal(
        sym.signature,
    ) + ", parent = "@ + parent_literal(sym.parent_fqn) + ";\n"@
}

/// Append an UPSERT statement for `sym`.
pub fn append_upsert_symbol(txn: &mut String, sym: &Symbol)
    ensures
        final(txn)@ == with_upsert(old(txn)@, sym@),
{
    let fqn = escape_surreal(sym.qualified.fqn().as_str());
    let name = escape_surreal(sym.qualified.name.as_str());
    let file = escape_surreal(sym.qualified.file.as_str());
    txn.append("UPSERT symbol:`⟨");
    txn.append(fqn.as_str());
    txn.append("⟩` SET name = '");
    txn.append(name.as_str());
    txn.append("', kind = '");
    txn.append(kind_to_str(sym.kind));
    txn.append("', file = '");
    txn.append(file.as_str());
    txn.append("', line_start = ");
    txn.append(decimal(sym.line_start as u64).as_str());
    txn.append(", line_end = ");
    txn.append(decimal(sym.line_end as u64).as_str());
    txn.append(", signature = ");
    txn.append(signature_text(&sym.signature).as_str());
    txn.append(", parent = ");
    txn.append(parent_text(&sym.parent_fqn).as_str());
    txn.append(";\n");
}

// ─── Edges ───

pub open spec fn edge_table(kind: EdgeKind) -> Seq<char> {
    match kind {
        EdgeKind::Calls => "calls"@,
        EdgeKind::Uses => "uses"@,
        EdgeKind::Imports => "imports"@,
        EdgeKind::Contains => "contains"@,
        EdgeKind::Implements => "implements"@,
    }
}

fn table_of(kind: EdgeKind) -> (r: &'static str)
    ensures
        r@ == edge_table(kind),
{
    match kind {
        EdgeKind::Calls => "calls",
        EdgeKind::Uses => "uses",
        EdgeKind::Imports => "imports",
        EdgeKind::Contains => "contains",
        EdgeKind::Implements => "implements",
    }
}

/// The statement that writes an edge, behind what is there already. Only calls
/// have a line.
pub open spec fn with_relate(
    txn: Seq<char>,
    from: crate::parsing::symbols::QualifiedView,
    to: crate::parsing::symbols::QualifiedView,
    kind: EdgeKind,
    line: u32,
) -> Seq<char> {
    let start = txn + "RELATE symbol:`⟨"@ + escaped(crate::parsing::symbols::fqn_of(from))
        + "⟩`->"@ + edge_table(kind) + "->symbol:`⟨"@ + escaped(
        crate::parsing::symbols::fqn_of(to),
    ) + "⟩` SET "@;
    let middle = if kind == EdgeKind::Calls {
        start + "line = "@ + crate::text::decimal_of(line as nat) + ", "@
    } else {
        start
    };
    middle + "in_file = '"@ + escaped(from.file) + "', out_file = '"@ + escaped(to.file) + "';\n"@
}

/// Append a RELATE statement for an edge.
pub fn append_insert_edge(
    txn: &mut String,
    from: &QualifiedSymbol,
    to: &QualifiedSymbol,
    kind: EdgeKind,
    line: u32,
)
    ensures
        final(txn)@ == with_relate(old(txn)@, from@, to@, kind, line),
{
    let from_fqn = escape_surreal(from.fqn().as_str());
    let to_fqn = escape_surreal(to.fqn().as_str());
    let in_file = escape_surreal(from.file.as_str());
    let out_file = escape_surreal(to.file.as_str());
    txn.append("RELATE symbol:`⟨");
    txn.append(from_fqn.as_str());
    txn.append("⟩`->");
    txn.append(table_of(kind));
    txn.append("->symbol:`⟨");
    txn.append(to_fqn.as_str());
    txn.append("⟩` SET ");
    if kind == EdgeKind::Calls {
        txn.append("line = ");
        txn.append(decimal(line as u64).as_str());
        txn.append(", ");
    }
    txn.append("in_file = '");
    txn.append(in_file.as_str());
    txn.append("', out_file = '");
    txn.append(out_file.as_str());
    txn.append("';\n");
}

// ─── Batches ───

/// How many batches a list of the given length makes.
pub open spec fn batch_count(n: nat) -> nat {
    ((n + WRITE_BATCH_SIZE - 1) / (WRITE_BATCH_SIZE as int)) as nat
}

/// The part of a list that makes its `k`th batch.
pub open spec fn batch<A>(s: Seq<A>, k: int) -> Seq<A> {
    let end = (k + 1) * WRITE_BATCH_SIZE;
    s.subrange(
        k * WRITE_BATCH_SIZE,
        if end <= s.len() {
            end
        } else {
            s.len() as int
        },
    )
}

/// The statements for a list of symbols, one after the other.
pub open spec fn upserts(symbols: Seq<crate::parsing::symbols::SymbolView>) -> Seq<char>
    decreases symbols.len(),
{
    if symbols.len() == 0 {
        Seq::empty()
    } else {
        with_upsert(upserts(symbols.drop_last()), symbols.last())
    }
}

/// The statements for a list of edges, one after the other.
pub open spec fn relates(edges: Seq<crate::indexing::graph::ResolvedView>) -> Seq<char>
    decreases edges.len(),
{
    if edges.len() == 0 {
        Seq::empty()
    } else {
        with_relate(
            relates(edges.drop_last()),
            edges.last().from,
            edges.last().to,
            edges.last().kind,
            edges.last().line,
        )
    }
}

/// The queries that write all symbols, in batches.
pub fn symbol_batches(symbols: &Vec<Symbol>) -> (r: Vec<String>)
    ensures
        r@.len() == batch_count(symbols@.len()),
        forall|k: int|
            0 <= k < r@.len() ==> (#[trigger] r@[k])@ == upserts(
                batch(crate::parsing::symbols::symbol_views(symbols@), k),
            ),
{
    let ghost all = crate::parsing::symbols::symbol_views(symbols@);
    let n: usize = symbols.len();
    let mut out: Vec<String> = Vec::new();
    let mut start: usize = 0;
    while start < n
        invariant
            all == crate::parsing::symbols::symbol_views(symbols@),
            n == symbols@.len(),
            start <= n,
            start == n || start == out@.len() * WRITE_BATCH_SIZE,
            out@.len() == batch_count(start as nat),
            forall|k: int|
                0 <= k < out@.len() ==> (#[trigger] out@[k])@ == upserts(batch(all, k)),
        decreases n - start,
    {
        let end: usize = if n - start > WRITE_BATCH_SIZE {
            start + WRITE_BATCH_SIZE
        } else {
            n
        };
        let ghost part = batch(all, out@.len() as int);
        assert(part =~= all.subrange(start as int, end as int));
        let mut text = String::new();
        let mut i: usize = start;
        assert(part.take(0) =~= Seq::empty());
        while i < end
            invariant
                all == crate::parsing::symbols::symbol_views(symbols@),
                n == symbols@.len(),
                start <= i <= end <= n,
                part == all.subrange(start as int, end as int),
                text@ == upserts(part.take(i - start)),
            decreases end - i,
        {
            assert(part.take(i - start + 1).drop_last() =~= part.take(i - start));
            assert(part.take(i - start + 1).last() == symbols@[i as int]@);
            append_upsert_symbol(&mut text, &symbols[i]);
            i = i + 1;
        }
        assert(part.take(i - start) =~= part);
        out.push(text);
        start = end;
    }
    out
}

/// The queries that write all edges, in batches.
pub fn edge_batches(edges: &Vec<ResolvedEdge>) -> (r: Vec<String>)
    ensures
        r@.len() == batch_count(edges@.len()),
        forall|k: int|
            0 <= k < r@.len() ==> (#[trigger] r@[k])@ == relates(
                batch(crate::indexing::graph::resolved_views(edges@), k),
            ),
{
    let ghost all = crate::indexing::graph::resolved_views(edges@);
    let n: usize = edges.len();
    let mut out: Vec<String> = Vec::new();
    let mut start: usize = 0;
    while start < n
        invariant
            all == crate::indexing::graph::resolved_views(edges@),
            n == edges@.len(),
            start <= n,
            start == n || start == out@.len() * WRITE_BATCH_SIZE,
            out@.len() == batch_count(start as nat),
            forall|k: int|
                0 <= k < out@.len() ==> (#[trigger] out@[k])@ == relates(batch(all, k)),
        decreases n - start,
    {
        let end: usize = if n - start > WRITE_BATCH_SIZE {
            start + WRITE_BATCH_SIZE
        } else {
            n
        };
        let ghost part = batch(all, out@.len() as int);
        assert(part =~= all.subrange(start as int, end as int));
        let mut text = String::new();
        let mut i: usize = start;
        assert(part.take(0) =~= Seq::empty());
        while i < end
            invariant
                all == crate::indexing::graph::resolved_views(edges@),
                n == edges@.len(),
                start <= i <= end <= n,
                part == all.subrange(start as int, end as int),
                text@ == relates(part.take(i - start)),
            decreases end - i,
        {
            assert(part.take(i - start + 1).drop_last() =~= part.take(i - start));
            assert(part.take(i - start + 1).last() == edges@[i as int]@);
            let edge = &edges[i];
            append_insert_edge(&mut text, &edge.from, &edge.to, edge.kind, edge.line);
            i = i + 1;
        }
        assert(part.take(i - start) =~= part);
        out.push(text);
        start = end;
    }
    out
}

pub open spec fn drop_meta_query(path: Seq<char>) -> Seq<char> {
    "DELETE FROM file_meta WHERE path = '"@ + escaped(path) + "'"@
}

/// The query that forgets a file that is gone.
pub fn delete_meta_query(path: &str) -> (r: String)
    ensures
        r@ == drop_meta_query(path@),
{
    let mut out = "DELETE FROM file_meta WHERE path = '".to_owned();
    out.append(escape_surreal(path).as_str());
    out.append("'");
    out
}

/// Every element is in exactly the batch that its position falls into, and no
/// batch is empty or too large.
pub proof fn law_batches_hold_everything<A>(s: Seq<A>, i: int)
    requires
        0 <= i < s.len(),
    ensures
        ({
            let size = WRITE_BATCH_SIZE as int;
            &&& 0 <= i / size < batch_count(s.len())
            &&& i % size < batch(s, i / size).len() <= size
            &&& batch(s, i / size)[i % size] == s[i]
        }),
{
}

}
