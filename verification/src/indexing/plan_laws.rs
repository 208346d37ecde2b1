//! What holds of everything that a run finds and writes.
use vstd::prelude::*;

use crate::indexing::graph::ResolvedView;
use crate::indexing::pipeline::{ChangeKind, ChangeView, ChunkRowView, RunStep};
use crate::indexing::write_plan::{FileStat, StepView};
use crate::indexing::{graph, pipeline, statements, write_plan};
use crate::parsing::chunker::ChunkView;
use crate::parsing::relations::{EdgeKind, EdgeView, TargetView};
use crate::parsing::symbols::{QualifiedView, SymbolKind, SymbolView};
use crate::parsing::ParseResult;

verus! {

// ─── Edges ───

/// The symbols of a name are all that bear it, in their order.
pub proof fn law_symbols_of_a_name(all: Seq<QualifiedView>, name: Seq<char>)
    ensures
        graph::named(all, name) == all.filter(|q: QualifiedView| q.name == name),
    decreases all.len(),
{
    reveal(Seq::filter);
    if all.len() > 0 {
        law_symbols_of_a_name(all.drop_last(), name);
    } else {
        assert(graph::named(all, name) =~= all.filter(|q: QualifiedView| q.name == name));
    }
}

/// The `i`th symbol is the one that a call of the name from the file is meant for:
/// the first of the name in the file, or where none is, the first of the name.
pub open spec fn is_meant(all: Seq<QualifiedView>, name: Seq<char>, file: Seq<char>, i: int) -> bool {
    &&& 0 <= i < all.len()
    &&& all[i].name == name
    &&& if all[i].file == file {
        forall|j: int|
            0 <= j < i ==> !((#[trigger] all[j]).name == name && all[j].file == file)
    } else {
        &&& forall|j: int|
            0 <= j < all.len() ==> !((#[trigger] all[j]).name == name && all[j].file == file)
        &&& forall|j: int| 0 <= j < i ==> (#[trigger] all[j]).name != name
    }
}

proof fn lemma_named_at(all: Seq<QualifiedView>, name: Seq<char>, k: int) -> (i: int)
    requires
        0 <= k < graph::named(all, name).len(),
    ensures
        0 <= i < all.len(),
        all[i] == graph::named(all, name)[k],
        all[i].name == name,
        graph::named(all.take(i), name) == graph::named(all, name).take(k),
    decreases all.len(),
{
    let front = all.drop_last();
    let before = graph::named(front, name);
    if k < before.len() {
        let i = lemma_named_at(front, name, k);
        assert(front.take(i) =~= all.take(i));
        assert(graph::named(all, name).take(k) =~= before.take(k));
        i
    } else {
        let i = all.len() - 1;
        assert(all.take(i) =~= front);
        assert(graph::named(all, name).take(k) =~= before);
        i
    }
}

proof fn lemma_named_has(all: Seq<QualifiedView>, name: Seq<char>, i: int)
    requires
        0 <= i < all.len(),
        all[i].name == name,
    ensures
        graph::named(all, name).contains(all[i]),
    decreases all.len(),
{
    let front = all.drop_last();
    let before = graph::named(front, name);
    let after = graph::named(all, name);
    if i < front.len() {
        lemma_named_has(front, name, i);
        let k = choose|k: int| 0 <= k < before.len() && before[k] == front[i];
        assert(after[k] == all[i]);
    } else {
        assert(after[before.len() as int] == all[i]);
    }
}

proof fn lemma_first_at(all: Seq<QualifiedView>, file: Seq<char>) -> (k: int)
    ensures
        match graph::first_in_file(all, file) {
            Some(q) => {
                &&& 0 <= k < all.len()
                &&& all[k] == q
                &&& q.file == file
                &&& forall|j: int| 0 <= j < k ==> (#[trigger] all[j]).file != file
            },
            None => forall|j: int| 0 <= j < all.len() ==> (#[trigger] all[j]).file != file,
        },
    decreases all.len(),
{
    if all.len() == 0 {
        0
    } else if all[0].file == file {
        0
    } else {
        let rest = all.drop_first();
        let k = lemma_first_at(rest, file);
        assert forall|j: int| 0 < j < all.len() implies (#[trigger] all[j]) == rest[j - 1] by {}
        k + 1
    }
}

/// A call by name points to the symbol that it is meant for, and to nothing exactly
/// where no symbol bears the name.
pub proof fn law_calls_point_to_what_they_mean(edge: EdgeView, all: Seq<QualifiedView>)
    ensures
        edge.to matches TargetView::Resolved(q) ==> graph::target_of(edge, all) == Some(q),
        edge.to matches TargetView::Unresolved { name, .. } ==> match graph::target_of(edge, all) {
            Some(to) => exists|i: int|
                #[trigger] is_meant(all, name, edge.from.file, i) && all[i] == to,
            None => forall|i: int| 0 <= i < all.len() ==> (#[trigger] all[i]).name != name,
        },
{
    if let TargetView::Unresolved { name, import_path, qualifier } = edge.to {
        let file = edge.from.file;
        let c = graph::named(all, name);
        let k = lemma_first_at(c, file);
        if graph::first_in_file(c, file) is Some {
            let i = lemma_named_at(all, name, k);
            assert(is_meant(all, name, file, i)) by {
                assert forall|j: int| 0 <= j < i implies !((#[trigger] all[j]).name == name
                    && all[j].file == file) by {
                    if all[j].name == name && all[j].file == file {
                        assert(all.take(i)[j] == all[j]);
                        lemma_named_has(all.take(i), name, j);
                        let n = choose|n: int|
                            0 <= n < c.take(k).len() && c.take(k)[n] == all[j];
                        assert(c[n].file != file);
                    }
                }
            }
        } else if c.len() > 0 {
            let i = lemma_named_at(all, name, 0);
            assert(is_meant(all, name, file, i)) by {
                assert forall|j: int| 0 <= j < all.len() implies !((#[trigger] all[j]).name == name
                    && all[j].file == file) by {
                    if all[j].name == name {
                        lemma_named_has(all, name, j);
                        let n = choose|n: int| 0 <= n < c.len() && c[n] == all[j];
                        assert(c[n].file != file);
                    }
                }
                assert forall|j: int| 0 <= j < i implies (#[trigger] all[j]).name != name by {
                    if all[j].name == name {
                        assert(all.take(i)[j] == all[j]);
                        lemma_named_has(all.take(i), name, j);
                        assert(c.take(0) =~= Seq::empty());
                    }
                }
            }
        } else {
            assert forall|i: int| 0 <= i < all.len() implies (#[trigger] all[i]).name != name by {
                if all[i].name == name {
                    lemma_named_has(all, name, i);
                }
            }
        }
    }
}

/// Resolving keeps every edge that points to something, in order, with its start,
/// its kind and its line.
pub proof fn law_resolved_edges_keep_everything(edges: Seq<EdgeView>, all: Seq<QualifiedView>)
    ensures
        graph::resolved(edges, all) == edges.filter_map(
            |e: EdgeView|
                match graph::target_of(e, all) {
                    Some(to) => Some(
                        ResolvedView { from: e.from, to, kind: e.kind, line: e.line },
                    ),
                    None => None,
                },
        ),
    decreases edges.len(),
{
    reveal(Seq::filter_map);
    let f = |e: EdgeView|
        match graph::target_of(e, all) {
            Some(to) => Some(ResolvedView { from: e.from, to, kind: e.kind, line: e.line }),
            None => None,
        };
    if edges.len() > 0 {
        law_resolved_edges_keep_everything(edges.drop_last(), all);
    }
    assert(graph::resolved(edges, all) =~= edges.filter_map(f));
}

// ─── Changes ───

/// The paths of the changes of either sort are the paths of all of them, in order.
pub proof fn law_changes_are_split(changes: Seq<ChangeView>)
    ensures
        pipeline::paths_of(changes, true) == changes.filter(
            |c: ChangeView| c.kind == ChangeKind::Deleted,
        ).map_values(|c: ChangeView| c.path),
        pipeline::paths_of(changes, false) == changes.filter(
            |c: ChangeView| c.kind == ChangeKind::Added || c.kind == ChangeKind::Modified,
        ).map_values(|c: ChangeView| c.path),
    decreases changes.len(),
{
    reveal(Seq::filter);
    let gone = |c: ChangeView| c.kind == ChangeKind::Deleted;
    let kept = |c: ChangeView| c.kind == ChangeKind::Added || c.kind == ChangeKind::Modified;
    let path = |c: ChangeView| c.path;
    if changes.len() > 0 {
        law_changes_are_split(changes.drop_last());
    }
    assert(pipeline::paths_of(changes, true) =~= changes.filter(gone).map_values(path));
    assert(pipeline::paths_of(changes, false) =~= changes.filter(kept).map_values(path));
}

/// Everything is indexed exactly where nothing is stored or it is forced; with
/// changes given, exactly they are indexed, and without any there is nothing to
/// do; with none given they are looked for.
pub proof fn law_first_step(stored_files: nat, force_rebuild: bool, given: Option<nat>)
    ensures
        ({
            let step = pipeline::first_step_of(stored_files, force_rebuild, given);
            &&& step == RunStep::FullRebuild <==> stored_files == 0 || force_rebuild
            &&& step != RunStep::FullRebuild ==> {
                &&& step == RunStep::DetectChanges <==> given is None
                &&& step == RunStep::Done <==> given == Some(0nat)
                &&& step == RunStep::Incremental <==> (given matches Some(n) && n > 0)
            }
        }),
{
}

// ─── What was found ───

/// What was found in several files is what was found in each, one file after the
/// other, with nothing between.
pub proof fn law_results_are_put_together(results: Seq<ParseResult>)
    ensures
        pipeline::symbols_of(results) == results.map_values(
            |r: ParseResult| crate::parsing::symbols::symbol_views(r.symbols@),
        ).flatten(),
        pipeline::edges_of(results) == results.map_values(
            |r: ParseResult| crate::parsing::relations::edge_views(r.edges@),
        ).flatten(),
        pipeline::chunks_of(results) == results.map_values(
            |r: ParseResult| crate::parsing::chunker::chunk_views(r.chunks@),
        ).flatten(),
    decreases results.len(),
{
    let s = |r: ParseResult| crate::parsing::symbols::symbol_views(r.symbols@);
    let e = |r: ParseResult| crate::parsing::relations::edge_views(r.edges@);
    let c = |r: ParseResult| crate::parsing::chunker::chunk_views(r.chunks@);
    results.map_values(s).lemma_flatten_and_flatten_alt_are_equivalent();
    results.map_values(e).lemma_flatten_and_flatten_alt_are_equivalent();
    results.map_values(c).lemma_flatten_and_flatten_alt_are_equivalent();
    if results.len() > 0 {
        let front = results.drop_last();
        law_results_are_put_together(front);
        front.map_values(s).lemma_flatten_and_flatten_alt_are_equivalent();
        front.map_values(e).lemma_flatten_and_flatten_alt_are_equivalent();
        front.map_values(c).lemma_flatten_and_flatten_alt_are_equivalent();
        assert(results.map_values(s).drop_last() =~= front.map_values(s));
        assert(results.map_values(e).drop_last() =~= front.map_values(e));
        assert(results.map_values(c).drop_last() =~= front.map_values(c));
    }
    assert(pipeline::symbols_of(results) =~= results.map_values(s).flatten_alt());
    assert(pipeline::edges_of(results) =~= results.map_values(e).flatten_alt());
    assert(pipeline::chunks_of(results) =~= results.map_values(c).flatten_alt());
}

/// Every chunk has one row, in its place, with its file, its lines, its whole
/// content, the embedding of the same number where one came back, and a
/// reference that is read as its symbol.
pub proof fn law_every_chunk_has_its_row(chunks: Seq<ChunkView>, embeddings: nat, i: int)
    requires
        0 <= i < chunks.len() <= usize::MAX,
    ensures
        ({
            let rows = pipeline::rows_of(chunks, embeddings);
            let row = rows[i];
            &&& rows.len() == chunks.len()
            &&& row.file == chunks[i].file
            &&& row.line_start == chunks[i].line_start
            &&& row.line_end == chunks[i].line_end
            &&& row.content == chunks[i].content
            &&& i < embeddings ==> (row.embedding matches Some(n) && n == i)
            &&& i >= embeddings ==> row.embedding is None
            &&& chunks[i].symbol_ref matches Some(fqn) ==> (row.symbol_ref matches Some(s)
                && crate::store::referred(s) == Some(fqn))
            &&& chunks[i].symbol_ref is None ==> row.symbol_ref is None
        }),
{
    if let Some(fqn) = chunks[i].symbol_ref {
        crate::store::law_symbol_ref_round_trip(fqn);
    }
}

// ─── Statements ───

/// Escaping works character by character: it puts a backslash before a backslash
/// and before a single quote, and leaves everything else as it is.
pub proof fn law_escaping_is_by_character(a: Seq<char>, b: Seq<char>, c: char)
    ensures
        statements::escaped(a + b) == statements::escaped(a) + statements::escaped(b),
        c != '\\' && c != '\'' ==> statements::escaped(seq![c]) == seq![c],
        c == '\\' || c == '\'' ==> statements::escaped(seq![c]) == seq!['\\', c],
    decreases b.len(),
{
    reveal_with_fuel(statements::escaped, 2);
    let one = seq![c];
    assert(one.drop_last() =~= Seq::empty());
    assert(statements::escaped(one) =~= if c == '\\' || c == '\'' {
        seq!['\\', c]
    } else {
        seq![c]
    });
    if b.len() == 0 {
        assert(a + b =~= a);
        assert(statements::escaped(a) + statements::escaped(b) =~= statements::escaped(a));
    } else {
        let front = b.drop_last();
        law_escaping_is_by_character(a, front, c);
        assert((a + b).drop_last() =~= a + front);
        assert((a + b).last() == b.last());
        assert(statements::escaped(a + b) =~= statements::escaped(a) + statements::escaped(b));
    }
}

/// Each kind of symbol is written as its own word, and each kind of edge in its
/// own table.
pub proof fn law_kinds_are_told_apart(a: SymbolKind, b: SymbolKind, c: EdgeKind, d: EdgeKind)
    ensures
        a != b ==> statements::kind_name(a) != statements::kind_name(b),
        c != d ==> statements::edge_table(c) != statements::edge_table(d),
{
    reveal_strlit("function");
    reveal_strlit("method");
    reveal_strlit("class");
    reveal_strlit("struct");
    reveal_strlit("trait");
    reveal_strlit("impl");
    reveal_strlit("module");
    reveal_strlit("interface");
    reveal_strlit("calls");
    reveal_strlit("uses");
    reveal_strlit("imports");
    reveal_strlit("contains");
    reveal_strlit("implements");
    assert("function"@.len() == 8);
    assert("method"@[1] == 'e' && "method"@.len() == 6);
    assert("class"@[0] == 'c' && "class"@.len() == 5);
    assert("struct"@[0] == 's' && "struct"@.len() == 6);
    assert("trait"@[0] == 't' && "trait"@.len() == 5);
    assert("impl"@.len() == 4);
    assert("module"@[1] == 'o' && "module"@[0] == 'm' && "method"@[0] == 'm' && "module"@.len()
        == 6);
    assert("interface"@.len() == 9);
    assert("calls"@.len() == 5);
    assert("uses"@.len() == 4);
    assert("imports"@.len() == 7);
    assert("contains"@.len() == 8);
    assert("implements"@.len() == 10);
}

/// Statements are written one behind the other, whatever was written before.
pub proof fn law_statements_follow_each_other(
    txn: Seq<char>,
    sym: SymbolView,
    e: ResolvedView,
    a: Seq<SymbolView>,
    b: Seq<SymbolView>,
    c: Seq<ResolvedView>,
    d: Seq<ResolvedView>,
)
    ensures
        statements::with_upsert(txn, sym) == txn + statements::with_upsert(Seq::empty(), sym),
        statements::with_relate(txn, e.from, e.to, e.kind, e.line) == txn + statements::with_relate(
            Seq::empty(),
            e.from,
            e.to,
            e.kind,
            e.line,
        ),
        statements::upserts(a + b) == statements::upserts(a) + statements::upserts(b),
        statements::relates(c + d) == statements::relates(c) + statements::relates(d),
{
    lemma_upsert_behind(txn, sym);
    lemma_relate_behind(txn, e.from, e.to, e.kind, e.line);
    lemma_upserts_add(a, b);
    lemma_relates_add(c, d);
}

proof fn lemma_two(x: Seq<char>, a: Seq<char>, b: Seq<char>)
    ensures
        x + a + b == x + (a + b),
{
    assert(x + a + b =~= x + (a + b));
}

/// All parts behind one another.
spec fn chained(x: Seq<char>, parts: Seq<Seq<char>>) -> Seq<char>
    decreases parts.len(),
{
    if parts.len() == 0 {
        x
    } else {
        chained(x, parts.drop_last()) + parts.last()
    }
}

proof fn lemma_chained_behind(x: Seq<char>, parts: Seq<Seq<char>>)
    ensures
        chained(x, parts) == x + chained(Seq::empty(), parts),
    decreases parts.len(),
{
    if parts.len() == 0 {
        assert(x + Seq::<char>::empty() =~= x);
    } else {
        lemma_chained_behind(x, parts.drop_last());
        lemma_two(x, chained(Seq::empty(), parts.drop_last()), parts.last());
    }
}

proof fn lemma_chained_shows(x: Seq<char>, parts: Seq<Seq<char>>, i: int)
    requires
        0 <= i < parts.len() - 2,
    ensures
        crate::text::shows(chained(x, parts), parts[i] + parts[i + 1] + parts[i + 2]),
    decreases parts.len(),
{
    let three = parts[i] + parts[i + 1] + parts[i + 2];
    let front = parts.drop_last();
    let before = chained(x, front);
    if i < parts.len() - 3 {
        lemma_chained_shows(x, front, i);
        let none = Seq::<char>::empty();
        assert(before + parts.last() =~= none + before + parts.last());
        crate::text::lemma_shows(none, before, parts.last());
        crate::text::lemma_shows_trans(chained(x, parts), before, three);
    } else {
        let two = front.drop_last();
        let one = two.drop_last();
        assert(front.last() == parts[i + 1]);
        assert(two.last() == parts[i]);
        let y = chained(x, one);
        assert(chained(x, two) == y + parts[i]);
        assert(before == chained(x, two) + parts[i + 1]);
        assert(chained(x, parts) == y + parts[i] + parts[i + 1] + parts[i + 2]);
        assert(chained(x, parts) =~= y + three + Seq::empty());
        crate::text::lemma_shows(y, three, Seq::empty());
    }
}

spec fn upsert_parts(sym: SymbolView) -> Seq<Seq<char>> {
    seq![
        "UPSERT symbol:`⟨"@,
        statements::escaped(crate::parsing::symbols::fqn_of(sym.qualified)),
        "⟩` SET name = '"@,
        statements::escaped(sym.qualified.name),
        "', kind = '"@,
        statements::kind_name(sym.kind),
        "', file = '"@,
        statements::escaped(sym.qualified.file),
        "', line_start = "@,
        crate::text::decimal_of(sym.line_start as nat),
        ", line_end = "@,
        crate::text::decimal_of(sym.line_end as nat),
        ", signature = "@,
        statements::signature_literal(sym.signature),
        ", parent = "@,
        statements::parent_literal(sym.parent_fqn),
        ";\n"@,
    ]
}

proof fn lemma_chain_step(x: Seq<char>, parts: Seq<Seq<char>>, n: int)
    requires
        0 <= n < parts.len(),
    ensures
        chained(x, parts.take(n + 1)) == chained(x, parts.take(n)) + parts[n],
{
    assert(parts.take(n + 1).drop_last() =~= parts.take(n));
}

proof fn lemma_upsert_parts(txn: Seq<char>, sym: SymbolView)
    ensures
        statements::with_upsert(txn, sym) == chained(txn, upsert_parts(sym)),
{
    let p = upsert_parts(sym);
    assert(p.take(0) =~= Seq::empty());
    lemma_chain_step(txn, p, 0);
    lemma_chain_step(txn, p, 1);
    lemma_chain_step(txn, p, 2);
    lemma_chain_step(txn, p, 3);
    lemma_chain_step(txn, p, 4);
    lemma_chain_step(txn, p, 5);
    lemma_chain_step(txn, p, 6);
    lemma_chain_step(txn, p, 7);
    lemma_chain_step(txn, p, 8);
    lemma_chain_step(txn, p, 9);
    lemma_chain_step(txn, p, 10);
    lemma_chain_step(txn, p, 11);
    lemma_chain_step(txn, p, 12);
    lemma_chain_step(txn, p, 13);
    lemma_chain_step(txn, p, 14);
    lemma_chain_step(txn, p, 15);
    lemma_chain_step(txn, p, 16);
    assert(p.take(17) =~= p);
}

proof fn lemma_upsert_behind(txn: Seq<char>, sym: SymbolView)
    ensures
        statements::with_upsert(txn, sym) == txn + statements::with_upsert(Seq::empty(), sym),
{
    lemma_upsert_parts(txn, sym);
    lemma_upsert_parts(Seq::empty(), sym);
    lemma_chained_behind(txn, upsert_parts(sym));
}

spec fn relate_parts(
    from: QualifiedView,
    to: QualifiedView,
    kind: EdgeKind,
    line: u32,
) -> Seq<Seq<char>> {
    let start = seq![
        "RELATE symbol:`⟨"@,
        statements::escaped(crate::parsing::symbols::fqn_of(from)),
        "⟩`->"@,
        statements::edge_table(kind),
        "->symbol:`⟨"@,
        statements::escaped(crate::parsing::symbols::fqn_of(to)),
        "⟩` SET "@,
    ];
    let middle = if kind == EdgeKind::Calls {
        start + seq!["line = "@, crate::text::decimal_of(line as nat), ", "@]
    } else {
        start
    };
    middle + seq![
        "in_file = '"@,
        statements::escaped(from.file),
        "', out_file = '"@,
        statements::escaped(to.file),
        "';\n"@,
    ]
}

proof fn lemma_relate_parts(
    txn: Seq<char>,
    from: QualifiedView,
    to: QualifiedView,
    kind: EdgeKind,
    line: u32,
)
    ensures
        statements::with_relate(txn, from, to, kind, line) == chained(
            txn,
            relate_parts(from, to, kind, line),
        ),
{
    let p = relate_parts(from, to, kind, line);
    assert(p.take(0) =~= Seq::empty());
    lemma_chain_step(txn, p, 0);
    lemma_chain_step(txn, p, 1);
    lemma_chain_step(txn, p, 2);
    lemma_chain_step(txn, p, 3);
    lemma_chain_step(txn, p, 4);
    lemma_chain_step(txn, p, 5);
    lemma_chain_step(txn, p, 6);
    lemma_chain_step(txn, p, 7);
    lemma_chain_step(txn, p, 8);
    lemma_chain_step(txn, p, 9);
    lemma_chain_step(txn, p, 10);
    lemma_chain_step(txn, p, 11);
    if kind == EdgeKind::Calls {
        lemma_chain_step(txn, p, 12);
        lemma_chain_step(txn, p, 13);
        lemma_chain_step(txn, p, 14);
        assert(p.take(15) =~= p);
    } else {
        assert(p.take(12) =~= p);
    }
}

proof fn lemma_relate_behind(
    txn: Seq<char>,
    from: QualifiedView,
    to: QualifiedView,
    kind: EdgeKind,
    line: u32,
)
    ensures
        statements::with_relate(txn, from, to, kind, line) == txn + statements::with_relate(
            Seq::empty(),
            from,
            to,
            kind,
            line,
        ),
{
    lemma_relate_parts(txn, from, to, kind, line);
    lemma_relate_parts(Seq::empty(), from, to, kind, line);
    lemma_chained_behind(txn, relate_parts(from, to, kind, line));
}

proof fn lemma_upserts_add(a: Seq<SymbolView>, b: Seq<SymbolView>)
    ensures
        statements::upserts(a + b) == statements::upserts(a) + statements::upserts(b),
    decreases b.len(),
{
    if b.len() == 0 {
        assert(a + b =~= a);
        assert(statements::upserts(a) + statements::upserts(b) =~= statements::upserts(a));
    } else {
        let front = b.drop_last();
        lemma_upserts_add(a, front);
        assert((a + b).drop_last() =~= a + front);
        assert((a + b).last() == b.last());
        lemma_upsert_behind(statements::upserts(a + front), b.last());
        lemma_upsert_behind(statements::upserts(front), b.last());
        lemma_two(
            statements::upserts(a),
            statements::upserts(front),
            statements::with_upsert(Seq::empty(), b.last()),
        );
    }
}

proof fn lemma_relates_add(a: Seq<ResolvedView>, b: Seq<ResolvedView>)
    ensures
        statements::relates(a + b) == statements::relates(a) + statements::relates(b),
    decreases b.len(),
{
    if b.len() == 0 {
        assert(a + b =~= a);
        assert(statements::relates(a) + statements::relates(b) =~= statements::relates(a));
    } else {
        let front = b.drop_last();
        let e = b.last();
        lemma_relates_add(a, front);
        assert((a + b).drop_last() =~= a + front);
        assert((a + b).last() == e);
        lemma_relate_behind(statements::relates(a + front), e.from, e.to, e.kind, e.line);
        lemma_relate_behind(statements::relates(front), e.from, e.to, e.kind, e.line);
        lemma_two(
            statements::relates(a),
            statements::relates(front),
            statements::with_relate(Seq::empty(), e.from, e.to, e.kind, e.line),
        );
    }
}

/// The statement for a symbol shows all of it: its qualified name, its name, its
/// kind, its file, its lines, its signature and its parent.
pub proof fn law_statements_show_the_symbol(txn: Seq<char>, sym: SymbolView)
    ensures
        ({
            let text = statements::with_upsert(txn, sym);
            &&& crate::text::shows(
                text,
                "UPSERT symbol:`⟨"@ + statements::escaped(
                    crate::parsing::symbols::fqn_of(sym.qualified),
                ) + "⟩` SET name = '"@,
            )
            &&& crate::text::shows(
                text,
                "⟩` SET name = '"@ + statements::escaped(sym.qualified.name) + "', kind = '"@,
            )
            &&& crate::text::shows(
                text,
                "', kind = '"@ + statements::kind_name(sym.kind) + "', file = '"@,
            )
            &&& crate::text::shows(
                text,
                "', file = '"@ + statements::escaped(sym.qualified.file) + "', line_start = "@,
            )
            &&& crate::text::shows(
                text,
                "', line_start = "@ + crate::text::decimal_of(sym.line_start as nat)
                    + ", line_end = "@,
            )
            &&& crate::text::shows(
                text,
                ", line_end = "@ + crate::text::decimal_of(sym.line_end as nat)
                    + ", signature = "@,
            )
            &&& crate::text::shows(
                text,
                ", signature = "@ + (match sym.signature {
                    Some(s) => "'"@ + statements::escaped(s) + "'"@,
                    None => "NONE"@,
                }) + ", parent = "@,
            )
            &&& crate::text::shows(
                text,
                ", parent = "@ + (match sym.parent_fqn {
                    Some(s) => "'symbol:⟨"@ + statements::escaped(s) + "⟩'"@,
                    None => "NONE"@,
                }) + ";\n"@,
            )
        }),
{
    let p = upsert_parts(sym);
    lemma_upsert_parts(txn, sym);
    lemma_chained_shows(txn, p, 0);
    lemma_chained_shows(txn, p, 2);
    lemma_chained_shows(txn, p, 4);
    lemma_chained_shows(txn, p, 6);
    lemma_chained_shows(txn, p, 8);
    lemma_chained_shows(txn, p, 10);
    lemma_chained_shows(txn, p, 12);
    lemma_chained_shows(txn, p, 14);
}

/// The statement for an edge shows all of it: both ends, the table of its kind,
/// both files, and for a call its line.
pub proof fn law_statements_show_the_edge(txn: Seq<char>, e: ResolvedView)
    ensures
        ({
            let text = statements::with_relate(txn, e.from, e.to, e.kind, e.line);
            &&& crate::text::shows(
                text,
                "RELATE symbol:`⟨"@ + statements::escaped(
                    crate::parsing::symbols::fqn_of(e.from),
                ) + "⟩`->"@,
            )
            &&& crate::text::shows(
                text,
                "⟩`->"@ + statements::edge_table(e.kind) + "->symbol:`⟨"@,
            )
            &&& crate::text::shows(
                text,
                "->symbol:`⟨"@ + statements::escaped(crate::parsing::symbols::fqn_of(e.to))
                    + "⟩` SET "@,
            )
            &&& e.kind == EdgeKind::Calls ==> crate::text::shows(
                text,
                "line = "@ + crate::text::decimal_of(e.line as nat) + ", "@,
            )
            &&& crate::text::shows(
                text,
                "in_file = '"@ + statements::escaped(e.from.file) + "', out_file = '"@,
            )
            &&& crate::text::shows(
                text,
                "', out_file = '"@ + statements::escaped(e.to.file) + "';\n"@,
            )
        }),
{
    let p = relate_parts(e.from, e.to, e.kind, e.line);
    lemma_relate_parts(txn, e.from, e.to, e.kind, e.line);
    lemma_chained_shows(txn, p, 0);
    lemma_chained_shows(txn, p, 2);
    lemma_chained_shows(txn, p, 4);
    if e.kind == EdgeKind::Calls {
        lemma_chained_shows(txn, p, 7);
        lemma_chained_shows(txn, p, 10);
        lemma_chained_shows(txn, p, 12);
    } else {
        lemma_chained_shows(txn, p, 7);
        lemma_chained_shows(txn, p, 9);
    }
}

// ─── Batches ───

/// The batches put together are the list: nothing is left out and nothing comes
/// twice.
pub proof fn law_batches_are_the_list<A>(s: Seq<A>)
    ensures
        Seq::new(statements::batch_count(s.len()), |k: int| statements::batch(s, k)).flatten() == s,
{
    let n = statements::batch_count(s.len());
    let all = Seq::new(n, |k: int| statements::batch(s, k));
    lemma_first_batches(s, n as int);
    all.lemma_flatten_and_flatten_alt_are_equivalent();
    assert(all.take(n as int) =~= all);
    let end = n * 512;
    assert(end >= s.len());
    assert(s.take(s.len() as int) =~= s);
}

proof fn lemma_first_batches<A>(s: Seq<A>, k: int)
    requires
        0 <= k <= statements::batch_count(s.len()),
    ensures
        Seq::new(
            statements::batch_count(s.len()),
            |k: int| statements::batch(s, k),
        ).take(k).flatten_alt() == s.take(
            if k * 512 <= s.len() {
                k * 512
            } else {
                s.len() as int
            },
        ),
    decreases k,
{
    let all = Seq::new(statements::batch_count(s.len()), |k: int| statements::batch(s, k));
    let part = all.take(k);
    if k == 0 {
        assert(part.flatten_alt() =~= s.take(0));
    } else {
        lemma_first_batches(s, k - 1);
        assert(part.drop_last() =~= all.take(k - 1));
        assert(part.last() == statements::batch(s, k - 1));
        assert((k - 1) * 512 <= s.len());
        let end = if k * 512 <= s.len() {
            k * 512
        } else {
            s.len() as int
        };
        assert(part.flatten_alt() =~= s.take(end));
    }
}

proof fn lemma_batch_split<A>(s: Seq<A>, i: int)
    requires
        0 <= i < s.len(),
    ensures
        ({
            let b = statements::batch(s, i / 512);
            &&& 0 <= i / 512 < statements::batch_count(s.len())
            &&& 0 <= i % 512 < b.len()
            &&& b == b.take(i % 512) + seq![s[i]] + b.skip(i % 512 + 1)
        }),
{
    statements::law_batches_hold_everything(s, i);
    let b = statements::batch(s, i / 512);
    assert(b =~= b.take(i % 512) + seq![s[i]] + b.skip(i % 512 + 1));
}

/// Among the writes is one of symbols that holds the statement for this one.
pub open spec fn writes_symbol(steps: Seq<StepView>, s: SymbolView) -> bool {
    exists|k: int|
        0 <= k < steps.len() && (#[trigger] steps[k] matches StepView::Symbols(q)
            && crate::text::shows(q, statements::with_upsert(Seq::empty(), s)))
}

pub open spec fn writes_edge(steps: Seq<StepView>, e: ResolvedView) -> bool {
    exists|k: int|
        0 <= k < steps.len() && (#[trigger] steps[k] matches StepView::Edges(q)
            && crate::text::shows(
            q,
            statements::with_relate(Seq::empty(), e.from, e.to, e.kind, e.line),
        ))
}

pub open spec fn writes_row(steps: Seq<StepView>, row: ChunkRowView) -> bool {
    exists|k: int|
        0 <= k < steps.len() && (#[trigger] steps[k] matches StepView::Chunks(rows)
            && rows.contains(row))
}

/// Nothing that is to be stored is left out of the writes: not a symbol, an edge, a
/// chunk or a file.
pub proof fn law_everything_is_written(
    repo: Seq<char>,
    symbols: Seq<SymbolView>,
    edges: Seq<ResolvedView>,
    rows: Seq<ChunkRowView>,
    stats: Seq<FileStat>,
    i: int,
)
    ensures
        ({
            let steps = write_plan::insert_plan(repo, symbols, edges, rows, stats);
            &&& 0 <= i < symbols.len() ==> writes_symbol(steps, symbols[i])
            &&& 0 <= i < edges.len() ==> writes_edge(steps, edges[i])
            &&& 0 <= i < rows.len() ==> writes_row(steps, rows[i])
            &&& 0 <= i < stats.len() ==> exists|k: int|
                0 <= k < steps.len() && (#[trigger] steps[k] matches StepView::Meta(m) && m.path
                    == stats[i].path@ && m.mtime == stats[i].mtime && m.size == stats[i].size
                    && m.repo == repo)
        }),
{
    let steps = write_plan::insert_plan(repo, symbols, edges, rows, stats);
    let a = write_plan::symbol_steps(symbols);
    let b = write_plan::edge_steps(edges);
    let c = write_plan::chunk_steps(rows);
    let d = write_plan::meta_steps(stats, repo);
    let none = Seq::<char>::empty();
    if 0 <= i < symbols.len() {
        lemma_batch_split(symbols, i);
        let s = statements::batch(symbols, i / 512);
        let (x, y) = (s.take(i % 512), s.skip(i % 512 + 1));
        let one = seq![symbols[i]];
        lemma_upserts_add(x + one, y);
        lemma_upserts_add(x, one);
        assert(one.drop_last() =~= Seq::empty());
        assert(one.last() == symbols[i]);
        assert(statements::upserts(one.drop_last()) =~= none);
        crate::text::lemma_shows(
            statements::upserts(x),
            statements::with_upsert(none, symbols[i]),
            statements::upserts(y),
        );
        assert(steps[i / 512] == a[i / 512]);
        assert(writes_symbol(steps, symbols[i]));
    }
    if 0 <= i < edges.len() {
        lemma_batch_split(edges, i);
        let e = edges[i];
        let s = statements::batch(edges, i / 512);
        let (x, y) = (s.take(i % 512), s.skip(i % 512 + 1));
        let one = seq![e];
        lemma_relates_add(x + one, y);
        lemma_relates_add(x, one);
        assert(one.drop_last() =~= Seq::empty());
        assert(one.last() == e);
        assert(statements::relates(one.drop_last()) =~= none);
        crate::text::lemma_shows(
            statements::relates(x),
            statements::with_relate(none, e.from, e.to, e.kind, e.line),
            statements::relates(y),
        );
        assert(steps[a.len() + i / 512] == b[i / 512]);
        assert(writes_edge(steps, e));
    }
    if 0 <= i < rows.len() {
        statements::law_batches_hold_everything(rows, i);
        let s = statements::batch(rows, i / 512);
        assert(s[i % 512] == rows[i]);
        assert(s.contains(rows[i]));
        assert(steps[a.len() + b.len() + i / 512] == c[i / 512]);
        assert(writes_row(steps, rows[i]));
    }
    if 0 <= i < stats.len() {
        assert(steps[a.len() + b.len() + c.len() + i] == d[i]);
    }
}

/// A rebuild deletes everything first; an incremental run deletes what is stored of
/// every affected file first, and forgets every file that is gone, by its path,
/// last. Between the two stands all that is to be stored.
pub proof fn law_old_data_goes_first(
    repo: Seq<char>,
    found: pipeline::Collected,
    stored: Seq<QualifiedView>,
    embeddings: nat,
    stats: Seq<FileStat>,
    affected: Seq<Seq<char>>,
    gone: Seq<Seq<char>>,
)
    ensures
        ({
            let steps = write_plan::full_rebuild_of(repo, found, embeddings, stats);
            &&& steps.len() > 0
            &&& steps[0] is DeleteAll
        }),
        ({
            let steps = write_plan::incremental_of(
                repo,
                gone,
                affected,
                found,
                stored,
                embeddings,
                stats,
            );
            let n = steps.len() - gone.len();
            &&& affected.len() <= n
            &&& forall|i: int|
                0 <= i < affected.len() ==> #[trigger] steps[i] == StepView::DeleteFile(affected[i])
            &&& forall|i: int|
                0 <= i < gone.len() ==> #[trigger] steps[n + i] == StepView::DropMeta(
                    "DELETE FROM file_meta WHERE path = '"@ + statements::escaped(gone[i]) + "'"@,
                )
            &&& forall|i: int|
                affected.len() <= i < n ==> (#[trigger] steps[i]) is Symbols || steps[i] is Edges
                    || steps[i] is Chunks || steps[i] is Meta
        }),
{
    let symbols = crate::parsing::symbols::symbol_views(found.symbols@);
    let edges = graph::resolved(
        crate::parsing::relations::edge_views(found.edges@),
        graph::qualified_of(symbols) + stored,
    );
    let rows = pipeline::rows_of(
        crate::parsing::chunker::chunk_views(found.chunks@),
        embeddings,
    );
    let inserts = write_plan::insert_plan(repo, symbols, edges, rows, stats);
    let steps = write_plan::incremental_of(repo, gone, affected, found, stored, embeddings, stats);
    let n = steps.len() - gone.len();
    let a = write_plan::delete_steps(affected);
    let c = write_plan::drop_steps(gone);
    assert(steps == a + inserts + c);
    assert forall|i: int| 0 <= i < gone.len() implies #[trigger] steps[n + i]
        == StepView::DropMeta(
        "DELETE FROM file_meta WHERE path = '"@ + statements::escaped(gone[i]) + "'"@,
    ) by {
        assert(steps[n + i] == c[i]);
    }
    assert forall|i: int| affected.len() <= i < n implies (#[trigger] steps[i]) is Symbols
        || steps[i] is Edges || steps[i] is Chunks || steps[i] is Meta by {
        let k = i - affected.len();
        assert(steps[i] == inserts[k]);
        let s = write_plan::symbol_steps(symbols);
        let e = write_plan::edge_steps(edges);
        let r = write_plan::chunk_steps(rows);
        let m = write_plan::meta_steps(stats, repo);
        if k < s.len() {
            assert(inserts[k] == s[k]);
        } else if k < s.len() + e.len() {
            assert(inserts[k] == e[k - s.len()]);
        } else if k < s.len() + e.len() + r.len() {
            assert(inserts[k] == r[k - s.len() - e.len()]);
        } else {
            assert(inserts[k] == m[k - s.len() - e.len() - r.len()]);
        }
    }
}

/// The words for the kinds.
pub proof fn law_kinds_are_written_as_they_are_called()
    ensures
        statements::kind_name(SymbolKind::Function) == "function"@,
        statements::kind_name(SymbolKind::Method) == "method"@,
        statements::kind_name(SymbolKind::Class) == "class"@,
        statements::kind_name(SymbolKind::Struct) == "struct"@,
        statements::kind_name(SymbolKind::Trait) == "trait"@,
        statements::kind_name(SymbolKind::Impl) == "impl"@,
        statements::kind_name(SymbolKind::Module) == "module"@,
        statements::kind_name(SymbolKind::Interface) == "interface"@,
        statements::edge_table(EdgeKind::Calls) == "calls"@,
        statements::edge_table(EdgeKind::Uses) == "uses"@,
        statements::edge_table(EdgeKind::Imports) == "imports"@,
        statements::edge_table(EdgeKind::Contains) == "contains"@,
        statements::edge_table(EdgeKind::Implements) == "implements"@,
{
}

proof fn lemma_filter_map_add<A, B>(a: Seq<A>, b: Seq<A>, f: spec_fn(A) -> Option<B>)
    ensures
        (a + b).filter_map(f) == a.filter_map(f) + b.filter_map(f),
    decreases b.len(),
{
    reveal(Seq::filter_map);
    if b.len() == 0 {
        assert(a + b =~= a);
        assert(b.filter_map(f) =~= Seq::empty());
        assert(a.filter_map(f) + b.filter_map(f) =~= a.filter_map(f));
    } else {
        let front = b.drop_last();
        lemma_filter_map_add(a, front, f);
        assert((a + b).drop_last() =~= a + front);
        assert((a + b).last() == b.last());
        assert((a + b).filter_map(f) =~= a.filter_map(f) + b.filter_map(f));
    }
}

proof fn lemma_filter_map_all<A, B>(all: Seq<A>, f: spec_fn(A) -> Option<B>, out: Seq<B>)
    requires
        out.len() == all.len(),
        forall|i: int| 0 <= i < all.len() ==> f(#[trigger] all[i]) == Some(out[i]),
    ensures
        all.filter_map(f) == out,
    decreases all.len(),
{
    reveal(Seq::filter_map);
    if all.len() > 0 {
        let front = all.drop_last();
        assert forall|i: int| 0 <= i < front.len() implies f(#[trigger] front[i]) == Some(
            out.drop_last()[i],
        ) by {
            assert(front[i] == all[i]);
        }
        lemma_filter_map_all(front, f, out.drop_last());
        assert(f(all[all.len() - 1]) == Some(out[all.len() - 1]));
        assert(all.filter_map(f) =~= out);
    } else {
        assert(all.filter_map(f) =~= out);
    }
}

proof fn lemma_filter_map_none<A, B>(all: Seq<A>, f: spec_fn(A) -> Option<B>)
    requires
        forall|i: int| 0 <= i < all.len() ==> f(#[trigger] all[i]) is None,
    ensures
        all.filter_map(f) == Seq::<B>::empty(),
    decreases all.len(),
{
    reveal(Seq::filter_map);
    if all.len() > 0 {
        let front = all.drop_last();
        assert forall|i: int| 0 <= i < front.len() implies f(#[trigger] front[i]) is None by {
            assert(front[i] == all[i]);
        }
        lemma_filter_map_none(front, f);
        assert(f(all[all.len() - 1]) is None);
    }
    assert(all.filter_map(f) =~= Seq::empty());
}

/// What a write says of symbols, edges, chunks or a file.
pub open spec fn symbols_in(step: StepView) -> Option<Seq<char>> {
    match step {
        StepView::Symbols(q) => Some(q),
        _ => None,
    }
}

pub open spec fn edges_in(step: StepView) -> Option<Seq<char>> {
    match step {
        StepView::Edges(q) => Some(q),
        _ => None,
    }
}

pub open spec fn rows_in(step: StepView) -> Option<Seq<ChunkRowView>> {
    match step {
        StepView::Chunks(rows) => Some(rows),
        _ => None,
    }
}

pub open spec fn meta_in(step: StepView) -> Option<write_plan::MetaView> {
    match step {
        StepView::Meta(m) => Some(m),
        _ => None,
    }
}

proof fn lemma_upserts_flatten(parts: Seq<Seq<SymbolView>>)
    ensures
        parts.map_values(|p: Seq<SymbolView>| statements::upserts(p)).flatten()
            == statements::upserts(parts.flatten()),
    decreases parts.len(),
{
    let f = |p: Seq<SymbolView>| statements::upserts(p);
    let all = parts.map_values(f);
    if parts.len() == 0 {
        assert(all.flatten() =~= Seq::empty());
        assert(parts.flatten() =~= Seq::empty());
    } else {
        let rest = parts.drop_first();
        lemma_upserts_flatten(rest);
        assert(all.drop_first() =~= rest.map_values(f));
        lemma_upserts_add(parts[0], rest.flatten());
    }
}

proof fn lemma_relates_flatten(parts: Seq<Seq<ResolvedView>>)
    ensures
        parts.map_values(|p: Seq<ResolvedView>| statements::relates(p)).flatten()
            == statements::relates(parts.flatten()),
    decreases parts.len(),
{
    let f = |p: Seq<ResolvedView>| statements::relates(p);
    let all = parts.map_values(f);
    if parts.len() == 0 {
        assert(all.flatten() =~= Seq::empty());
        assert(parts.flatten() =~= Seq::empty());
    } else {
        let rest = parts.drop_first();
        lemma_relates_flatten(rest);
        assert(all.drop_first() =~= rest.map_values(f));
        lemma_relates_add(parts[0], rest.flatten());
    }
}

/// Everything is written once and in order: what the writes say of symbols, put
/// together, is the statements for the symbols; what they say of edges, those for
/// the edges; their rows are the rows, and their files the files.
pub proof fn law_everything_is_written_once(
    repo: Seq<char>,
    symbols: Seq<SymbolView>,
    edges: Seq<ResolvedView>,
    rows: Seq<ChunkRowView>,
    stats: Seq<FileStat>,
)
    ensures
        ({
            let steps = write_plan::insert_plan(repo, symbols, edges, rows, stats);
            &&& steps.filter_map(|s: StepView| symbols_in(s)).flatten() == statements::upserts(
                symbols,
            )
            &&& steps.filter_map(|s: StepView| edges_in(s)).flatten() == statements::relates(edges)
            &&& steps.filter_map(|s: StepView| rows_in(s)).flatten() == rows
            &&& steps.filter_map(|s: StepView| meta_in(s)) == Seq::new(
                stats.len(),
                |i: int|
                    (write_plan::MetaView {
                        path: stats[i].path@,
                        mtime: stats[i].mtime,
                        size: stats[i].size,
                        repo,
                    }),
            )
        }),
{
    let a = write_plan::symbol_steps(symbols);
    let b = write_plan::edge_steps(edges);
    let c = write_plan::chunk_steps(rows);
    let d = write_plan::meta_steps(stats, repo);
    let f = |s: StepView| symbols_in(s);
    let g = |s: StepView| edges_in(s);
    let h = |s: StepView| rows_in(s);
    let m = |s: StepView| meta_in(s);
    lemma_filter_map_add(a + b + c, d, f);
    lemma_filter_map_add(a + b, c, f);
    lemma_filter_map_add(a, b, f);
    lemma_filter_map_add(a + b + c, d, g);
    lemma_filter_map_add(a + b, c, g);
    lemma_filter_map_add(a, b, g);
    lemma_filter_map_add(a + b + c, d, h);
    lemma_filter_map_add(a + b, c, h);
    lemma_filter_map_add(a, b, h);
    lemma_filter_map_add(a + b + c, d, m);
    lemma_filter_map_add(a + b, c, m);
    lemma_filter_map_add(a, b, m);
    let p = Seq::new(
        statements::batch_count(symbols.len()),
        |k: int| statements::batch(symbols, k),
    );
    let q = Seq::new(
        statements::batch_count(edges.len()),
        |k: int| statements::batch(edges, k),
    );
    let r = Seq::new(
        statements::batch_count(rows.len()),
        |k: int| statements::batch(rows, k),
    );
    let metas = Seq::new(
        stats.len(),
        |i: int|
            (write_plan::MetaView {
                path: stats[i].path@,
                mtime: stats[i].mtime,
                size: stats[i].size,
                repo,
            }),
    );
    let u = p.map_values(|p: Seq<SymbolView>| statements::upserts(p));
    let v = q.map_values(|p: Seq<ResolvedView>| statements::relates(p));
    lemma_filter_map_all(a, f, u);
    lemma_filter_map_none(b, f);
    lemma_filter_map_none(c, f);
    lemma_filter_map_none(d, f);
    lemma_filter_map_none(a, g);
    lemma_filter_map_all(b, g, v);
    lemma_filter_map_none(c, g);
    lemma_filter_map_none(d, g);
    lemma_filter_map_none(a, h);
    lemma_filter_map_none(b, h);
    lemma_filter_map_all(c, h, r);
    lemma_filter_map_none(d, h);
    lemma_filter_map_none(a, m);
    lemma_filter_map_none(b, m);
    lemma_filter_map_none(c, m);
    lemma_filter_map_all(d, m, metas);
    let steps = write_plan::insert_plan(repo, symbols, edges, rows, stats);
    assert(steps.filter_map(f) =~= u);
    assert(steps.filter_map(g) =~= v);
    assert(steps.filter_map(h) =~= r);
    assert(steps.filter_map(m) =~= metas);
    law_batches_are_the_list(symbols);
    law_batches_are_the_list(edges);
    law_batches_are_the_list(rows);
    lemma_upserts_flatten(p);
    lemma_relates_flatten(q);
}

/// A write that fails is told in words of its own; a batch of chunks that is not
/// full is told to be the last.
pub proof fn law_failed_writes_are_told(
    path: Seq<char>,
    query: Seq<char>,
    rows: Seq<ChunkRowView>,
    m: write_plan::MetaView,
)
    ensures
        write_plan::write_words(StepView::DeleteAll) == "delete_all_data"@,
        write_plan::write_words(StepView::DeleteFile(path)) == "delete_file_data"@,
        write_plan::write_words(StepView::Symbols(query)) == "symbols: flush_symbol_batches"@,
        write_plan::write_words(StepView::Edges(query)) == "edges: flush_edge_batches"@,
        rows.len() < 512 ==> write_plan::write_words(StepView::Chunks(rows))
            == "chunk batch (tail): flush_chunk_batch"@,
        rows.len() >= 512 ==> write_plan::write_words(StepView::Chunks(rows))
            == "chunk batch: flush_chunk_batch"@,
        write_plan::write_words(StepView::Meta(m)) == "upsert_file_meta"@,
        write_plan::write_words(StepView::DropMeta(query)) == "delete file_meta for deleted file"@,
{
}

proof fn lemma_resolved_has(edges: Seq<EdgeView>, all: Seq<QualifiedView>, i: int) -> (k: int)
    requires
        0 <= i < edges.len(),
        graph::target_of(edges[i], all) is Some,
    ensures
        0 <= k < graph::resolved(edges, all).len(),
        graph::resolved(edges, all)[k] == (ResolvedView {
            from: edges[i].from,
            to: graph::target_of(edges[i], all)->0,
            kind: edges[i].kind,
            line: edges[i].line,
        }),
    decreases edges.len(),
{
    let front = edges.drop_last();
    let before = graph::resolved(front, all);
    if i < front.len() {
        assert(front[i] == edges[i]);
        lemma_resolved_has(front, all, i)
    } else {
        before.len() as int
    }
}

/// Every edge that points to something is written, with what it points to.
pub proof fn law_every_resolved_edge_is_written(
    repo: Seq<char>,
    symbols: Seq<SymbolView>,
    edges: Seq<EdgeView>,
    known: Seq<QualifiedView>,
    rows: Seq<ChunkRowView>,
    stats: Seq<FileStat>,
    i: int,
)
    requires
        0 <= i < edges.len(),
        graph::target_of(edges[i], known) is Some,
    ensures
        writes_edge(
            write_plan::insert_plan(repo, symbols, graph::resolved(edges, known), rows, stats),
            (ResolvedView {
                from: edges[i].from,
                to: graph::target_of(edges[i], known)->0,
                kind: edges[i].kind,
                line: edges[i].line,
            }),
        ),
{
    let all = graph::resolved(edges, known);
    let k = lemma_resolved_has(edges, known, i);
    law_everything_is_written(repo, symbols, all, rows, stats, k);
}

}
