use context_engine::indexing::consumer::{
    consumer_step, expects, merge_loaded, ConsumerAction, ConsumerEvent, ConsumerState,
};
use context_engine::indexing::embed::{embed_batches, embed_plan, EmbedPlan, EmbedProgress};
use context_engine::indexing::graph::{
    build_symbol_index, resolve_edges, stored_symbol, ResolvedEdge,
};
use context_engine::indexing::pipeline::{
    change_step, chunk_batches, chunk_vectors, collect_results, first_step, split_changes,
    ChangeKind, ChunkSet, FileChange, IndexPipeline, IndexPipelineStats, RunStep,
};
use context_engine::indexing::run::{
    expects as run_expects, run_step, RunAction, RunEvent, RunState,
};
use context_engine::indexing::statements::{
    append_insert_edge, append_upsert_symbol, delete_meta_query, edge_batches, escape_surreal,
    kind_to_str, symbol_batches, WRITE_BATCH_SIZE,
};
use context_engine::indexing::walker::{
    indexable_as, indexable_files, is_indexable, is_under_hidden_dir, keep_entry, CODE_EXTENSIONS,
    SKIP_DIRS,
};
use context_engine::indexing::write_plan::{
    failed_phase, full_rebuild_steps, incremental_steps, plan_full_rebuild, plan_incremental,
    FileMeta, FileStat, WriteStep,
};
use context_engine::indexing::{IndexEngine, IndexState, ProgressHandle, RepoStatus, StatusMap};
use context_engine::parsing::chunker::Chunk;
use context_engine::parsing::parse_file;
use context_engine::parsing::relations::{EdgeKind, EdgeTarget, RawEdge};
use context_engine::parsing::symbols::{make_symbol, QualifiedSymbol, Symbol, SymbolKind};

// ─── Walking ───

/// The files of a tree that a walk comes to and that are indexed.
fn walk(files: &[&str]) -> Vec<String> {
    let visited: Vec<String> = files
        .iter()
        .filter(|file| {
            let parts: Vec<&str> = file.split('/').collect();
            parts[..parts.len() - 1]
                .iter()
                .enumerate()
                .all(|(i, dir)| keep_entry(true, dir, i + 1))
                && keep_entry(false, parts[parts.len() - 1], parts.len())
        })
        .map(|file| format!("/repo/{file}"))
        .collect();
    indexable_files(&visited)
}

#[test]
fn walk_repo_skips_dot_directories() {
    let result = walk(&[
        "src/main.rs",
        ".eslintrc.json",
        ".tools/agents/x.md",
        ".agent/y.py",
        ".github/workflows/ci.yml",
    ]);

    // src/main.rs must be indexed.
    let has_main = result.iter().any(|p| p.ends_with("src/main.rs"));
    assert!(has_main, "src/main.rs must be indexed; got: {:?}", result);

    // Root-level dot-file must be indexed.
    let has_eslintrc = result.iter().any(|p| p.ends_with(".eslintrc.json"));
    assert!(
        has_eslintrc,
        ".eslintrc.json must be indexed (root-level dot-file); got: {:?}",
        result
    );

    // Nothing under .tools, .agent, or .github must appear.
    for p in &result {
        assert!(
            !p.contains("/.tools/") && !p.contains("\\.tools\\"),
            ".tools/ content must not be indexed; got path: {p}"
        );
        assert!(
            !p.contains("/.agent/") && !p.contains("\\.agent\\"),
            ".agent/ content must not be indexed; got path: {p}"
        );
        assert!(
            !p.contains("/.github/") && !p.contains("\\.github\\"),
            ".github/ content must not be indexed; got path: {p}"
        );
    }
}

#[test]
fn walk_repo_still_skips_node_modules() {
    let result = walk(&["node_modules/foo/index.js", "src/main.js"]);

    let has_main = result.iter().any(|p| p.ends_with("src/main.js"));
    assert!(has_main, "src/main.js must be indexed; got: {:?}", result);

    let has_node_modules = result.iter().any(|p| p.contains("node_modules"));
    assert!(
        !has_node_modules,
        "node_modules content must not be indexed; got: {:?}",
        result
    );
}

#[test]
fn walk_repo_works_when_root_name_is_dotted() {
    // The root has depth 0 and is gone into whatever it is called.
    assert!(keep_entry(true, ".dotted-root", 0));
    assert!(!keep_entry(true, ".dotted-root", 1));
    let result = walk(&["src/main.rs"]);
    let has_main = result.iter().any(|p| p.ends_with("src/main.rs"));
    assert!(
        has_main,
        "src/main.rs must be indexed even when repo root name starts with '.'; got: {:?}",
        result
    );
}

#[test]
fn is_under_hidden_dir_helper() {
    let root = "/tmp/repo";

    // .tools/x.md — inside a dot-dir → true
    assert!(
        is_under_hidden_dir(root, "/tmp/repo/.tools/x.md"),
        ".tools/x.md must be under a hidden dir"
    );

    // .eslintrc.json at repo root — root-level dot-FILE → false
    assert!(
        !is_under_hidden_dir(root, "/tmp/repo/.eslintrc.json"),
        ".eslintrc.json is a root-level dot-file, not under a hidden dir"
    );

    // src/foo.rs — normal file → false
    assert!(
        !is_under_hidden_dir(root, "/tmp/repo/src/foo.rs"),
        "src/foo.rs must not be under a hidden dir"
    );

    // a/.b/c.rs — nested dot-dir → true
    assert!(
        is_under_hidden_dir(root, "/tmp/repo/a/.b/c.rs"),
        "a/.b/c.rs must be under a hidden dir"
    );
}

#[test]
fn hidden_directories_count_only_below_the_root() {
    assert!(!is_under_hidden_dir("/home/.dotted", "/home/.dotted/src/a.rs"));
    assert!(!is_under_hidden_dir("/repo", "/other/.x/a.rs"));
    assert!(!is_under_hidden_dir("/repo", "/repo"));
    assert!(!is_under_hidden_dir("/repo", "/repo/../a.rs"));
    assert!(!is_under_hidden_dir("/repo", "/repo/./x/a.rs"));
    assert!(is_under_hidden_dir("/repo/", "/repo//.git/config"));
}

#[test]
fn indexable_files_by_extension_and_name() {
    for path in ["a.rs", "b/README.MD", "x.Py", "Dockerfile", "d/MAKEFILE", "justfile", "a.b.toml"] {
        assert!(is_indexable(path), "{path}");
    }
    for path in ["a.exe", "a.rs.bak", "LICENSE", "a.", "", "dir/", ".rs", "x.lock"] {
        assert!(!is_indexable(path), "{path}");
    }
    assert!(indexable_as(&Some("rs".to_string()), "x"));
    assert!(!indexable_as(&Some("RS".to_string()), "x"));
    assert!(indexable_as(&None, "dockerfile"));
    assert!(!indexable_as(&None, "Dockerfile"));
    assert_eq!(CODE_EXTENSIONS.len(), 50);
    assert!(CODE_EXTENSIONS.contains(&"hcl") && CODE_EXTENSIONS.contains(&"dockerfile"));
    for dir in SKIP_DIRS {
        assert!(!keep_entry(true, dir, 0));
        assert!(keep_entry(false, dir, 3));
    }
}

// ─── Status ───

#[test]
fn a_run_goes_through_its_states() {
    let repos = vec!["/r".to_string(), "/s".to_string()];
    let mut engine = IndexEngine::start(&repos);
    assert_eq!(engine.repo_status("/r").unwrap().state, IndexState::Idle);
    assert!(engine.repo_status("/t").is_none());

    let first = ConsumerEvent::Triggered { has_keys: true };
    assert!(expects(ConsumerState::Waiting, &first));
    let (state, action) =
        consumer_step(ConsumerState::Waiting, first, "/r", &mut engine.statuses);
    let before = IndexPipelineStats { indexed_files: 0, total_files: 0 };
    assert_eq!((state, action), (ConsumerState::Client { before }, ConsumerAction::MakeClient));
    assert_eq!(engine.repo_status("/r").unwrap().state, IndexState::Indexing);

    let (state, action) =
        consumer_step(state, ConsumerEvent::ClientReady, "/r", &mut engine.statuses);
    assert_eq!((state, action), (ConsumerState::Store { before }, ConsumerAction::OpenStore));
    let (state, action) =
        consumer_step(state, ConsumerEvent::StoreReady, "/r", &mut engine.statuses);
    assert_eq!((state, action), (ConsumerState::Running { before }, ConsumerAction::RunPipeline));

    let progress = ProgressHandle { repo: "/r".to_string() };
    progress.set_run_total(&mut engine.statuses, 4);
    progress.set_processed(&mut engine.statuses, 3);
    progress.set_processed(&mut engine.statuses, 2);
    let live = engine.repo_status("/r").unwrap();
    assert_eq!((live.indexed_files, live.total_files), (3, 4));

    let stats = IndexPipelineStats { indexed_files: 9, total_files: 10 };
    let done = ConsumerEvent::RunFinished { stats, now: "t1".to_string() };
    let (state, action) = consumer_step(state, done, "/r", &mut engine.statuses);
    assert_eq!((state, action), (ConsumerState::Waiting, ConsumerAction::PersistTime));
    let idle = engine.repo_status("/r").unwrap();
    assert_eq!((idle.state, idle.indexed_files, idle.total_files), (IndexState::Idle, 9, 10));
    assert_eq!(idle.last_indexed_at.as_deref(), Some("t1"));
    assert_eq!(engine.all_statuses().repo_status("/s").unwrap().indexed_files, 0);
}

#[test]
fn failures_end_a_run() {
    let mut statuses = StatusMap::new();
    let before = IndexPipelineStats { indexed_files: 0, total_files: 0 };
    let go = ConsumerEvent::Triggered { has_keys: false };
    let (state, action) = consumer_step(ConsumerState::Waiting, go, "/r", &mut statuses);
    assert_eq!((state, action), (ConsumerState::Store { before }, ConsumerAction::OpenStore));
    let bad = ConsumerEvent::StoreFailed { error: "locked".to_string() };
    assert!(!expects(ConsumerState::Running { before }, &bad));
    let (state, action) = consumer_step(state, bad, "/r", &mut statuses);
    assert_eq!((state, action), (ConsumerState::Waiting, ConsumerAction::TakeTrigger));
    let status = statuses.repo_status("/r").unwrap();
    assert_eq!(status.state, IndexState::Error);
    assert_eq!(status.error.as_deref(), Some("locked"));
    for event in [
        ConsumerEvent::ClientFailed { error: "c".to_string(), counts: None },
        ConsumerEvent::RunFailed { error: "r".to_string(), counts: None },
    ] {
        let at = match event {
            ConsumerEvent::ClientFailed { .. } => ConsumerState::Client { before },
            _ => ConsumerState::Running { before },
        };
        let (state, action) = consumer_step(at, event, "/r", &mut statuses);
        assert_eq!((state, action), (ConsumerState::Waiting, ConsumerAction::TakeTrigger));
    }
    assert_eq!(statuses.repo_status("/r").unwrap().error.as_deref(), Some("r"));
}

/// Brings a status to the middle of a run, after a good one that left 9 of 10
/// files in the index.
fn in_the_middle_of_a_run(statuses: &mut StatusMap) -> ConsumerState {
    let go = || ConsumerEvent::Triggered { has_keys: false };
    let (state, _) = consumer_step(ConsumerState::Waiting, go(), "/r", statuses);
    let (state, _) = consumer_step(state, ConsumerEvent::StoreReady, "/r", statuses);
    let stats = IndexPipelineStats { indexed_files: 9, total_files: 10 };
    let done = ConsumerEvent::RunFinished { stats, now: "t1".to_string() };
    let (state, _) = consumer_step(state, done, "/r", statuses);
    let (state, _) = consumer_step(state, go(), "/r", statuses);
    let (state, _) = consumer_step(state, ConsumerEvent::StoreReady, "/r", statuses);
    let progress = ProgressHandle { repo: "/r".to_string() };
    progress.set_run_total(statuses, 4);
    progress.set_processed(statuses, 3);
    state
}

#[test]
fn a_failed_run_leaves_the_counts_of_index_and_disk() {
    let mut statuses = StatusMap::new();
    let state = in_the_middle_of_a_run(&mut statuses);
    let found = IndexPipelineStats { indexed_files: 5, total_files: 12 };
    let bad = ConsumerEvent::RunFailed { error: "e".to_string(), counts: Some(found) };
    consumer_step(state, bad, "/r", &mut statuses);
    let status = statuses.repo_status("/r").unwrap();
    assert_eq!((status.state, status.indexed_files, status.total_files), (IndexState::Error, 5, 12));
    assert_eq!(status.last_indexed_at.as_deref(), Some("t1"));

    let mut statuses = StatusMap::new();
    let state = in_the_middle_of_a_run(&mut statuses);
    let bad = ConsumerEvent::RunFailed { error: "e".to_string(), counts: None };
    consumer_step(state, bad, "/r", &mut statuses);
    let status = statuses.repo_status("/r").unwrap();
    assert_eq!((status.indexed_files, status.total_files), (9, 10));
}

#[test]
fn a_store_that_does_not_open_leaves_the_counts_from_before() {
    let mut statuses = StatusMap::new();
    let state = in_the_middle_of_a_run(&mut statuses);
    let stats = IndexPipelineStats { indexed_files: 7, total_files: 8 };
    let done = ConsumerEvent::RunFinished { stats, now: "t2".to_string() };
    let (state, _) = consumer_step(state, done, "/r", &mut statuses);
    let go = ConsumerEvent::Triggered { has_keys: true };
    let (state, _) = consumer_step(state, go, "/r", &mut statuses);
    assert_eq!(statuses.repo_status("/r").unwrap().indexed_files, 0);
    let (state, _) = consumer_step(state, ConsumerEvent::ClientReady, "/r", &mut statuses);
    let bad = ConsumerEvent::StoreFailed { error: "locked".to_string() };
    consumer_step(state, bad, "/r", &mut statuses);
    let status = statuses.repo_status("/r").unwrap();
    assert_eq!((status.state, status.indexed_files, status.total_files), (IndexState::Error, 7, 8));
}

#[test]
fn an_unknown_repository_is_idle() {
    let status = RepoStatus::default();
    assert_eq!(status.state, IndexState::Idle);
    assert_eq!((status.indexed_files, status.total_files), (0, 0));
    assert_eq!((status.clone().last_indexed_at, status.error), (None, None));
}

#[test]
fn triggers() {
    let engine = IndexEngine::start(&vec![]);
    let one = engine.trigger_index("/r");
    assert!(one.repo == "/r" && one.changes.is_none() && !one.rebuild);
    assert!(engine.trigger_rebuild("/r").rebuild);
    let all = engine.trigger_index_all(&vec!["/a".to_string(), "/b".to_string()]);
    let repos: Vec<&str> = all.iter().map(|t| t.repo.as_str()).collect();
    assert_eq!(repos, vec!["/a", "/b"]);
}

/// Startup must load EVERY configured repo, not just the first.
#[test]
fn loads_all_repos_not_just_first() {
    let repo_one: Vec<[f32; 4]> = vec![[0.1, 0.2, 0.3, 0.4]];
    let repo_two: Vec<[f32; 4]> = vec![[0.1, 0.2, 0.3, 0.4]; 2];
    let index = merge_loaded(vec![Ok(repo_one), Ok(repo_two)]);
    // 1 (repo_one) + 2 (repo_two) = 3. Under take(1) this would be 1.
    assert_eq!(index.len(), 3, "expected all repos merged, not just the first");
}

#[test]
fn a_repository_that_fails_to_load_is_left_out() {
    let out = merge_loaded(vec![Ok(vec![1, 2]), Err("broken".to_string()), Ok(vec![3])]);
    assert_eq!(out, vec![1, 2, 3]);
    assert!(merge_loaded::<u8>(vec![]).is_empty());
}

// ─── Runs ───

fn change(path: &str, kind: ChangeKind) -> FileChange {
    FileChange { path: path.to_string(), kind }
}

#[test]
fn first_steps_of_a_run() {
    let some = Some(vec![change("a", ChangeKind::Added)]);
    assert_eq!(first_step(0, false, &some), RunStep::FullRebuild);
    assert_eq!(first_step(5, true, &None), RunStep::FullRebuild);
    assert_eq!(first_step(5, false, &some), RunStep::Incremental);
    assert_eq!(first_step(5, false, &Some(vec![])), RunStep::Done);
    assert_eq!(first_step(5, false, &None), RunStep::DetectChanges);
    assert_eq!(change_step(&vec![]), RunStep::Done);
    let pipeline = IndexPipeline::new("/r".to_string(), Some(3u8));
    assert_eq!((pipeline.repo().as_str(), *pipeline.client()), ("/r", Some(3)));
}

#[test]
fn changes_are_split() {
    let set = split_changes(&vec![
        change("m", ChangeKind::Modified),
        change("d", ChangeKind::Deleted),
        change("a", ChangeKind::Added),
        change("e", ChangeKind::Deleted),
    ]);
    assert_eq!(set.to_process, vec!["m".to_string(), "a".to_string()]);
    assert_eq!(set.to_delete, vec!["d".to_string(), "e".to_string()]);
    assert_eq!(
        set.all_affected,
        vec!["d".to_string(), "e".to_string(), "m".to_string(), "a".to_string()]
    );
}

fn chunker(file: &str, source: &str, symbols: &Vec<Symbol>) -> Vec<Chunk> {
    symbols
        .iter()
        .map(|s| Chunk {
            file: file.to_string(),
            line_start: s.line_start,
            line_end: s.line_end,
            content: source.to_string(),
            symbol_ref: Some(s.qualified.fqn()),
        })
        .collect()
}

#[test]
fn files_are_collected_and_edges_resolved() {
    let results = vec![
        parse_file("a.py", "def f():\n    g()\n    h()\n", chunker),
        parse_file("b.py", "def g():\n    f()\ndef f():\n    nowhere()\n", chunker),
    ];
    let all = collect_results(results);
    assert_eq!(all.symbols.len(), 3);
    assert_eq!(all.chunk_counts, vec![1, 2]);
    assert_eq!(all.chunks.len(), 3);
    let mut index = build_symbol_index(&all.symbols);
    index.add(stored_symbol("old.py".to_string(), "h".to_string()));
    let found: Vec<(String, String)> = resolve_edges(&all.edges, &index)
        .iter()
        .map(|e| (e.from.fqn(), e.to.fqn()))
        .collect();
    assert_eq!(
        found,
        vec![
            ("a.py::f".to_string(), "b.py::g".to_string()),
            ("a.py::f".to_string(), "old.py::h".to_string()),
            // The call stays in its own file although another file has the name too.
            ("b.py::g".to_string(), "b.py::f".to_string()),
        ]
    );
    assert!(index.get("nowhere").is_none());
    assert_eq!(index.get("f").unwrap().len(), 2);
}

#[test]
fn resolved_edges_stay_as_they_are() {
    let q = |name: &str| QualifiedSymbol {
        file: "x".to_string(),
        scope_path: vec![],
        name: name.to_string(),
    };
    let edge = RawEdge {
        from: q("a"),
        to: EdgeTarget::Resolved(q("b")),
        kind: EdgeKind::Uses,
        line: 4,
    };
    let out = resolve_edges(&vec![edge], &build_symbol_index(&vec![]));
    assert_eq!((out[0].to.fqn().as_str(), out[0].kind, out[0].line), ("x::b", EdgeKind::Uses, 4));
}

// ─── Statements ───

fn symbol(name: &str) -> Symbol {
    make_symbol(
        "src/it's.rs",
        name,
        vec!["M".to_string()],
        SymbolKind::Method,
        3,
        9,
        None,
        Some("src/it's.rs::M".to_string()),
    )
}

#[test]
fn escaping() {
    for s in ["", "plain", "it's", "a\\b", "\\'", "'\\'", "⟨x⟩"] {
        assert_eq!(escape_surreal(s), s.replace('\\', "\\\\").replace('\'', "\\'"));
    }
}

#[test]
fn symbol_statements() {
    let mut txn = "X".to_string();
    append_upsert_symbol(&mut txn, &symbol("f"));
    assert_eq!(
        txn,
        "XUPSERT symbol:`⟨src/it\\'s.rs::M::f⟩` SET name = 'f', kind = 'method', file = 'src/it\\'s.rs', line_start = 3, line_end = 9, signature = NONE, parent = 'symbol:⟨src/it\\'s.rs::M⟩';\n"
    );
    let mut sym = symbol("g");
    sym.signature = Some("fn g('a)".to_string());
    sym.parent_fqn = None;
    let mut txn = String::new();
    append_upsert_symbol(&mut txn, &sym);
    assert!(txn.ends_with("signature = 'fn g(\\'a)', parent = NONE;\n"));
}

#[test]
fn kinds_have_names() {
    let names: Vec<&str> = [
        SymbolKind::Function,
        SymbolKind::Method,
        SymbolKind::Class,
        SymbolKind::Struct,
        SymbolKind::Trait,
        SymbolKind::Impl,
        SymbolKind::Module,
        SymbolKind::Interface,
    ]
    .into_iter()
    .map(kind_to_str)
    .collect();
    assert_eq!(
        names,
        vec!["function", "method", "class", "struct", "trait", "impl", "module", "interface"]
    );
}

#[test]
fn edge_statements() {
    let a = symbol("a").qualified;
    let b = QualifiedSymbol { file: "b.rs".to_string(), scope_path: vec![], name: "b".to_string() };
    let mut txn = String::new();
    append_insert_edge(&mut txn, &a, &b, EdgeKind::Calls, 12);
    assert_eq!(
        txn,
        "RELATE symbol:`⟨src/it\\'s.rs::M::a⟩`->calls->symbol:`⟨b.rs::b⟩` SET line = 12, in_file = 'src/it\\'s.rs', out_file = 'b.rs';\n"
    );
    for (kind, table) in [
        (EdgeKind::Uses, "uses"),
        (EdgeKind::Imports, "imports"),
        (EdgeKind::Contains, "contains"),
        (EdgeKind::Implements, "implements"),
    ] {
        let mut txn = String::new();
        append_insert_edge(&mut txn, &b, &b, kind, 12);
        assert_eq!(
            txn,
            format!("RELATE symbol:`⟨b.rs::b⟩`->{table}->symbol:`⟨b.rs::b⟩` SET in_file = 'b.rs', out_file = 'b.rs';\n")
        );
    }
    assert_eq!(
        delete_meta_query("a'b"),
        "DELETE FROM file_meta WHERE path = 'a\\'b'"
    );
}

#[test]
fn batches() {
    let symbols: Vec<Symbol> = (0..1025).map(|i| symbol(&format!("s{i}"))).collect();
    let queries = symbol_batches(&symbols);
    assert_eq!(queries.len(), 3);
    assert_eq!(queries[0].lines().count(), WRITE_BATCH_SIZE);
    assert_eq!(queries[2].lines().count(), 1);
    assert!(queries[2].contains("name = 's1024'"));
    assert!(symbol_batches(&vec![]).is_empty());
    let edges: Vec<ResolvedEdge> = (0..513)
        .map(|i| ResolvedEdge {
            from: symbol("f").qualified,
            to: symbol("t").qualified,
            kind: EdgeKind::Calls,
            line: i,
        })
        .collect();
    let queries = edge_batches(&edges);
    assert_eq!(queries.len(), 2);
    assert!(queries[1].contains("line = 512"));
}

// ─── Writes ───

fn chunks(n: usize) -> Vec<Chunk> {
    (0..n)
        .map(|i| Chunk {
            file: format!("f{i}"),
            line_start: 1,
            line_end: 2,
            content: "c".to_string(),
            symbol_ref: if i == 0 { Some("x::y".to_string()) } else { None },
        })
        .collect()
}

#[test]
fn chunk_rows() {
    let batches = chunk_batches(&chunks(600), 599);
    assert_eq!((batches.len(), batches[0].len(), batches[1].len()), (2, 512, 88));
    assert_eq!(batches[0][0].symbol_ref.as_deref(), Some("symbol:⟨x::y⟩"));
    assert_eq!(batches[0][0].embedding, Some(0));
    assert_eq!(batches[1][86].embedding, Some(598));
    assert_eq!(batches[1][87].embedding, None);
    assert_eq!((batches[0][1].line_start, batches[0][1].line_end), (1, 2));
    let vectors = chunk_vectors(&chunks(2), 1);
    assert_eq!((vectors[0].embedding, vectors[1].embedding), (Some(0), None));
    assert_eq!(vectors[1].file, "f1");
}

fn kinds(steps: &[WriteStep]) -> String {
    steps
        .iter()
        .map(|s| match s {
            WriteStep::DeleteAll => 'A',
            WriteStep::DeleteFile { .. } => 'D',
            WriteStep::Symbols { .. } => 'S',
            WriteStep::Edges { .. } => 'E',
            WriteStep::Chunks { .. } => 'C',
            WriteStep::Meta { .. } => 'M',
            WriteStep::DropMeta { .. } => 'X',
        })
        .collect()
}

#[test]
fn writes_come_in_the_crash_safe_order() {
    let stats = vec![FileStat { path: "f0".to_string(), mtime: 5, size: 6 }];
    let set = ChunkSet { chunks: chunks(513), embeddings: 513 };
    let edges = vec![ResolvedEdge {
        from: symbol("f").qualified,
        to: symbol("t").qualified,
        kind: EdgeKind::Calls,
        line: 1,
    }];
    let full = full_rebuild_steps("/r", &vec![symbol("s")], &edges, &set, &stats);
    assert_eq!(kinds(&full), "ASECCM");
    match &full[5] {
        WriteStep::Meta { meta } => {
            assert_eq!((meta.path.as_str(), meta.mtime, meta.size, meta.repo.as_str()), ("f0", 5, 6, "/r"));
        }
        _ => panic!("metadata comes last"),
    }
    let some = incremental_steps(
        "/r",
        &vec!["gone".to_string(), "f0".to_string()],
        &vec![symbol("s")],
        &edges,
        &set,
        &stats,
        &vec!["gone".to_string()],
    );
    assert_eq!(kinds(&some), "DDSECCMX");
}

fn found_in(files: &[(&str, &str)]) -> context_engine::indexing::pipeline::Collected {
    collect_results(files.iter().map(|(f, source)| parse_file(f, source, chunker)).collect())
}

#[test]
fn a_full_rebuild_writes_all_that_was_found() {
    let found = found_in(&[("/r/sample.rs", "fn add() {\n    sub();\n}\n\nfn sub() {}\n")]);
    let stats = vec![FileStat { path: "/r/sample.rs".to_string(), mtime: 1, size: 2 }];
    let plan = plan_full_rebuild("/r", found, 1, &stats);
    assert_eq!(kinds(&plan.steps), "ASECM");
    assert!(plan.removed.is_empty());
    assert_eq!(plan.vectors.len(), 2);
    assert_eq!((plan.vectors[0].embedding, plan.vectors[1].embedding), (Some(0), None));
    match (&plan.steps[1], &plan.steps[2]) {
        (WriteStep::Symbols { query }, WriteStep::Edges { query: edges }) => {
            assert_eq!(query.lines().count(), 2);
            assert_eq!(
                edges.as_str(),
                "RELATE symbol:`⟨/r/sample.rs::add⟩`->calls->symbol:`⟨/r/sample.rs::sub⟩` SET line = 2, in_file = '/r/sample.rs', out_file = '/r/sample.rs';\n"
            );
        }
        _ => panic!("symbols, then edges"),
    }
}

#[test]
fn an_incremental_run_resolves_against_the_store() {
    let found = found_in(&[("/r/a.py", "def f():\n    known()\n    unknown()\n")]);
    let changes = split_changes(&vec![
        change("/r/a.py", ChangeKind::Modified),
        change("/r/gone.py", ChangeKind::Deleted),
    ]);
    let stored = vec![stored_symbol("/r/b.py".to_string(), "known".to_string())];
    let plan = plan_incremental("/r", changes, found, stored, 0, &vec![]);
    assert_eq!(kinds(&plan.steps), "DDSECX");
    assert_eq!(plan.removed, vec!["/r/gone.py".to_string(), "/r/a.py".to_string()]);
    match &plan.steps[3] {
        WriteStep::Edges { query } => {
            assert_eq!(query.lines().count(), 1);
            assert!(query.contains("->calls->symbol:`⟨/r/b.py::known⟩`"));
        }
        _ => panic!("edges come after symbols"),
    }
}

// ─── Embedding ───

#[test]
fn progress_reaches_the_total() {
    let mut progress = EmbedProgress::new(&vec![2, 0, 3, 1]);
    assert_eq!(progress.completed_files(), 0);
    assert_eq!(progress.advance(1), 0);
    assert_eq!(progress.advance(1), 2);
    assert_eq!(progress.advance(2), 2);
    assert_eq!(progress.advance(1), 3);
    assert_eq!(progress.advance(1), 4);
    assert_eq!(EmbedProgress::new(&vec![0, 0]).completed_files(), 2);
    assert_eq!(EmbedProgress::new(&vec![]).completed_files(), 0);
}

#[test]
fn embedding_is_planned() {
    assert_eq!(embed_plan(3, 0, true), EmbedPlan::Nothing { total_files: 3 });
    assert_eq!(embed_plan(3, 9, true), EmbedPlan::Batches { total_files: 3 });
    assert_eq!(embed_plan(3, 9, false), EmbedPlan::Empty { total_files: 3 });
}

// ─── The course of a run ───

fn go(state: RunState, event: RunEvent) -> (RunState, RunAction) {
    assert!(run_expects(&state, &event));
    run_step("/r", state, event)
}

fn stat(path: &str) -> FileStat {
    FileStat { path: path.to_string(), mtime: 3, size: 4 }
}

/// A file with one function and one chunk.
fn parsed(file: &str) -> context_engine::parsing::ParseResult {
    parse_file(file, "fn f() {}\n", |f: &str, s: &str, _: &Vec<Symbol>| {
        vec![Chunk {
            file: f.to_string(),
            line_start: 1,
            line_end: 1,
            content: s.to_string(),
            symbol_ref: None,
        }]
    })
}

#[test]
fn a_first_run_embeds_before_it_writes() {
    let state = RunState::Meta { changes: None, rebuild: false };
    let (state, action) = go(state, RunEvent::MetaRead { stored_files: 0, total_files: 2 });
    assert!(matches!(action, RunAction::ParseAll));
    let results = vec![parsed("/r/a.rs"), parsed("/r/b.rs")];
    let (state, action) = go(state, RunEvent::Parsed { results, stored: vec![] });
    match action {
        RunAction::Embed { texts, chunk_counts } => {
            assert_eq!(texts, vec!["fn f() {}\n", "fn f() {}\n"]);
            assert_eq!(chunk_counts, vec![1, 1]);
        }
        _ => panic!("must embed"),
    }
    let stats = vec![stat("/r/a.rs"), stat("/r/b.rs")];
    let (state, action) = go(state, RunEvent::Embedded { embeddings: 2, stats });
    match action {
        RunAction::Write { plan, rebuild } => {
            assert!(rebuild && plan.removed.is_empty());
            assert!(matches!(plan.steps[0], WriteStep::DeleteAll));
            assert!(matches!(plan.steps[plan.steps.len() - 1], WriteStep::Meta { .. }));
            let vectors: Vec<(&str, Option<usize>)> =
                plan.vectors.iter().map(|v| (v.file.as_str(), v.embedding)).collect();
            assert_eq!(vectors, vec![("/r/a.rs", Some(0)), ("/r/b.rs", Some(1))]);
        }
        _ => panic!("must write"),
    }
    let (state, action) = go(state, RunEvent::Written);
    assert!(matches!(action, RunAction::Count));
    let (state, action) = go(state, RunEvent::Counted { indexed_files: 2 });
    match action {
        RunAction::Finish { stats } => {
            assert_eq!(stats, IndexPipelineStats { indexed_files: 2, total_files: 2 })
        }
        _ => panic!("must finish"),
    }
    assert!(!run_expects(&state, &RunEvent::Written));
    assert!(!run_expects(&state, &RunEvent::Failed { error: String::new() }));
}

#[test]
fn a_later_run_indexes_what_changed() {
    let state = RunState::Meta { changes: None, rebuild: false };
    let (state, action) = go(state, RunEvent::MetaRead { stored_files: 3, total_files: 4 });
    assert!(matches!(action, RunAction::DetectChanges));
    let changes = vec![
        change("/r/a.rs", ChangeKind::Modified),
        change("/r/b.rs", ChangeKind::Deleted),
    ];
    let (state, action) = go(state, RunEvent::Detected { changes });
    match action {
        RunAction::ParseChanged { files } => assert_eq!(files, vec!["/r/a.rs"]),
        _ => panic!("must parse"),
    }
    let results = vec![parsed("/r/a.rs")];
    let (state, _) = go(state, RunEvent::Parsed { results, stored: vec![] });
    let stats = vec![stat("/r/a.rs")];
    let (_, action) = go(state, RunEvent::Embedded { embeddings: 1, stats });
    match action {
        RunAction::Write { plan, rebuild } => {
            assert!(!rebuild);
            assert_eq!(plan.removed, vec!["/r/b.rs", "/r/a.rs"]);
            assert!(matches!(&plan.steps[0], WriteStep::DeleteFile { path } if path == "/r/b.rs"));
            assert!(matches!(plan.steps[plan.steps.len() - 1], WriteStep::DropMeta { .. }));
        }
        _ => panic!("must write"),
    }
}

#[test]
fn a_run_without_changes_ends_at_once() {
    let given = Some(vec![]);
    let state = RunState::Meta { changes: given, rebuild: false };
    let (state, action) = go(state, RunEvent::MetaRead { stored_files: 3, total_files: 4 });
    assert!(matches!(state, RunState::Ended));
    match action {
        RunAction::Finish { stats } => {
            assert_eq!(stats, IndexPipelineStats { indexed_files: 3, total_files: 4 })
        }
        _ => panic!("must finish"),
    }
    let state = RunState::Meta { changes: Some(vec![]), rebuild: true };
    let (_, action) = go(state, RunEvent::MetaRead { stored_files: 3, total_files: 4 });
    assert!(matches!(action, RunAction::ParseAll));
}

#[test]
fn a_failed_embedding_ends_a_run_before_any_write() {
    let state = RunState::Meta { changes: None, rebuild: true };
    let (state, first) = go(state, RunEvent::MetaRead { stored_files: 1, total_files: 1 });
    let results = vec![parsed("/r/a.rs")];
    let (state, second) = go(state, RunEvent::Parsed { results, stored: vec![] });
    let (state, third) = go(state, RunEvent::Failed { error: "no quota".to_string() });
    assert!(matches!(first, RunAction::ParseAll));
    assert!(matches!(second, RunAction::Embed { .. }));
    assert!(matches!(third, RunAction::Fail { error } if error == "no quota"));
    let late = RunEvent::Embedded { embeddings: 1, stats: vec![] };
    assert!(!run_expects(&state, &late));
}

#[test]
fn texts_are_embedded_in_batches_in_their_order() {
    let texts: Vec<String> = (0..7).map(|i| i.to_string()).collect();
    let batches = embed_batches(&texts, 3);
    let sizes: Vec<usize> = batches.iter().map(|b| b.len()).collect();
    assert_eq!(sizes, vec![3, 3, 1]);
    assert_eq!(batches.concat(), texts);
    assert_eq!(embed_batches(&texts, 7).len(), 1);
    assert_eq!(embed_batches(&texts, usize::MAX).concat(), texts);
    assert!(embed_batches(&vec![], 3).is_empty());
}

#[test]
fn a_name_without_symbols_is_not_found() {
    let index = build_symbol_index(&parsed("/r/a.rs").symbols);
    assert_eq!(index.get("f").map(|group| group.len()), Some(1));
    assert!(index.get("g").is_none());
}

#[test]
fn failures_name_their_phase() {
    let text = || "q".to_string();
    let meta = FileMeta { path: text(), mtime: 0, size: 0, repo: text() };
    let named = [
        (WriteStep::DeleteAll, true, "full_rebuild: delete_all_data"),
        (WriteStep::DeleteFile { path: text() }, false, "incremental_run: delete_file_data"),
        (WriteStep::Symbols { query: text() }, true, "full_rebuild: symbols: flush_symbol_batches"),
        (WriteStep::Edges { query: text() }, false, "incremental_run: edges: flush_edge_batches"),
        (WriteStep::Meta { meta }, true, "full_rebuild: upsert_file_meta"),
        (
            WriteStep::DropMeta { query: text() },
            false,
            "incremental_run: delete file_meta for deleted file",
        ),
    ];
    for (step, rebuild, words) in named {
        assert_eq!(failed_phase(&step, rebuild), words);
    }
    let chunks: Vec<Chunk> = (0..WRITE_BATCH_SIZE + 1)
        .map(|_| Chunk {
            file: text(),
            line_start: 1,
            line_end: 1,
            content: text(),
            symbol_ref: None,
        })
        .collect();
    let phases: Vec<String> = chunk_batches(&chunks, 0)
        .into_iter()
        .map(|rows| failed_phase(&WriteStep::Chunks { rows }, true))
        .collect();
    assert_eq!(
        phases,
        vec![
            "full_rebuild: chunk batch: flush_chunk_batch",
            "full_rebuild: chunk batch (tail): flush_chunk_batch"
        ]
    );
}
