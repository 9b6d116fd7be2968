use codemap::db::{get_file_deps, get_file_hash, get_file_mtime, get_stats, query_symbols, Index};
use codemap::graph::EdgeKind;
use codemap::hash::hash_bytes;
use codemap::index::{
    build_graph, fits_graph, found_line, indexed_line, is_gitignored, parse_errors_line, persist,
    resolve_edges, settle, to_relative, warn_if_not_gitignored, ChangedFile, FileData, Scan,
    ScanMode, SourceFile,
};
use codemap::parser::analyze_file;

/// Reads only files that changed, by their content.
const BY_HASH: ScanMode = ScanMode { force: false, incremental: false };

/// Reads only files that changed, by their time and content.
const BY_TIME: ScanMode = ScanMode { force: false, incremental: true };

/// Reads all files.
const FORCED: ScanMode = ScanMode { force: true, incremental: false };

/// Looks at one file.
fn look(scan: &mut Scan, index: &mut Index, path: &str, source: &str, mtime: i64, mode: ScanMode) {
    if scan.see_file(index, path, Some(mtime), mode) {
        scan.look_at(
            index,
            path,
            &format!("/p/{path}"),
            source.to_string(),
            Some(mtime),
            mode,
        );
    }
}

/// A file that was read anew, with the files that its imports lead to.
fn changed(file: &SourceFile, targets: &[Option<&str>], known: &[&str]) -> ChangedFile {
    let analysis = analyze_file(&file.abs_path, &file.source).unwrap();
    let imports: Vec<Option<String>> = targets.iter().map(|t| t.map(|t| t.to_string())).collect();
    let reexports: Vec<Option<String>> = analysis.reexports.iter().map(|_| None).collect();
    let known: Vec<String> = known.iter().map(|k| k.to_string()).collect();
    let edges = resolve_edges(&analysis, &imports, &reexports, "/p", &known);
    ChangedFile {
        path: file.path.clone(),
        hash: file.hash.clone(),
        mtime: Some(10),
        data: Some(FileData { analysis, edges }),
    }
}

/// An index of `a.ts`, which imports `b.ts`.
fn indexed() -> Index {
    let mut index = Index::new();
    let mut scan = Scan::new();
    let a = "import { b } from './b';\nexport const a = b;\n";
    look(&mut scan, &mut index, "a.ts", a, 10, BY_HASH);
    look(&mut scan, &mut index, "b.ts", "export function b() {}\n", 10, BY_HASH);
    let files = vec![
        changed(&scan.changed[0], &[Some("/p/b.ts")], &["a.ts", "b.ts"]),
        changed(&scan.changed[1], &[], &["a.ts", "b.ts"]),
    ];
    assert!(fits_graph(&index, &scan.all_paths, &files));
    let graph = build_graph(&index, &scan.all_paths, &files);
    assert_eq!((graph.node_count(), graph.edge_count()), (2, 1));
    let ranks = graph.rank_files(&vec![1.0_f64.to_bits(), 2.0_f64.to_bits()]);
    persist(index, &files, &ranks, 99).unwrap()
}

#[test]
fn a_project_is_indexed() {
    let index = indexed();
    assert_eq!(get_stats(&index), (2, 2, 1));
    let deps = get_file_deps(&index, "a.ts", "imports");
    assert_eq!(deps.len(), 1);
    assert_eq!(deps[0].file_path, "b.ts");
    assert_eq!(deps[0].edge_type, "Import");
    assert_eq!(deps[0].specifier.as_deref(), Some("./b"));
    let found = query_symbols(&index, "b", 10, true);
    assert!(found.iter().any(|s| s.kind == "Function" && s.file_path == "b.ts"));
    assert_eq!(get_file_mtime(&index, "a.ts"), Some(10));
    assert_eq!(
        get_file_hash(&index, "b.ts"),
        Some(hash_bytes(b"export function b() {}\n"))
    );
}

#[test]
fn unchanged_files_are_skipped() {
    let mut index = indexed();
    let mut scan = Scan::new();
    look(&mut scan, &mut index, "b.ts", "export function b() {}\n", 20, BY_HASH);
    assert_eq!((scan.changed.len(), scan.skipped, scan.all_paths.len()), (0, 1, 1));
    assert_eq!(get_file_mtime(&index, "b.ts"), Some(10));

    let mut again = Scan::new();
    look(&mut again, &mut index, "b.ts", "other", 10, BY_TIME);
    assert_eq!((again.changed.len(), again.skipped), (0, 1));
    look(&mut again, &mut index, "b.ts", "export function b() {}\n", 20, BY_TIME);
    assert_eq!((again.changed.len(), again.skipped), (0, 2));
    assert_eq!(get_file_mtime(&index, "b.ts"), Some(20));
    look(&mut again, &mut index, "b.ts", "other", 30, BY_TIME);
    assert_eq!((again.changed.len(), again.skipped), (1, 2));
}

#[test]
fn force_reads_all_files() {
    let mut index = indexed();
    let mut scan = Scan::new();
    look(&mut scan, &mut index, "b.ts", "export function b() {}\n", 10, FORCED);
    assert_eq!((scan.changed.len(), scan.skipped), (1, 0));
}

#[test]
fn edges_lead_to_known_files() {
    let source = "import x from 'x';\nimport * as y from './y';\nexport { z } from './z';\n";
    let analysis = analyze_file("/p/a.ts", source).unwrap();
    let imports = vec![None, Some("/p/y.ts".to_string())];
    let reexports = vec![Some("/p/z.ts".to_string())];
    let known = vec!["y.ts".to_string(), "z.ts".to_string()];
    let edges = resolve_edges(&analysis, &imports, &reexports, "/p", &known);
    assert_eq!(edges.len(), 2);
    assert_eq!((edges[0].target.as_str(), edges[0].kind), ("y.ts", EdgeKind::Import));
    assert_eq!((edges[1].target.as_str(), edges[1].kind), ("z.ts", EdgeKind::ReExport));
    assert_eq!(edges[1].specifier, "./z");
    let fewer = resolve_edges(&analysis, &imports, &reexports, "/p", &vec!["z.ts".to_string()]);
    assert_eq!(fewer.len(), 1);
}

#[test]
fn imports_of_types_are_told_apart() {
    let source = "import type { T } from './t';\nimport { type U, v } from './u';\n";
    let analysis = analyze_file("/p/a.ts", source).unwrap();
    let imports = vec![
        Some("/p/t.ts".to_string()),
        Some("/p/u.ts".to_string()),
        Some("/p/u.ts".to_string()),
    ];
    let known = vec!["t.ts".to_string(), "u.ts".to_string()];
    let edges = resolve_edges(&analysis, &imports, &vec![], "/p", &known);
    assert_eq!(edges[0].kind, EdgeKind::TypeImport);
    assert_eq!(edges[1].kind, EdgeKind::TypeImport);
    assert_eq!(edges[2].kind, EdgeKind::Import);
}

#[test]
fn files_that_were_not_read_anew_keep_their_edges_in_the_graph() {
    let mut index = indexed();
    let mut scan = Scan::new();
    let a = "import { b } from './b';\nexport const a = b;\n";
    look(&mut scan, &mut index, "a.ts", a, 10, BY_HASH);
    look(&mut scan, &mut index, "b.ts", "export function b() { return 1; }\n", 20, BY_HASH);
    assert_eq!(scan.changed.len(), 1);
    let files = vec![changed(&scan.changed[0], &[], &["a.ts", "b.ts"])];
    let graph = build_graph(&index, &scan.all_paths, &files);
    assert_eq!((graph.node_count(), graph.edge_count()), (2, 1));
    assert_eq!((graph.importer_count(0), graph.importer_count(1)), (0, 1));
    let ranks = graph.rank_files(&vec![1.0_f64.to_bits(), 2.0_f64.to_bits()]);
    let mut index = persist(index, &files, &ranks, 100).unwrap();
    assert_eq!(get_file_deps(&index, "a.ts", "imports")[0].file_path, "b.ts");
    let mut without = Scan::new();
    look(&mut without, &mut index, "a.ts", a, 10, BY_HASH);
    settle(&mut index, &without, false);
    let gone = build_graph(&index, &without.all_paths, &vec![]);
    assert_eq!((gone.node_count(), gone.edge_count()), (1, 0));
}

#[test]
fn paths_lose_the_root() {
    assert_eq!(to_relative("/p/src/a.ts", "/p"), "src/a.ts");
    assert_eq!(to_relative("/other/a.ts", "/p"), "/other/a.ts");
    assert_eq!(to_relative("p/a.ts", "p"), "a.ts");
    assert_eq!(to_relative("./p/a.ts", "./p/"), "a.ts");
    assert_eq!(to_relative("./p/a.ts", "p"), "./p/a.ts");
    assert_eq!(to_relative("a.ts", "."), "a.ts");
    assert_eq!(to_relative("./a.ts", "."), "a.ts");
    assert_eq!(to_relative("/p//src/./a//b.ts/", "/p/."), "src/./a//b.ts");
    assert_eq!(to_relative("/p", "/p"), "");
    assert_eq!(to_relative("./a.ts/.", ""), "./a.ts");
}

#[test]
fn ignore_files_are_read() {
    assert!(is_gitignored("dist\n  /.codemap/  \n"));
    assert!(is_gitignored(".codemap\r\n"));
    assert!(!is_gitignored("#.codemap\ncodemap/\n"));
    assert!(!is_gitignored(""));
}

#[test]
fn files_that_are_gone_are_removed() {
    let mut index = indexed();
    let mut scan = Scan::new();
    look(&mut scan, &mut index, "b.ts", "export function b() {}\n", 10, BY_TIME);
    let (text, done) = settle(&mut index, &scan, true);
    assert!(done);
    assert_eq!(
        text,
        "codemap: 0 changed, 1 unchanged\ncodemap: removed 1 stale files from index\ncodemap: up to \
         date (0 changes)\n"
    );
    assert_eq!(get_stats(&index), (1, 1, 0));
    assert_eq!(
        settle(&mut index, &scan, false),
        ("codemap: 0 changed, 1 unchanged\n".to_string(), false)
    );
}

#[test]
fn indexing_is_told() {
    assert_eq!(found_line(2), "codemap: found 2 files\n");
    assert_eq!(found_line(0), "codemap: found 0 files\ncodemap: no JS/TS files found\n");
    let file = |data: Option<FileData>| ChangedFile {
        path: "a.ts".to_string(),
        hash: "h".to_string(),
        mtime: None,
        data,
    };
    let analysis = analyze_file("/p/a.ts", "").unwrap();
    let files = vec![file(None), file(Some(FileData { analysis, edges: vec![] }))];
    assert_eq!(parse_errors_line(&files), "codemap: 1 parse errors\n");
    assert_eq!(parse_errors_line(&vec![]), "");
    assert_eq!(
        indexed_line(5, &files, 3),
        "codemap: indexed 5 files (1 parsed, 3 skipped)\n"
    );
    assert!(warn_if_not_gitignored(None).unwrap().starts_with("codemap: warning: .codemap/ is not"));
    assert!(warn_if_not_gitignored(Some("dist")).is_some());
    assert!(warn_if_not_gitignored(Some(".codemap/")).is_none());
}
