use codemap::db::{
    clear_all_enrichments, clear_enrichment, delete_stale_files, get_enrichment_stats, get_file_deps,
    get_file_hash, get_file_id, get_file_mtime, get_files_with_exports, get_importer_counts,
    get_ranked_files_with_enrichment, get_stats, insert_edges, insert_symbols, query_symbols,
    set_enrichment, update_file_mtime, update_ranks, upsert_file, EdgeRow, FileRow, Index,
    SymbolRow,
};

/// A time.
const NOW: i64 = 1_700_000_000;

/// A rank, as it stands in the index.
fn bits(rank: f64) -> u64 {
    rank.to_bits()
}

/// An exported function.
fn function(name: &str, line: i32) -> (String, String, bool, Option<i32>, usize) {
    (name.to_string(), "function".to_string(), true, Some(line), 0)
}

// --- upsert_file ---

#[test]
fn upsert_inserts_new_file() {
    let mut index = Index::new();
    let id = upsert_file(&mut index, "src/foo.ts", "abc123", bits(0.5), NOW).unwrap();
    assert!(id > 0);
    assert_eq!(get_file_hash(&index, "src/foo.ts").unwrap(), "abc123");
}

#[test]
fn upsert_updates_existing_file() {
    let mut index = Index::new();
    let id1 = upsert_file(&mut index, "src/foo.ts", "abc123", bits(0.5), NOW).unwrap();
    let id2 = upsert_file(&mut index, "src/foo.ts", "def456", bits(0.8), NOW).unwrap();
    assert_eq!(id1, id2);
    assert_eq!(get_file_hash(&index, "src/foo.ts").unwrap(), "def456");
}

#[test]
fn upsert_clears_enrichment_on_hash_change() {
    let mut index = Index::new();
    upsert_file(&mut index, "src/foo.ts", "abc123", bits(0.5), NOW).unwrap();
    set_enrichment(&mut index, "src/foo.ts", "A summary", "When to use", NOW).unwrap();

    upsert_file(&mut index, "src/foo.ts", "different_hash", bits(0.5), NOW).unwrap();

    let stats = get_enrichment_stats(&index);
    assert_eq!(stats.enriched_files, 0);
}

#[test]
fn upsert_preserves_enrichment_on_same_hash() {
    let mut index = Index::new();
    upsert_file(&mut index, "src/foo.ts", "abc123", bits(0.5), NOW).unwrap();
    set_enrichment(&mut index, "src/foo.ts", "A summary", "When to use", NOW).unwrap();

    upsert_file(&mut index, "src/foo.ts", "abc123", bits(0.8), NOW).unwrap();

    let stats = get_enrichment_stats(&index);
    assert_eq!(stats.enriched_files, 1);
}

// --- get_file_hash / get_file_id ---

#[test]
fn get_hash_nonexistent() {
    let index = Index::new();
    assert!(get_file_hash(&index, "nope.ts").is_none());
}

#[test]
fn get_id_nonexistent() {
    let index = Index::new();
    assert!(get_file_id(&index, "nope.ts").is_none());
}

#[test]
fn get_id_after_upsert() {
    let mut index = Index::new();
    let id = upsert_file(&mut index, "src/foo.ts", "abc", bits(0.0), NOW).unwrap();
    assert_eq!(get_file_id(&index, "src/foo.ts").unwrap(), id);
}

// --- delete_stale_files ---

#[test]
fn delete_stale_removes_unknown_files() {
    let mut index = Index::new();
    upsert_file(&mut index, "keep.ts", "a", bits(0.0), NOW).unwrap();
    upsert_file(&mut index, "stale.ts", "b", bits(0.0), NOW).unwrap();

    let deleted = delete_stale_files(&mut index, &vec!["keep.ts".to_string()]);
    assert_eq!(deleted, 1);
    assert!(get_file_hash(&index, "stale.ts").is_none());
    assert!(get_file_hash(&index, "keep.ts").is_some());
}

#[test]
fn delete_stale_empty_known_deletes_all() {
    let mut index = Index::new();
    upsert_file(&mut index, "a.ts", "a", bits(0.0), NOW).unwrap();
    upsert_file(&mut index, "b.ts", "b", bits(0.0), NOW).unwrap();

    let deleted = delete_stale_files(&mut index, &Vec::new());
    assert_eq!(deleted, 2);
}

// --- insert_symbols / query_symbols ---

#[test]
fn insert_and_query_symbols() {
    let mut index = Index::new();
    let id = upsert_file(&mut index, "src/foo.ts", "abc", bits(0.0), NOW).unwrap();
    let symbols = vec![
        (
            "doThing".to_string(),
            "function".to_string(),
            true,
            Some(1),
            3_usize,
        ),
        (
            "helper".to_string(),
            "function".to_string(),
            false,
            Some(5),
            1_usize,
        ),
    ];
    insert_symbols(&mut index, id, &symbols).unwrap();

    let results = query_symbols(&index, "doThing", 10, true);
    assert_eq!(results.len(), 1);
    assert_eq!(results[0].name, "doThing");
    assert!(results[0].is_exported);
    assert_eq!(results[0].ref_count, 3);
}

#[test]
fn query_symbols_substring() {
    let mut index = Index::new();
    let id = upsert_file(&mut index, "src/foo.ts", "abc", bits(0.0), NOW).unwrap();
    let symbols = vec![
        (
            "handleClick".to_string(),
            "function".to_string(),
            true,
            Some(1),
            0_usize,
        ),
        (
            "handleSubmit".to_string(),
            "function".to_string(),
            true,
            Some(5),
            0_usize,
        ),
    ];
    insert_symbols(&mut index, id, &symbols).unwrap();

    let results = query_symbols(&index, "handle", 10, false);
    assert_eq!(results.len(), 2);
}

#[test]
fn query_symbols_respects_limit() {
    let mut index = Index::new();
    let id = upsert_file(&mut index, "src/foo.ts", "abc", bits(0.0), NOW).unwrap();
    let symbols: Vec<_> = (0..10)
        .map(|i| {
            (
                format!("sym{i}"),
                "variable".to_string(),
                true,
                Some(i),
                0_usize,
            )
        })
        .collect();
    insert_symbols(&mut index, id, &symbols).unwrap();

    let results = query_symbols(&index, "sym", 3, false);
    assert_eq!(results.len(), 3);
}

#[test]
fn insert_symbols_replaces_previous() {
    let mut index = Index::new();
    let id = upsert_file(&mut index, "src/foo.ts", "abc", bits(0.0), NOW).unwrap();

    let syms1 = vec![(
        "old".to_string(),
        "function".to_string(),
        true,
        Some(1),
        0_usize,
    )];
    insert_symbols(&mut index, id, &syms1).unwrap();

    let syms2 = vec![(
        "new_sym".to_string(),
        "function".to_string(),
        true,
        Some(1),
        0_usize,
    )];
    insert_symbols(&mut index, id, &syms2).unwrap();

    assert!(query_symbols(&index, "old", 10, true).is_empty());
    assert_eq!(query_symbols(&index, "new_sym", 10, true).len(), 1);
}

// --- insert_edges / get_file_deps ---

#[test]
fn insert_and_query_edges() {
    let mut index = Index::new();
    let id_a = upsert_file(&mut index, "a.ts", "a", bits(0.0), NOW).unwrap();
    let id_b = upsert_file(&mut index, "b.ts", "b", bits(0.0), NOW).unwrap();

    let edges = vec![(id_b, "import".to_string(), Some("foo".to_string()))];
    insert_edges(&mut index, id_a, &edges).unwrap();

    let imports = get_file_deps(&index, "a.ts", "imports");
    assert_eq!(imports.len(), 1);
    assert_eq!(imports[0].file_path, "b.ts");

    let importers = get_file_deps(&index, "b.ts", "importers");
    assert_eq!(importers.len(), 1);
    assert_eq!(importers[0].file_path, "a.ts");
}

// --- update_ranks ---

#[test]
fn update_ranks_changes_rank() {
    let mut index = Index::new();
    upsert_file(&mut index, "a.ts", "a", bits(0.0), NOW).unwrap();
    upsert_file(&mut index, "b.ts", "b", bits(0.0), NOW).unwrap();

    let ranks = vec![("a.ts".to_string(), bits(0.9)), ("b.ts".to_string(), bits(0.1))];
    update_ranks(&mut index, &ranks);

    let files = get_ranked_files_with_enrichment(&index, 10);
    assert_eq!(files[0].path, "a.ts");
    assert!((f64::from_bits(files[0].rank) - 0.9).abs() < f64::EPSILON);
}

// --- get_stats ---

#[test]
fn get_stats_counts() {
    let mut index = Index::new();
    let id = upsert_file(&mut index, "a.ts", "a", bits(0.0), NOW).unwrap();
    let id_b = upsert_file(&mut index, "b.ts", "b", bits(0.0), NOW).unwrap();
    insert_symbols(
        &mut index,
        id,
        &vec![(
            "foo".to_string(),
            "function".to_string(),
            true,
            Some(1),
            0_usize,
        )],
    )
    .unwrap();
    insert_edges(&mut index, id, &vec![(id_b, "import".to_string(), None)]).unwrap();

    let (files, exports, edges) = get_stats(&index);
    assert_eq!(files, 2);
    assert_eq!(exports, 1);
    assert_eq!(edges, 1);
}

// --- enrichment ---

#[test]
fn set_and_get_enrichment() {
    let mut index = Index::new();
    upsert_file(&mut index, "a.ts", "a", bits(0.0), NOW).unwrap();
    set_enrichment(&mut index, "a.ts", "File summary", "When modifying X", NOW).unwrap();

    let stats = get_enrichment_stats(&index);
    assert_eq!(stats.total_files, 1);
    assert_eq!(stats.enriched_files, 1);

    let files = get_ranked_files_with_enrichment(&index, 10);
    assert_eq!(files[0].summary_enriched.as_deref(), Some("File summary"));
    assert_eq!(
        files[0].when_to_use_enriched.as_deref(),
        Some("When modifying X")
    );
}

#[test]
fn set_enrichment_nonexistent_file() {
    let mut index = Index::new();
    assert!(set_enrichment(&mut index, "nope.ts", "summary", "when", NOW).is_err());
}

#[test]
fn clear_enrichment_single() {
    let mut index = Index::new();
    upsert_file(&mut index, "a.ts", "a", bits(0.0), NOW).unwrap();
    set_enrichment(&mut index, "a.ts", "summary", "when", NOW).unwrap();
    clear_enrichment(&mut index, "a.ts").unwrap();

    assert_eq!(get_enrichment_stats(&index).enriched_files, 0);
}

#[test]
fn clear_enrichment_nonexistent() {
    let mut index = Index::new();
    assert!(clear_enrichment(&mut index, "nope.ts").is_err());
}

#[test]
fn clear_all_enrichments_works() {
    let mut index = Index::new();
    upsert_file(&mut index, "a.ts", "a", bits(0.0), NOW).unwrap();
    upsert_file(&mut index, "b.ts", "b", bits(0.0), NOW).unwrap();
    set_enrichment(&mut index, "a.ts", "s1", "w1", NOW).unwrap();
    set_enrichment(&mut index, "b.ts", "s2", "w2", NOW).unwrap();

    assert_eq!(clear_all_enrichments(&mut index), 2);
    assert_eq!(get_enrichment_stats(&index).enriched_files, 0);
}

// --- get_files_with_exports ---

#[test]
fn files_with_exports_unenriched_filter() {
    let mut index = Index::new();
    let id_a = upsert_file(&mut index, "a.ts", "a", bits(0.5), NOW).unwrap();
    let id_b = upsert_file(&mut index, "b.ts", "b", bits(0.3), NOW).unwrap();
    insert_symbols(
        &mut index,
        id_a,
        &vec![(
            "foo".to_string(),
            "function".to_string(),
            true,
            Some(1),
            0_usize,
        )],
    )
    .unwrap();
    insert_symbols(
        &mut index,
        id_b,
        &vec![(
            "bar".to_string(),
            "function".to_string(),
            true,
            Some(1),
            0_usize,
        )],
    )
    .unwrap();
    set_enrichment(&mut index, "a.ts", "summary", "when", NOW).unwrap();

    let unenriched = get_files_with_exports(&index, true);
    assert_eq!(unenriched.len(), 1);
    assert_eq!(unenriched[0].path, "b.ts");

    let all = get_files_with_exports(&index, false);
    assert_eq!(all.len(), 2);
}

// --- mtime ---

#[test]
fn file_mtime_roundtrip() {
    let mut index = Index::new();
    upsert_file(&mut index, "a.ts", "a", bits(0.0), NOW).unwrap();
    assert!(get_file_mtime(&index, "a.ts").is_none());

    update_file_mtime(&mut index, "a.ts", 1234567890);
    assert_eq!(get_file_mtime(&index, "a.ts").unwrap(), 1234567890);
}

// --- importer_counts ---

#[test]
fn importer_counts() {
    let mut index = Index::new();
    let id_a = upsert_file(&mut index, "a.ts", "a", bits(0.0), NOW).unwrap();
    let id_b = upsert_file(&mut index, "b.ts", "b", bits(0.0), NOW).unwrap();
    let id_c = upsert_file(&mut index, "c.ts", "c", bits(0.0), NOW).unwrap();

    insert_edges(&mut index, id_a, &vec![(id_c, "import".to_string(), None)]).unwrap();
    insert_edges(&mut index, id_b, &vec![(id_c, "import".to_string(), None)]).unwrap();

    let counts = get_importer_counts(&index);
    assert_eq!(*counts.get(&id_c).unwrap(), 2);
    assert!(!counts.contains_key(&id_a));
}

// --- what is kept, and what is not ---

#[test]
fn upsert_replaces_hash_rank_and_time() {
    let mut index = Index::new();
    upsert_file(&mut index, "a.ts", "one", bits(0.25), 10).unwrap();
    upsert_file(&mut index, "a.ts", "two", bits(0.5), 20).unwrap();
    assert_eq!(index.files.len(), 1);
    assert_eq!(index.files[0].hash, "two");
    assert_eq!(f64::from_bits(index.files[0].rank), 0.5);
    assert_eq!(index.files[0].updated_at, 20);
}

#[test]
fn stale_files_take_their_symbols_and_edges_along() {
    let mut index = Index::new();
    let a = upsert_file(&mut index, "a.ts", "a", bits(0.0), NOW).unwrap();
    let b = upsert_file(&mut index, "b.ts", "b", bits(0.0), NOW).unwrap();
    insert_symbols(&mut index, b, &vec![function("gone", 1)]).unwrap();
    insert_edges(&mut index, a, &vec![(b, "Import".to_string(), None)]).unwrap();

    assert_eq!(delete_stale_files(&mut index, &vec!["a.ts".to_string()]), 1);
    assert_eq!(get_stats(&index), (1, 0, 0));
}

#[test]
fn edges_to_unknown_files_are_refused() {
    let mut index = Index::new();
    let a = upsert_file(&mut index, "a.ts", "a", bits(0.0), NOW).unwrap();
    let error = insert_edges(&mut index, a, &vec![(99, "Import".to_string(), None)]).unwrap_err();
    assert_eq!(error.message(), "FOREIGN KEY constraint failed");
}

#[test]
fn unknown_files_are_named_in_the_error() {
    let mut index = Index::new();
    let error = set_enrichment(&mut index, "nope.ts", "s", "w", NOW).unwrap_err();
    assert_eq!(error.message(), "File not found in index: nope.ts");
}

#[test]
fn search_takes_patterns_and_forgets_case() {
    let mut index = Index::new();
    let id = upsert_file(&mut index, "a.ts", "a", bits(0.0), NOW).unwrap();
    insert_symbols(
        &mut index,
        id,
        &vec![function("handleClick", 1), function("HANDLE", 2), function("other", 3)],
    )
    .unwrap();
    assert_eq!(query_symbols(&index, "handle", 10, false).len(), 2);
    assert_eq!(query_symbols(&index, "h_ndle", 10, false).len(), 2);
    assert_eq!(query_symbols(&index, "h%k", 10, false).len(), 1);
    assert_eq!(query_symbols(&index, "handle", 10, true).len(), 0);
}

#[test]
fn files_come_by_rank_and_then_by_path() {
    let mut index = Index::new();
    upsert_file(&mut index, "c.ts", "c", bits(0.1), NOW).unwrap();
    upsert_file(&mut index, "b.ts", "b", bits(0.1), NOW).unwrap();
    upsert_file(&mut index, "a.ts", "a", bits(0.05), NOW).unwrap();
    let paths: Vec<String> =
        get_files_with_exports(&index, false).into_iter().map(|f| f.path).collect();
    assert_eq!(paths, vec!["b.ts", "c.ts", "a.ts"]);
}

/// A file row.
fn file(id: i64, path: &str) -> FileRow {
    FileRow {
        id,
        path: path.to_string(),
        hash: String::new(),
        rank: 0,
        updated_at: 0,
        mtime: None,
        summary_enriched: None,
        when_to_use_enriched: None,
        enriched_at: None,
    }
}

#[test]
fn rows_must_keep_the_rules_of_the_index() {
    assert!(Index::from_rows(vec![file(1, "a.ts"), file(2, "b.ts")], vec![], vec![]).is_some());
    assert!(Index::from_rows(vec![file(1, "a.ts"), file(2, "a.ts")], vec![], vec![]).is_none());
    assert!(Index::from_rows(vec![file(2, "a.ts"), file(1, "b.ts")], vec![], vec![]).is_none());
    let symbol = SymbolRow {
        id: 1,
        file_id: 7,
        name: "x".to_string(),
        kind: "Variable".to_string(),
        is_exported: true,
        line: None,
        ref_count: 0,
    };
    assert!(Index::from_rows(vec![file(1, "a.ts")], vec![symbol], vec![]).is_none());
    let edge = EdgeRow {
        id: 1,
        source_id: 1,
        target_id: 7,
        edge_type: "Import".to_string(),
        specifier: None,
    };
    assert!(Index::from_rows(vec![file(1, "a.ts")], vec![], vec![edge]).is_none());
}
