use codemap::context::{run_context, suggest_files, Suggestion};
use codemap::db::{insert_edges, insert_symbols, query_symbols, set_enrichment, upsert_file, Index};
use codemap::deps::{format_depth_prefix, gather_deps, normalize_path, run_deps, strip_root};
use codemap::hash::hash_bytes;
use codemap::map::{generate_map, map_files, run_map};
use codemap::mcp::{get_file_deps, lookup_symbol};
use codemap::output::Output;
use codemap::queries::{get_ranked_files_with_enrichment, FileWithExportsAndEnrichment};
use codemap::query::run_query;
use codemap::scorer::{direct_matches, rank_matches, tokenize_query, WeightedMatch};
use codemap::symbol::run_symbol;
use codemap::text::CharClass;

/// An exported function.
fn function(name: &str, line: i32, refs: usize) -> (String, String, bool, Option<i32>, usize) {
    (name.to_string(), "Function".to_string(), true, Some(line), refs)
}

/// An index of three files: `app.ts` imports `greet.ts`, which imports `util.ts`.
fn project() -> Index {
    let mut index = Index::new();
    let app = upsert_file(&mut index, "app.ts", "h1", 0.5_f64.to_bits(), 0).unwrap();
    let greet = upsert_file(&mut index, "greet.ts", "h2", 1.5_f64.to_bits(), 0).unwrap();
    let util = upsert_file(&mut index, "util.ts", "h3", 1.0_f64.to_bits(), 0).unwrap();
    insert_symbols(&mut index, greet, &vec![function("greet", 1, 2)]).unwrap();
    insert_symbols(&mut index, util, &vec![function("format", 3, 1)]).unwrap();
    let to_greet = (greet, "Import".to_string(), Some("./greet".to_string()));
    let to_util = (util, "TypeImport".to_string(), Some("./util".to_string()));
    insert_edges(&mut index, app, &vec![to_greet]).unwrap();
    insert_edges(&mut index, greet, &vec![to_util]).unwrap();
    index
}

/// The answer of a command.
fn stdout(output: Output) -> String {
    match output {
        Output::Stdout(s) => s,
        Output::Stderr(s) => panic!("only a note: {s}"),
    }
}

/// The note of a command.
fn stderr(output: Output) -> String {
    match output {
        Output::Stderr(s) => s,
        Output::Stdout(s) => panic!("an answer: {s}"),
    }
}

// --- deps ---

#[test]
fn dependencies_in_words() {
    let index = project();
    assert_eq!(
        run_deps(&index, "/root", "./greet.ts", "both", 1, false, false).unwrap(),
        "greet.ts\n\nImports (1):\n  util.ts  [TypeImport]\n\nImported by (1):\n  app.ts\n"
    );
    assert_eq!(
        run_deps(&index, "/root", "/root/app.ts", "imports", 2, false, false).unwrap(),
        "app.ts\n\nImports (2):\n  greet.ts  [Import]\n  (depth 2) util.ts  [TypeImport]\n"
    );
    assert_eq!(
        run_deps(&index, "/root", "util.ts", "imports", 1, false, false).unwrap(),
        "util.ts\n\nNo dependencies found.\n"
    );
}

#[test]
fn dependencies_as_json() {
    let index = project();
    let text = run_deps(&index, "/root", "greet.ts", "importers", 1, false, true).unwrap();
    assert!(text.contains("\"total_importers\": 1"));
    assert!(text.contains("\"specifier\": \"./greet\""));
    assert!(text.contains("\"imports\": []"));
    assert!(text.ends_with("}\n"));
}

#[test]
fn dependencies_of_unknown_files() {
    let error = run_deps(&project(), "/root", "no.ts", "both", 1, false, false).unwrap_err();
    assert_eq!(
        error.message(),
        "File not found in index: no.ts. Run `codemap index` first."
    );
}

#[test]
fn long_lists_are_cut_off() {
    let mut index = Index::new();
    let hub = upsert_file(&mut index, "hub.ts", "h", 0, 0).unwrap();
    for i in 0..7 {
        let id = upsert_file(&mut index, &format!("f{i}.ts"), "h", 0, 0).unwrap();
        insert_edges(&mut index, id, &vec![(hub, "Import".to_string(), None)]).unwrap();
    }
    let text = run_deps(&index, "/", "hub.ts", "importers", 1, false, false).unwrap();
    assert!(text.contains("Imported by (7):\n"));
    assert!(text.ends_with("  ... and 2 more (use --all to show all)\n"));
    let all = run_deps(&index, "/", "hub.ts", "importers", 1, true, false).unwrap();
    assert!(all.contains("f6.ts") && !all.contains("more"));
}

#[test]
fn walks_stop_at_their_depth_and_do_not_run_in_circles() {
    let mut index = project();
    let (app, util) = (index.files[0].id, index.files[2].id);
    insert_edges(&mut index, util, &vec![(app, "Import".to_string(), None)]).unwrap();
    assert_eq!(gather_deps(&index, "app.ts", "imports", 0).len(), 0);
    assert_eq!(gather_deps(&index, "app.ts", "imports", 1).len(), 1);
    let far = gather_deps(&index, "app.ts", "imports", 99);
    assert_eq!(far.len(), 3);
    assert_eq!((far[2].file_path.as_str(), far[2].depth), ("app.ts", 3));
}

#[test]
fn paths_are_made_relative() {
    assert_eq!(normalize_path("/root", "/root/src\\a.ts"), "src/a.ts");
    assert_eq!(normalize_path("/root", "/rooted/a.ts"), "/rooted/a.ts");
    assert_eq!(normalize_path("/root", "./a.ts"), "a.ts");
    assert_eq!(normalize_path("/root", "src\\a.ts"), "src/a.ts");
    assert_eq!(normalize_path("/root/", "/root//src/a.ts"), "src/a.ts");
    assert_eq!(normalize_path("root", "root/a.ts"), "root/a.ts");
    assert_eq!(strip_root("root/a.ts", "root"), Some("a.ts".to_string()));
    assert_eq!(strip_root("/root/a.ts", "root"), None);
    assert_eq!(strip_root("/roo/a.ts", "/root"), None);
    assert_eq!(strip_root("/root//a/./b.ts", "/root"), Some("a/./b.ts".to_string()));
    assert_eq!(format_depth_prefix(1), "");
    assert_eq!(format_depth_prefix(2), "(depth 2) ");
}

// --- symbols ---

#[test]
fn symbol_json_output() {
    let index = project();
    let found = query_symbols(&index, "greet", 10, false);
    let sources = vec![Some("export function greet(name: string) {}\n".to_string())];
    let text = stdout(run_symbol(&index, &found, &sources, "greet", false, true));
    assert!(text.contains("\"name\": \"greet\""));
    assert!(text.contains("\"signature\": \"export function greet(name: string)\""));
    assert!(text.contains("\"total_references\": 1"));
}

#[test]
fn symbols_in_words() {
    let index = project();
    let found = query_symbols(&index, "greet", 10, true);
    let text = stdout(run_symbol(&index, &found, &vec![None], "greet", false, false));
    assert_eq!(
        text,
        "greet\n  Defined in:\n    greet.ts:1  [exported Function]\n  Referenced in (1 files):\n    \
         app.ts\n"
    );
}

#[test]
fn symbols_that_are_not_found() {
    let index = project();
    let none = query_symbols(&index, "nope", 10, false);
    assert_eq!(
        stderr(run_symbol(&index, &none, &vec![], "nope", false, false)),
        "No symbols matching 'nope'\n"
    );
    assert_eq!(stdout(run_symbol(&index, &none, &vec![], "nope", false, true)), "[]\n");
    assert_eq!(stderr(run_query(&index, "nope", 10)), "No symbols matching 'nope'\n");
    assert_eq!(lookup_symbol(&index, "nope", None), "No symbols matching 'nope'");
}

#[test]
fn searches_show_place_kind_and_references() {
    let index = project();
    let line = "greet.ts:1  greet Function (exported, 2 refs)\n";
    assert_eq!(stdout(run_query(&index, "gree", 10)), line);
    assert_eq!(lookup_symbol(&index, "gree", Some(5)), line);
    assert_eq!(get_file_deps(&index, "app.ts", None), "imports of app.ts:\n  greet.ts (Import)\n");
    assert_eq!(
        get_file_deps(&index, "app.ts", Some("importers")),
        "No importers found for 'app.ts'"
    );
}

// --- map ---

#[test]
fn index_and_map_on_fixture_project() {
    let index = project();
    let files = get_ranked_files_with_enrichment(&index, 500);
    assert_eq!(files[0].path, "greet.ts");
    let ranks: Vec<String> =
        files.iter().map(|f| format!("{:.2}", f64::from_bits(f.rank))).collect();
    let sources = vec![
        Some("export function greet(name: string) {}\n".to_string()),
        None,
        Some("const app = 1;\n".to_string()),
    ];
    let text = generate_map(&index, &files, &ranks, &sources, "1.0", 1500, false);
    assert_eq!(
        text,
        "## Codebase Map (codemap v1.0)\nIndexed 3 files | 2 exports | 2 import edges\nTop files \
         by structural importance (PageRank):\n\ngreet.ts [rank: 1.50 | 1 importers]\n  export \
         function greet(name: string)\n  → imports: util.ts\n\napp.ts [rank: 0.50 | 0 \
         importers]\n  const app\n  → imports: greet.ts\n\n"
    );
    let with = generate_map(&index, &files, &ranks, &sources, "1.0", 1500, true);
    assert!(with.starts_with(&text) && with.contains("## Codemap Commands"));
    assert_eq!(stdout(run_map(&index, &files, &ranks, &sources, "1.0", 1500, true)), text);
    assert_eq!(
        stderr(run_map(&Index::new(), &vec![], &vec![], &vec![], "1.0", 1500, true)),
        "codemap: index is empty\n"
    );
    let short = generate_map(&index, &files, &ranks, &sources, "1.0", 1, false);
    assert!(!short.contains("greet.ts"));
}

// --- context ---

/// How a match is weighed.
fn weigh(points: u128, rank: u64) -> u64 {
    (points as f64 * f64::from_bits(rank).max(0.01)).to_bits()
}

/// What a match gives its neighbours.
fn damp(score: u64) -> u64 {
    (f64::from_bits(score) * 0.3).to_bits()
}

#[test]
fn words_become_keywords() {
    assert_eq!(tokenize_query("Fix the LOGIN, fix (auth)!"), vec!["fix", "login", "auth"]);
    assert!(tokenize_query("the of -- and").is_empty());
    assert_eq!(tokenize_query("\u{c4}pfel"), vec!["\u{e4}pfel"]);
}

#[test]
fn white_space_is_that_of_unicode() {
    for n in 0..=0x10ffff_u32 {
        if let Some(c) = char::from_u32(n) {
            let known = matches!(
                n,
                0x9..=0xd
                    | 0x20
                    | 0x85
                    | 0xa0
                    | 0x1680
                    | 0x2000..=0x200a
                    | 0x2028
                    | 0x2029
                    | 0x202f
                    | 0x205f
                    | 0x3000
            );
            assert_eq!(CharClass::Space.test(c), known, "{n:x}");
        }
    }
}

#[test]
fn keywords_of_joined_queries_are_joined() {
    let first = "Fix the login";
    let second = "login page, FIX it";
    let both = tokenize_query(&format!("{first} {second}"));
    assert_eq!(both, vec!["fix", "login", "page"]);
    assert_eq!(tokenize_query(&format!("{first} {first}")), tokenize_query(first));
    assert_eq!(tokenize_query(&both.join(" ")), both);
}

#[test]
fn the_last_of_files_with_one_path_counts() {
    let file = |path: &str, rank: u64, exports: &[&str]| FileWithExportsAndEnrichment {
        path: path.to_string(),
        rank,
        exports: exports.iter().map(|e| e.to_string()).collect(),
        summary_enriched: None,
        when_to_use_enriched: None,
    };
    let keywords = vec!["greet".to_string()];
    let files = vec![file("a.ts", 1, &["greet"]), file("b.ts", 5, &["greet"]), file("a.ts", 2, &["Greeter"])];
    let found = direct_matches(&keywords, &files);
    assert_eq!(found.len(), 2);
    assert_eq!((found[0].path.as_str(), found[0].rank, found[0].points), ("a.ts", 2, 2));
    let unfit = vec![file("a.ts", 1, &["greet"]), file("a.ts", 2, &[])];
    assert_eq!(direct_matches(&keywords, &unfit)[0].rank, 1);

    let index = project();
    let matches = vec![WeightedMatch {
        path: "greet.ts".to_string(),
        rank: 0,
        score: 9,
        neighbor_score: 3,
        match_reasons: vec![],
    }];
    let listed = vec![file("util.ts", 7, &[]), file("util.ts", 8, &[])];
    let ranked = rank_matches(&index, &listed, &matches);
    assert!(ranked.iter().any(|f| f.path == "util.ts" && f.rank == 8));
}

#[test]
fn files_are_suggested_by_name_export_and_neighbourhood() {
    let index = project();
    let found = suggest_files(&index, "greet somebody", 10, weigh, damp).unwrap();
    assert_eq!(found[0].path, "greet.ts");
    assert_eq!(f64::from_bits(found[0].score), 7.5);
    assert_eq!(found[0].match_reasons, vec!["greet"]);
    assert_eq!(found.len(), 3);
    assert_eq!(found[1].match_reasons, vec!["neighbor of greet.ts"]);
    assert_eq!(suggest_files(&index, "greet", 1, weigh, damp).unwrap().len(), 1);
    assert_eq!(
        suggest_files(&index, "the", 1, weigh, damp).unwrap_err().message(),
        "No searchable keywords in query after stop-word removal. Try a more specific description."
    );
}

#[test]
fn suggestions_are_shown() {
    let file = |path: &str, content: Result<String, String>| Suggestion {
        path: path.to_string(),
        rank_text: "1.50".to_string(),
        score_number: "7.5".to_string(),
        rank_number: "1.5".to_string(),
        match_reasons: vec!["greet".to_string()],
        content,
    };
    let files = vec![file("a/greet.ts", Ok("x\n".to_string())), file("b.ts", Err("gone".to_string()))];
    assert_eq!(
        stdout(run_context("greet", &files, false, false)),
        "Relevant files for: \"greet\"\n\n  a/greet.ts  [rank: 1.50 | match: greet]\n  \
         b.ts        [rank: 1.50 | match: greet]\n"
    );
    let full = stdout(run_context("greet", &files, true, false));
    assert!(full.ends_with("\n--- a/greet.ts ---\nx\n\n\n--- b.ts ---\n(could not read: gone)\n\n"));
    let text = stdout(run_context("greet", &files, true, true));
    assert!(text.contains("\"score\": 7.5"));
    assert!(text.contains("\"content\": \"x\\n\""));
    assert_eq!(stdout(run_context("q", &vec![], false, true)), "[]\n");
    assert_eq!(
        stderr(run_context("q", &vec![], false, false)),
        "No relevant files found for: \"q\"\n"
    );
}

// --- hashes ---

#[test]
fn hashes_are_those_of_blake3() {
    assert_eq!(
        hash_bytes(b""),
        "af1349b9f5f9a1a6a0404dea36dcc9499bcb25c9adc112b7cc9a93cae41f3262"
    );
    assert_ne!(hash_bytes(b"a"), hash_bytes(b"b"));
    assert_eq!(hash_bytes(b"a").len(), 64);
}

#[test]
fn summaries_count_in_the_ranking() {
    let mut index = project();
    set_enrichment(&mut index, "util.ts", "s", "w", 7).unwrap();
    let files = get_ranked_files_with_enrichment(&index, 2);
    assert_eq!(files.len(), 2);
    assert_eq!(map_files(&index).len(), 3);
    assert_eq!(map_files(&index)[0].path, "greet.ts");
    assert_eq!(files[1].summary_enriched.as_deref(), Some("s"));
}
