use codemap::api::{ApiError, EnrichmentResult, Surroundings};
use codemap::db::{get_enrichment_stats, insert_symbols, set_enrichment, upsert_file, Index};
use codemap::enrich::{
    done_line, dry_run_report, estimate_prompt_chars, estimate_total_chars, files_to_enrich,
    print_list, print_stats, progress_line, request_for, run_enrich, start_line, store_results,
    EnrichOpts, EnrichStep,
};
use codemap::output::Output;
use codemap::queries::FileWithExports;

/// Nothing but the defaults.
fn opts() -> EnrichOpts<'static> {
    EnrichOpts {
        list: false,
        set: None,
        summary: None,
        when_to_use: None,
        clear: None,
        clear_all: false,
        stats: false,
        api: false,
        api_key: None,
        provider: "gemini",
        model: None,
        top: None,
        force: false,
        dry_run: false,
        concurrency: 4,
        json: false,
        if_available: false,
    }
}

/// No keys.
fn no_keys() -> Surroundings {
    Surroundings { gemini_key: None, anthropic_key: None, anthropic_model: "m".to_string() }
}

/// An index of two files.
fn project() -> Index {
    let mut index = Index::new();
    let a = upsert_file(&mut index, "a.ts", "h", 2.0_f64.to_bits(), 0).unwrap();
    upsert_file(&mut index, "b.js", "h", 1.0_f64.to_bits(), 0).unwrap();
    let symbols = (0..7)
        .map(|i| (format!("f{i}"), "Function".to_string(), true, None, 0))
        .collect();
    insert_symbols(&mut index, a, &symbols).unwrap();
    index
}

/// What is said.
fn said(step: EnrichStep) -> String {
    match step {
        EnrichStep::Said(Output::Stderr(s)) => s,
        other => panic!("{other:?}"),
    }
}

#[test]
fn enrich_stats_json() {
    let mut index = project();
    let step = run_enrich(&mut index, &EnrichOpts { stats: true, ..opts() }, &no_keys(), 1).unwrap();
    assert!(matches!(step, EnrichStep::ShowStats));
    let text = print_stats(&index, "0", true);
    assert!(text.contains("\"total_files\": 2"));
    assert!(text.contains("\"unenriched_files\": 2"));
}

#[test]
fn enrich_if_available_without_key() {
    let mut index = project();
    let options = EnrichOpts { api: true, if_available: true, stats: true, ..opts() };
    assert!(matches!(
        run_enrich(&mut index, &options, &no_keys(), 1).unwrap(),
        EnrichStep::Silent
    ));
    let strict = EnrichOpts { api: true, ..opts() };
    assert!(run_enrich(&mut index, &strict, &no_keys(), 1)
        .unwrap_err()
        .message()
        .starts_with("No Gemini API key found."));
    let with_key = EnrichOpts { api: true, if_available: true, api_key: Some("k"), ..opts() };
    match run_enrich(&mut index, &with_key, &no_keys(), 1).unwrap() {
        EnrichStep::Ask(p) => assert_eq!(p.name(), "gemini"),
        other => panic!("{other:?}"),
    }
}

#[test]
fn summaries_are_set_and_cleared() {
    let mut index = project();
    let set = EnrichOpts {
        set: Some("a.ts"),
        summary: Some("s"),
        when_to_use: Some("w"),
        ..opts()
    };
    assert_eq!(
        said(run_enrich(&mut index, &set, &no_keys(), 5).unwrap()),
        "codemap: enriched a.ts\n"
    );
    assert_eq!(index.files[0].enriched_at, Some(5));
    assert_eq!(
        said(run_enrich(&mut index, &EnrichOpts { clear: Some("a.ts"), ..opts() }, &no_keys(), 5)
            .unwrap()),
        "codemap: cleared enrichment for a.ts\n"
    );
    assert_eq!(get_enrichment_stats(&index).enriched_files, 0);
    run_enrich(&mut index, &set, &no_keys(), 5).unwrap();
    assert_eq!(
        said(run_enrich(&mut index, &EnrichOpts { clear_all: true, ..opts() }, &no_keys(), 5)
            .unwrap()),
        "codemap: cleared enrichment for 1 files\n"
    );
}

#[test]
fn incomplete_commands_are_refused() {
    let mut index = project();
    let bare = EnrichOpts { set: Some("a.ts"), when_to_use: Some("w"), ..opts() };
    assert_eq!(
        run_enrich(&mut index, &bare, &no_keys(), 1).unwrap_err().message(),
        "--summary is required with --set"
    );
    let half = EnrichOpts { set: Some("a.ts"), summary: Some("s"), ..opts() };
    assert_eq!(
        run_enrich(&mut index, &half, &no_keys(), 1).unwrap_err().message(),
        "--when-to-use is required with --set"
    );
    let lost = EnrichOpts { clear: Some("no.ts"), ..opts() };
    assert_eq!(
        run_enrich(&mut index, &lost, &no_keys(), 1).unwrap_err().message(),
        "File not found in index: no.ts"
    );
    assert!(matches!(
        run_enrich(&mut index, &opts(), &no_keys(), 1).unwrap(),
        EnrichStep::ShowStats
    ));
    assert!(matches!(
        run_enrich(&mut index, &EnrichOpts { list: true, api: true, ..opts() }, &no_keys(), 1)
            .unwrap(),
        EnrichStep::ShowList
    ));
}

#[test]
fn counts_and_lists_in_words() {
    let mut index = project();
    assert_eq!(
        print_stats(&index, "0", false),
        "Enrichment: 0/2 files (0%)\n2 files need enrichment. Run `codemap enrich --api` or \
         `codemap enrich --list`.\n"
    );
    let ranks = vec!["2.0".to_string(), "1.0".to_string()];
    assert_eq!(
        print_list(&index, &ranks, false),
        "Files missing enrichment (2 of 2):\n\na.ts\n  exports: f0, f1, f2, f3, f4, ... +2\nb.js\n"
    );
    assert!(print_list(&index, &ranks, true).contains("\"rank\": 2.0"));
    set_enrichment(&mut index, "a.ts", "s", "w", 1).unwrap();
    set_enrichment(&mut index, "b.js", "s", "w", 1).unwrap();
    assert_eq!(print_stats(&index, "100", false), "Enrichment: 2/2 files (100%)\n");
    assert_eq!(print_list(&index, &vec![], true), "[]\n");
}

#[test]
fn files_without_a_summary_are_asked_about() {
    let mut index = project();
    assert_eq!(files_to_enrich(&index, false, None).len(), 2);
    assert_eq!(files_to_enrich(&index, false, Some(1))[0].path, "a.ts");
    set_enrichment(&mut index, "a.ts", "s", "w", 1).unwrap();
    assert_eq!(files_to_enrich(&index, false, None)[0].path, "b.js");
    assert_eq!(files_to_enrich(&index, true, Some(9)).len(), 2);
    let request = request_for(&files_to_enrich(&index, true, Some(1))[0]);
    assert_eq!((request.file_path.as_str(), request.language.as_str()), ("a.ts", "TypeScript"));
    assert_eq!((request.imports.len(), request.exports.len()), (0, 7));
}

/// A summary.
fn result(s: &str) -> EnrichmentResult {
    EnrichmentResult { summary: s.to_string(), when_to_use: "w".to_string() }
}

#[test]
fn summaries_are_stored_all_or_none() {
    let mut index = project();
    let results = vec![
        ("a.ts".to_string(), Ok(result("one"))),
        ("b.js".to_string(), Err(ApiError::NoToolUse)),
        ("no.ts".to_string(), Err(ApiError::NoToolUse)),
    ];
    assert_eq!(store_results(&mut index, &results, 9).unwrap(), (1, 2));
    assert_eq!(index.files[0].summary_enriched.as_deref(), Some("one"));
    let stray = vec![
        ("b.js".to_string(), Ok(result("two"))),
        ("no.ts".to_string(), Ok(result("lost"))),
    ];
    assert_eq!(
        store_results(&mut index, &stray, 9).unwrap_err().message(),
        "File not found in index: no.ts"
    );
    assert_eq!(index.files[1].summary_enriched, None);
}

#[test]
fn progress_is_told_now_and_then() {
    assert_eq!(
        progress_line(10, 40),
        Some("codemap: enriched 10/40 files (25%)...\n".to_string())
    );
    assert_eq!(progress_line(11, 40), None);
    assert_eq!(progress_line(3, 3), Some("codemap: enriched 3/3 files (100%)...\n".to_string()));
    assert_eq!(
        start_line(2, "gemini", 4),
        "codemap: enriching 2 files via gemini (concurrency: 4)...\n"
    );
    assert_eq!(done_line(1, 2), "codemap: done — 1 enriched, 2 failed\n");
}

#[test]
fn prompts_are_estimated() {
    let file = FileWithExports {
        path: "h\u{e9}.ts".to_string(),
        rank: 0,
        exports: vec!["ab".to_string(), "c".to_string()],
    };
    assert_eq!(estimate_prompt_chars(&file), 200 + 6 + 6 + 5);
    assert_eq!(estimate_total_chars(&vec![file]), 217);
    let keys = Surroundings { gemini_key: Some("k".to_string()), ..no_keys() };
    let provider = codemap::api::resolve_provider("gemini", None, None, &keys).unwrap();
    assert_eq!(
        dry_run_report(&provider, 2, "62", "300", "0.0001"),
        "Dry run — gemini provider, 2 files\nEstimated input tokens:  62\nEstimated output tokens: \
         300\nEstimated cost: $0.0001 (Gemini Flash pricing)\n"
    );
}
