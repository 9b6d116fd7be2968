use codemap::api::Surroundings;
use codemap::eval::e2e::{
    best_file_set, compute_aggregate, detect_enrichment_model, has_comparison, has_enriched,
    keys_suffice, make_settings, multi_case_winner, pick_winner, precision_from_identified,
    session_summary, task_prompt, verbose_report, Candidate, SessionTexts, TaskResult, Variant,
};
use codemap::eval::e2e_report::{
    markdown_report, print_e2e_report, write_dataset_section, E2eTexts, ResultTexts, Row,
};
use codemap::eval::metrics::Share;
use codemap::eval::names::{FileSet, NameMap};
use codemap::eval::session::{RawSessionOutput, SessionMetrics};
use codemap::eval::workspace::{
    repo_step, system_prompt, RepoStep, WorkspaceKind, CODEMAP_INSTRUCTIONS, LEFT_OUT,
};
use codemap::json;

/// A set of names.
fn set(names: &[&str]) -> FileSet {
    FileSet::of(&names.iter().map(|n| n.to_string()).collect())
}

/// A session.
fn session(variant: &str, tool_calls: usize, identified: &[&str]) -> SessionMetrics {
    SessionMetrics {
        variant: variant.to_string(),
        case_id: "c".to_string(),
        tool_calls,
        tool_calls_by_name: NameMap::new(),
        codemap_calls: 1,
        files_read: set(&["a"]),
        files_identified: identified.iter().map(|n| n.to_string()).collect(),
        files_mentioned: set(&["b"]),
        input_tokens: 2000,
        output_tokens: 100,
        wall_clock_ms: 1500,
        turns: 1,
        first_relevant_file_turn: Some(3),
    }
}

/// A case.
fn case(
    control: Option<SessionMetrics>,
    treatment: Option<SessionMetrics>,
    enriched: Option<SessionMetrics>,
) -> TaskResult {
    TaskResult {
        case_id: "one".to_string(),
        expected: set(&["a", "b"]),
        control,
        treatment,
        enriched,
    }
}

/// One that may win.
fn candidate(name: &'static str, hits: usize, total: usize, tool_calls: usize) -> Candidate {
    Candidate { name, recall: Share { hits, total }, tool_calls }
}

/// A row in writing.
fn row(control: &str, treatment: &str, enriched: &str, delta: &str) -> Row {
    Row {
        control: control.to_string(),
        treatment: treatment.to_string(),
        enriched: enriched.to_string(),
        delta: delta.to_string(),
    }
}

/// The rows of a report.
fn all_rows() -> E2eTexts {
    E2eTexts {
        recall: row("0.50", "1.00", "1.00", "+100"),
        precision: row("1.00", "1.00", "1.00", "-0"),
        tool_calls: row("4.0", "2.0", "2.0", "-50"),
        input_tokens: row("2.0", "2.0", "2.0", "-0"),
        output_tokens: row("0.1", "0.1", "0.1", "-0"),
        wall_time: row("1.5", "1.5", "1.5", "-0"),
        codemap_calls: row("1.0", "1.0", "1.0", "n/a"),
    }
}

/// A case in writing.
fn case_texts() -> ResultTexts {
    ResultTexts {
        control_recall: "50".to_string(),
        treatment_recall: "100".to_string(),
        enriched_recall: "100".to_string(),
        tokens: "2.1".to_string(),
        seconds: "1.5".to_string(),
    }
}

#[test]
fn best_recall_wins_and_then_fewest_tool_calls() {
    assert_eq!(pick_winner(&vec![]), "n/a");
    assert_eq!(pick_winner(&vec![candidate("control", 0, 2, 9)]), "control");
    assert_eq!(
        pick_winner(&vec![candidate("control", 1, 2, 1), candidate("treatment", 2, 2, 9)]),
        "treatment"
    );
    assert_eq!(
        pick_winner(&vec![candidate("control", 2, 2, 5), candidate("treatment", 2, 2, 4)]),
        "treatment"
    );
    assert_eq!(
        pick_winner(&vec![candidate("control", 2, 2, 4), candidate("treatment", 2, 2, 4)]),
        "tie"
    );
    assert_eq!(
        pick_winner(&vec![candidate("control", 200, 200, 9), candidate("treatment", 199, 200, 2)]),
        "treatment"
    );
    assert_eq!(
        pick_winner(&vec![
            candidate("control", 1, 2, 1),
            candidate("treatment", 2, 2, 6),
            candidate("enriched", 2, 2, 5),
        ]),
        "enriched"
    );
}

#[test]
fn listed_files_count_before_mentioned_ones() {
    assert!(best_file_set(&session("c", 1, &["a"])).contains("a"));
    assert!(best_file_set(&session("c", 1, &[])).contains("b"));
    let listed = vec!["a".to_string(), "x".to_string(), "a".to_string()];
    let p = precision_from_identified(&listed, &set(&["a"]));
    assert_eq!((p.hits, p.total), (2, 3));
    assert_eq!(
        multi_case_winner(
            &Some(session("control", 4, &["a"])),
            &None,
            &Some(session("enriched", 4, &["a", "b"])),
            &set(&["a", "b"]),
        ),
        "enriched"
    );
}

#[test]
fn sessions_are_added_up() {
    let results = vec![
        case(
            Some(session("control", 4, &["a"])),
            Some(session("treatment", 2, &["a", "b"])),
            None,
        ),
        case(Some(session("control", 7, &["a"])), None, None),
    ];
    assert!(has_comparison(&results) && !has_enriched(&results));
    let totals = compute_aggregate(&results);
    assert_eq!((totals.count, totals.treatment_wins, totals.ties), (1, 1, 0));
    assert_eq!((totals.control.tool_calls, totals.treatment.tool_calls), (4, 2));
    assert_eq!((totals.control.wall_time_ms, totals.control.first_turns), (1500, 3));
    assert_eq!((totals.control.recall[0].hits, totals.control.recall[0].total), (1, 2));
    let alone = vec![case(Some(session("control", 7, &["a"])), None, None)];
    let totals = compute_aggregate(&alone);
    assert_eq!((totals.count, totals.control.tool_calls, totals.control_wins), (1, 7, 0));
    assert_eq!(totals.control.first_count, 0);
    assert!(!has_comparison(&alone));
}

#[test]
fn two_sides_are_reported() {
    let results = vec![case(
        Some(session("control", 4, &["a"])),
        Some(session("treatment", 2, &["a", "b"])),
        None,
    )];
    let totals = compute_aggregate(&results);
    let rule = "\u{2550}".repeat(66);
    let line = "\u{2500}".repeat(52);
    let want = format!(
        "\n{rule}\nEnd-to-End Eval: repo (1 tasks, model: m)\n{rule}\n\n  Metric                  \
         Control  Treatment      Delta\n  {line}\n  Recall                     0.50       1.00      \
         +100%\n"
    );
    let text = print_e2e_report(
        "repo",
        &results,
        &vec![case_texts()],
        &totals,
        &all_rows(),
        "m",
        &None,
    );
    assert!(text.starts_with(&want), "{text}");
    assert!(text.contains("  Input tokens               2.0k       2.0k        -0%\n"));
    assert!(text.contains("  Wall time                  1.5s       1.5s        -0%\n"));
    assert!(text.contains("  Codemap calls               1.0        1.0        n/a\n"));
    assert!(text.ends_with(&format!(
        "\n  Win/Loss/Tie: Treatment 1 / Control 0 / Tie 0\n{rule}\n\n"
    )));
    let section =
        write_dataset_section("repo", &results, &vec![case_texts()], &totals, &all_rows());
    assert!(section.starts_with(
        "## repo (1 tasks)\n\n| Metric | Control | Treatment | Delta |\n\
         |--------|---------|-----------|-------|\n| Recall | 0.50 | 1.00 | +100% |\n"
    ));
    assert!(section.contains("| one | 4 | 2 | 50% | 100% | treatment |\n\n</details>\n"));
    let page = markdown_report("m", "abc", &Some("g".to_string()), &vec![section.clone()]);
    assert!(page.starts_with(
        "# E2E Eval Results\n\n> Auto-generated by `codemap-eval e2e`. Commit: `abc` | Model: `m` | \
         Enrichment model: `g`\n\n## How to read these results\n"
    ));
    assert!(page.ends_with(&format!("\n{section}")));
}

#[test]
fn three_sides_and_one_side_are_reported() {
    let results = vec![case(
        Some(session("control", 4, &["a"])),
        None,
        Some(session("enriched", 2, &["a", "b"])),
    )];
    let totals = compute_aggregate(&results);
    let text = print_e2e_report(
        "repo",
        &results,
        &vec![case_texts()],
        &totals,
        &all_rows(),
        "m",
        &Some("g".to_string()),
    );
    assert!(text.contains("(1 tasks, model: m, enrichment: g)"));
    assert!(text.contains("  Wins: Treatment 0 / Enriched 1 / Control 0 / Tie 0\n"));
    let section =
        write_dataset_section("repo", &results, &vec![case_texts()], &totals, &all_rows());
    assert!(section.contains("| one | 4 | - | 2 | 50% | - | 100% | enriched |\n"));

    let alone = vec![case(None, Some(session("treatment", 7, &["a"])), None)];
    let totals = compute_aggregate(&alone);
    let text =
        print_e2e_report("repo", &alone, &vec![case_texts()], &totals, &all_rows(), "m", &None);
    assert!(text.contains("  one          [treatment] 7 tools, 1 files read, 2.1k tokens, 1.5s\n"));
    let section = write_dataset_section("repo", &alone, &vec![case_texts()], &totals, &all_rows());
    assert!(section.contains("| Case | Variant | Tools | Files read | Tokens | Time |\n"));
    assert!(section.contains("| one | treatment | 7 | 1 | 2.1k | 1.5s |\n"), "{section}");
}

#[test]
fn keys_are_needed_for_summaries() {
    let keys = |gemini: Option<&str>, anthropic: Option<&str>| Surroundings {
        gemini_key: gemini.map(|k| k.to_string()),
        anthropic_key: anthropic.map(|k| k.to_string()),
        anthropic_model: "m".to_string(),
    };
    assert_eq!(
        detect_enrichment_model(&keys(Some("k"), Some("k"))).as_deref(),
        Some("gemini (gemini-2.5-flash-lite)")
    );
    assert_eq!(
        detect_enrichment_model(&keys(Some(""), Some("k"))).as_deref(),
        Some("anthropic (m)")
    );
    assert_eq!(detect_enrichment_model(&keys(None, None)), None);
    assert!(!keys_suffice(Variant::All, &keys(Some(""), None)));
    assert!(keys_suffice(Variant::Enriched, &keys(None, Some("k"))));
    assert!(keys_suffice(Variant::Control, &keys(None, None)));
}

#[test]
fn sessions_are_told() {
    let t = SessionTexts {
        recall: "50".to_string(),
        precision: "100".to_string(),
        input_tokens: "2.0".to_string(),
        output_tokens: "0.1".to_string(),
        seconds: "1.5".to_string(),
    };
    assert_eq!(
        session_summary("control", &session("control", 4, &["a"]), &t),
        "    control    4 tools, 1 files read, recall=50% precision=100%, 2.0k in + 0.1k out \
         tokens, 1.5s\n               codemap calls: 1\n"
    );
    let raw = |exit_code: Option<i32>| RawSessionOutput {
        stdout: "one\ntwo\n".to_string(),
        stderr: "e".repeat(600),
        exit_code,
        wall_clock_ms: 1,
    };
    let errors = "e".repeat(500);
    assert_eq!(
        verbose_report("control", &raw(Some(0))),
        format!(
            "    [control exit code]: Some(0)\n    [control stderr]: {errors}\n    [control stdout \
             lines]: 2\n"
        )
    );
    assert!(verbose_report("control", &raw(None)).ends_with(
        "    [control stdout]: one\n    [control stdout]: two\n"
    ));
    assert!(verbose_report("control", &raw(Some(-1))).starts_with("    [control exit code]: Some(-1)"));
}

#[test]
fn workspaces_and_tasks() {
    assert!(Variant::All.runs(WorkspaceKind::Enriched));
    assert!(!Variant::Control.runs(WorkspaceKind::Treatment));
    assert_eq!(WorkspaceKind::Treatment.label(), "treatment");
    assert_eq!(system_prompt(WorkspaceKind::Control, "map"), None);
    assert_eq!(
        system_prompt(WorkspaceKind::Enriched, "map"),
        Some(format!("map\n\n{CODEMAP_INSTRUCTIONS}"))
    );
    assert_eq!(LEFT_OUT, [".git", ".codemap", "node_modules"]);
    assert!(matches!(repo_step(true, "", "d"), RepoStep::Use { note } if note == "Using cached repo: d\n"));
    assert!(matches!(
        repo_step(false, "u", "d"),
        RepoStep::Clone { note } if note == "Cloning u into d...\n"
    ));
    assert!(matches!(
        repo_step(false, "", "d"),
        RepoStep::Stop { message } if message.starts_with("No repo_url in dataset and no cached")
    ));
    let task = task_prompt("fix it");
    assert!(task.starts_with("Your task: fix it\n\nExplore the codebase"));
    assert!(task.ends_with("{\"relevant_files\": [\"path/to/file1.ts\", \"path/to/file2.ts\"]}"));
    let settings = make_settings("m", 3, 60, Variant::All, &None);
    assert_eq!(json::as_whole(json::get(Some(&settings), "timeout_secs")), Some(60));
    assert!(matches!(
        json::get(Some(&settings), "enrichment_model"),
        Some(json::Json::Null)
    ));
}
