use codemap::eval::ab::{
    case_winner, compute_aggregate, make_settings, treatment_system, TaskResult, Variant,
    CONTROL_SYSTEM_PROMPT, TREATMENT_SYSTEM_PROMPT,
};
use codemap::eval::ab_report::{print_ab_report, session_summary, AbTexts, Change, Pair};
use codemap::eval::claude_client::SessionMetrics;
use codemap::eval::dataset::{
    default_language, grades_for, heading, is_selected, parse_filter, paths_for, selected_cases,
    EvalCase, ExpectedFile,
};
use codemap::eval::names::{FileSet, NameMap};
use codemap::json;

/// A set of names.
fn set(names: &[&str]) -> FileSet {
    FileSet::of(&names.iter().map(|n| n.to_string()).collect())
}

/// A session.
fn session(variant: &str, tool_calls: usize, mentioned: &[&str]) -> SessionMetrics {
    SessionMetrics {
        variant: variant.to_string(),
        case_id: "c".to_string(),
        tool_calls,
        tool_calls_by_type: NameMap::new(),
        files_read: set(mentioned),
        files_mentioned: set(mentioned),
        input_tokens: 1000,
        output_tokens: 500,
        turns: 2,
        first_relevant_file_turn: Some(2),
    }
}

/// A case of two sessions.
fn pair(id: &str, control: SessionMetrics, treatment: SessionMetrics) -> TaskResult {
    TaskResult {
        case_id: id.to_string(),
        expected: set(&["a", "b"]),
        control: Some(control),
        treatment: Some(treatment),
    }
}

/// A change in writing.
fn change(control: &str, treatment: &str, change: &str) -> Change {
    Change {
        control: control.to_string(),
        treatment: treatment.to_string(),
        change: change.to_string(),
    }
}

/// A pair in writing.
fn texts(control: &str, treatment: &str) -> Pair {
    Pair { control: control.to_string(), treatment: treatment.to_string() }
}

#[test]
fn recall_decides_and_then_tool_calls() {
    let expected = set(&["a", "b"]);
    let all = session("t", 9, &["a", "b"]);
    let half = session("c", 1, &["a"]);
    assert_eq!(case_winner(&half, &all, &expected), "treat");
    assert_eq!(case_winner(&all, &half, &expected), "ctrl");
    let quick = session("t", 3, &["a", "b"]);
    assert_eq!(case_winner(&all, &quick, &expected), "treat");
    assert_eq!(case_winner(&quick, &all, &expected), "ctrl");
    assert_eq!(case_winner(&quick, &quick, &expected), "tie");
    assert_eq!(case_winner(&all, &half, &set(&[])), "treat");
}

#[test]
fn wins_add_up() {
    let results = vec![
        pair("one", session("c", 4, &["a"]), session("t", 2, &["a", "b"])),
        pair("two", session("c", 4, &["a"]), session("t", 4, &["b"])),
        TaskResult {
            case_id: "three".to_string(),
            expected: set(&["a"]),
            control: Some(session("c", 9, &["a"])),
            treatment: None,
        },
    ];
    let totals = compute_aggregate(&results);
    assert_eq!(totals.count, 2);
    assert_eq!((totals.treatment_wins, totals.control_wins, totals.ties), (1, 0, 1));
    assert_eq!((totals.control.tool_calls, totals.treatment.tool_calls), (8, 6));
    assert_eq!(totals.control.tokens, 3000);
    assert_eq!((totals.treatment.files_read, totals.treatment.first_turns), (3, 4));
    assert_eq!(totals.treatment.first_count, 2);
    assert_eq!(
        (totals.treatment.recall_read[0].hits, totals.treatment.recall_read[0].total),
        (2, 2)
    );
}

#[test]
fn one_side_alone_is_added_up() {
    let results = vec![TaskResult {
        case_id: "one".to_string(),
        expected: set(&["a"]),
        control: None,
        treatment: Some(session("t", 5, &["a"])),
    }];
    let totals = compute_aggregate(&results);
    assert_eq!((totals.count, totals.treatment.tool_calls, totals.control.tool_calls), (1, 5, 0));
    assert_eq!((totals.treatment.first_count, totals.treatment_wins), (0, 0));
    assert_eq!(compute_aggregate(&vec![]).count, 0);
}

#[test]
fn sides_are_reported() {
    let results = vec![pair("one", session("c", 4, &["a"]), session("t", 2, &["a", "b"]))];
    let totals = compute_aggregate(&results);
    let all = AbTexts {
        tool_calls: change("4.0", "2.0", "-50"),
        files_read: change("1.0", "2.0", "+100"),
        recall_read: texts("0.50", "1.00"),
        recall_mentioned: texts("0.50", "1.00"),
        tokens: change("1.5", "1.5", "-0"),
        first_relevant: texts("2.0", "2.0"),
    };
    let rule = "=".repeat(78);
    let dashes = "-".repeat(64);
    let want = format!(
        "\n{rule}\nA/B Eval Results: repo\n{rule}\n\n  Case          C.tools  T.tools   C.tokens   \
         T.tokens   Winner\n  {dashes}\n  one                 4        2       1.5k       1.5k    \
         treat\n\n  {dashes}\n  Overall (1 tasks):\n    Tool calls:     control avg 4.0  ->  \
         treatment avg 2.0  (-50%)\n    Files read:     control avg 1.0  ->  treatment avg 2.0  \
         (+100%)\n    Recall (read):  control avg 0.50 ->  treatment avg 1.00\n    Recall (ment.): \
         control avg 0.50 ->  treatment avg 1.00\n    Tokens:         control avg 1.5k ->  \
         treatment avg 1.5k (-0%)\n    First relevant: control turn 2.0 ->  treatment turn 2.0\n    \
         Win/Loss/Tie:   Treatment wins 1, Control wins 0, Ties 0\n{rule}\n\n"
    );
    assert_eq!(print_ab_report("repo", &results, &vec![texts("1.5", "1.5")], &totals, &all), want);
    assert_eq!(
        session_summary("control:", results[0].control.as_ref().unwrap(), "50", "50"),
        "    control:   4 tools, 1 files read, recall(read)=50% recall(mentioned)=50%, 1000+500 \
         tokens\n"
    );
}

#[test]
fn prompts_and_settings() {
    assert!(Variant::Both.runs_control() && Variant::Both.runs_treatment());
    assert!(!Variant::Treatment.runs_control() && !Variant::Control.runs_treatment());
    assert_eq!(treatment_system("map"), format!("map\n\n{TREATMENT_SYSTEM_PROMPT}"));
    assert!(CONTROL_SYSTEM_PROMPT.starts_with("You are a coding assistant. Your task is to explore"));
    let settings = make_settings("m", 3, 9, Variant::Both);
    assert_eq!(json::as_str(json::get(Some(&settings), "variant")), Some("Both"));
    assert_eq!(json::as_whole(json::get(Some(&settings), "max_input_tokens")), Some(9));
}

#[test]
fn cases_are_selected() {
    let case = |id: &str| EvalCase {
        id: id.to_string(),
        query: "q".to_string(),
        expected_files: vec![
            ExpectedFile { path: "a".to_string(), relevance: 1 },
            ExpectedFile { path: "a".to_string(), relevance: 3 },
        ],
    };
    let cases = vec![case("one"), case("two")];
    let filter = Some(parse_filter(" two ,x"));
    assert_eq!(selected_cases(&cases, &filter), vec![1]);
    assert_eq!(selected_cases(&cases, &None), vec![0, 1]);
    assert!(is_selected(&filter, "x") && !is_selected(&filter, "one"));
    assert_eq!(grades_for(&cases[0].expected_files).get("a"), Some(3));
    assert_eq!(paths_for(&cases[0].expected_files).len(), 1);
    assert_eq!(default_language(), "js/ts");
    assert_eq!(
        heading("A/B", "repo", 2, "m"),
        format!("\nA/B Eval: repo (2 cases, model: m)\n{}\n", "-".repeat(60))
    );
}
