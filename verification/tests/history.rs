use codemap::eval::history::{
    from_rows, get_run, list_runs, read_metrics, save_run, History, RunRow,
};
use codemap::eval::report::{
    archived_line, print_comparison, print_history, print_json, print_table, show_query, CaseTexts,
    MeasureTexts, RunTexts, MEASURES,
};
use codemap::json::{self, Json};

/// The measures of a run.
fn metrics(name: &str) -> Json {
    json::add_member(json::empty_object(), "name", json::text_value(name))
}

/// Keeps a run.
fn keep(history: &mut History, commit: &str, layer: &str, dataset: &str) -> Option<i64> {
    save_run(
        history,
        commit,
        commit == "abc",
        "2026-01-02 03:04:05",
        layer,
        dataset,
        "js/ts",
        &metrics(commit),
        Some(&metrics("config")),
    )
}

/// An archive of three runs.
fn archive() -> History {
    let mut history = from_rows(vec![]).unwrap();
    assert_eq!(keep(&mut history, "abc", "relevance", "one"), Some(1));
    assert_eq!(keep(&mut history, "def", "relevance", "one"), Some(2));
    assert_eq!(keep(&mut history, "xyz", "ab_eval", "one"), Some(3));
    history
}

#[test]
fn saved_runs_are_found() {
    let history = archive();
    let last = get_run(&history, "one", None).unwrap();
    assert_eq!((last.id, last.git_commit.as_str(), last.git_dirty), (2, "def", false));
    assert_eq!(json::as_str(json::get(Some(&last.metrics), "name")), Some("def"));
    let first = get_run(&history, "one", Some("AB")).unwrap();
    assert_eq!((first.id, first.git_dirty), (1, true));
    assert!(get_run(&history, "one", Some("xyz")).is_none());
    assert!(get_run(&history, "two", None).is_none());
    assert_eq!(history.runs[0].metrics, "{\"name\":\"abc\"}");
    assert_eq!(history.runs[0].config.as_deref(), Some("{\"name\":\"config\"}"));
}

#[test]
fn runs_are_listed_newest_first() {
    let history = archive();
    let ids: Vec<i64> = list_runs(&history, Some("one"), 20).iter().map(|r| r.id).collect();
    assert_eq!(ids, vec![2, 1]);
    assert_eq!(list_runs(&history, None, 1).len(), 1);
    assert!(list_runs(&history, Some("two"), 20).is_empty());
}

#[test]
fn rows_are_in_order() {
    let row = |id: i64| RunRow {
        id,
        git_commit: "c".to_string(),
        git_dirty: false,
        timestamp: "t".to_string(),
        layer: "relevance".to_string(),
        dataset: "d".to_string(),
        language: "l".to_string(),
        metrics: "not json".to_string(),
        config: None,
    };
    assert!(from_rows(vec![row(2), row(1)]).is_none());
    let history = from_rows(vec![row(2), row(5)]).unwrap();
    assert!(matches!(get_run(&history, "d", None).unwrap().metrics, Json::Null));
    let mut full = from_rows(vec![row(i64::MAX)]).unwrap();
    assert_eq!(keep(&mut full, "abc", "relevance", "one"), None);
    assert!(matches!(read_metrics(Err("bad".to_string())), Json::Null));
}

#[test]
fn cases_are_shown_in_a_table() {
    let case = |query: &str| CaseTexts {
        query: query.to_string(),
        precision_at_5: "0.20".to_string(),
        precision_at_10: "0.10".to_string(),
        recall_at_10: "1.00".to_string(),
        mrr: "0.50".to_string(),
        ndcg_at_10: "0.63".to_string(),
    };
    let rule = "\u{2500}".repeat(78);
    let line = " 0.20   0.10   1.00   0.50     0.63";
    assert_eq!(
        print_table("repo", "js/ts", &vec![case("find the login")], &case("MEAN")),
        format!(
            "Dataset: repo (js/ts, 1 cases)\n{rule}\n  {:30}    P@5   P@10   R@10    MRR  \
             NDCG@10\n{rule}\n  {:30} {line}\n{rule}\n  {:30} {line}\n\n",
            "Query", "find the login", "MEAN"
        )
    );
    assert_eq!(show_query("abcdefghijklmnopqrstuvwxyz0123"), "abcdefghijklmnopqrstuvwxy...");
    assert_eq!(show_query("abcdefghijklmnopqrstuvwxyz01"), "abcdefghijklmnopqrstuvwxyz01");
}

#[test]
fn runs_are_compared_and_listed() {
    let history = archive();
    let baseline = get_run(&history, "one", Some("abc")).unwrap();
    let measure = MeasureTexts {
        name: MEASURES[0].0.to_string(),
        before: "0.500".to_string(),
        after: "0.750".to_string(),
        delta: "0.250".to_string(),
        percent: "+50.0".to_string(),
    };
    let rule = "\u{2500}".repeat(56);
    assert_eq!(
        print_comparison("one", &baseline, &vec![measure]),
        format!(
            "Dataset: one (comparing against abc @ 2026-01-02)\n{rule}\n  Metric           Before    \
             After    Delta        %\n{rule}\n  MRR               0.500    0.750   0.250   \
             +50.0%\n{rule}\n\n"
        )
    );
    let runs = list_runs(&history, None, 1);
    let texts = RunTexts {
        precision_at_10: "0.10".to_string(),
        recall_at_10: "1.00".to_string(),
        mrr: "0.50".to_string(),
        ndcg_at_10: "0.63".to_string(),
    };
    let rule = "\u{2500}".repeat(78);
    assert_eq!(
        print_history(&runs, &vec![texts]),
        format!(
            "    ID    Commit        Date       Dataset    P@10    R@10     MRR   \
             NDCG@10\n{rule}\n     2      def   2026-01-02           one   0.10   1.00   0.50      \
             0.63\n\n"
        )
    );
    assert_eq!(print_history(&vec![], &vec![]), "No archived runs found.\n");
    assert_eq!(archived_line("one", "abc", true), "Archived: one @ abc (dirty)\n");
}

#[test]
fn reports_as_json() {
    let text = print_json("one", "js/ts", "abc", metrics("mean"), vec![metrics("case")]);
    assert!(text.starts_with("{\n  \""));
    assert!(text.contains("\"git_commit\": \"abc\""));
    assert!(text.contains("\"name\": \"case\""));
    assert!(text.ends_with("}\n"));
}
