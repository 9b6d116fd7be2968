use codemap::db::{insert_edges, insert_symbols, upsert_file, Index};
use codemap::eval::dataset::{
    default_language, grades_for, heading, is_selected, parse_filter, paths_for, selected_cases,
    EvalCase, ExpectedFile,
};
use codemap::eval::metrics::{
    gains_at_k, ideal_gains, is_clearly_larger, precision_at_k, recall, recall_at_k,
    reciprocal_rank, score_dataset, CaseMetrics, Share,
};
use codemap::eval::names::{count, FileSet, NameMap};
use codemap::queries::get_all_files_with_exports_and_enrichment;

/// A list of names.
fn list(names: &[&str]) -> Vec<String> {
    names.iter().map(|n| n.to_string()).collect()
}

/// A set of names.
fn set(names: &[&str]) -> FileSet {
    FileSet::of(&list(names))
}

/// Grades by name.
fn grades(pairs: &[(&str, u8)]) -> NameMap<u8> {
    let mut map = NameMap::new();
    for (name, grade) in pairs {
        map.set(name, *grade);
    }
    map
}

/// A share as a number; nothing out of nothing is none.
fn value(share: Share) -> f64 {
    if share.total == 0 {
        0.0
    } else {
        share.hits as f64 / share.total as f64
    }
}

/// The reciprocal of a position.
fn reciprocal(position: Option<usize>) -> f64 {
    position.map_or(0.0, |n| 1.0 / n as f64)
}

/// The discounted gain of some grades.
fn dcg(grades: &[u8]) -> f64 {
    grades
        .iter()
        .enumerate()
        .map(|(i, &g)| (2.0_f64.powf(g as f64) - 1.0) / (i as f64 + 2.0).log2())
        .sum()
}

/// The discounted gain of an answer, as a part of the largest possible one.
fn ndcg_at_k(returned: &Vec<String>, grades: &NameMap<u8>, k: usize) -> f64 {
    let ideal = dcg(&ideal_gains(grades, k));
    if ideal == 0.0 {
        return 0.0;
    }
    dcg(&gains_at_k(returned, grades, k)) / ideal
}

#[test]
fn precision_perfect() {
    let returned = list(&["a", "b", "c"]);
    let relevant = set(&["a", "b", "c"]);
    assert_eq!(value(precision_at_k(&returned, &relevant, 3)), 1.0);
}

#[test]
fn precision_half() {
    let returned = list(&["a", "x", "b", "y"]);
    let relevant = set(&["a", "b"]);
    assert_eq!(value(precision_at_k(&returned, &relevant, 4)), 0.5);
}

#[test]
fn precision_empty_returned() {
    let returned: Vec<String> = vec![];
    let relevant = set(&["a"]);
    assert_eq!(value(precision_at_k(&returned, &relevant, 5)), 0.0);
}

#[test]
fn recall_perfect() {
    let returned = list(&["a", "b", "c"]);
    let relevant = set(&["a", "b"]);
    assert_eq!(value(recall_at_k(&returned, &relevant, 3)), 1.0);
}

#[test]
fn recall_partial() {
    let returned = list(&["a", "x"]);
    let relevant = set(&["a", "b"]);
    assert_eq!(value(recall_at_k(&returned, &relevant, 2)), 0.5);
}

#[test]
fn recall_empty_relevant() {
    let returned = list(&["a"]);
    let relevant = set(&[]);
    assert_eq!(value(recall_at_k(&returned, &relevant, 5)), 0.0);
}

#[test]
fn rr_first_position() {
    let returned = list(&["a", "b"]);
    let relevant = set(&["a"]);
    assert_eq!(reciprocal(reciprocal_rank(&returned, &relevant)), 1.0);
}

#[test]
fn rr_second_position() {
    let returned = list(&["x", "a"]);
    let relevant = set(&["a"]);
    assert_eq!(reciprocal(reciprocal_rank(&returned, &relevant)), 0.5);
}

#[test]
fn rr_not_found() {
    let returned = list(&["x", "y"]);
    let relevant = set(&["a"]);
    assert_eq!(reciprocal(reciprocal_rank(&returned, &relevant)), 0.0);
}

#[test]
fn ndcg_perfect_ordering() {
    let returned = list(&["a", "b", "c"]);
    let rel_map = grades(&[("a", 3), ("b", 2), ("c", 1)]);
    let score = ndcg_at_k(&returned, &rel_map, 3);
    assert!((score - 1.0).abs() < 1e-10, "Perfect ordering should give NDCG=1.0, got {score}");
}

#[test]
fn ndcg_reversed_ordering() {
    let returned = list(&["c", "b", "a"]);
    let rel_map = grades(&[("a", 3), ("b", 2), ("c", 1)]);
    let score = ndcg_at_k(&returned, &rel_map, 3);
    assert!(score < 1.0, "Reversed ordering should give NDCG < 1.0, got {score}");
    assert!(score > 0.0);
}

#[test]
fn ndcg_no_relevant() {
    let returned = list(&["x", "y"]);
    let rel_map = grades(&[]);
    assert_eq!(ndcg_at_k(&returned, &rel_map, 2), 0.0);
}

#[test]
fn grades_are_cut_off_and_sorted() {
    let map = grades(&[("a", 1), ("b", 3), ("c", 2), ("b", 5)]);
    assert_eq!(ideal_gains(&map, 10), vec![5, 2, 1]);
    assert_eq!(ideal_gains(&map, 2), vec![5, 2]);
    assert_eq!(gains_at_k(&list(&["x", "c", "b"]), &map, 2), vec![0, 2]);
}

#[test]
fn repetitions_count_for_precision_and_not_for_recall() {
    let returned = list(&["a", "a", "b"]);
    let relevant = set(&["a", "c"]);
    assert_eq!(precision_at_k(&returned, &relevant, 2), Share { hits: 2, total: 2 });
    assert_eq!(recall_at_k(&returned, &relevant, 2), Share { hits: 1, total: 2 });
}

#[test]
fn a_case_is_measured() {
    let returned = list(&["x", "b", "a", "y", "z", "w"]);
    let m = CaseMetrics::compute("c-1", "query", &returned, &grades(&[("a", 3), ("b", 1)]));
    assert_eq!(m.precision_at_5, Share { hits: 2, total: 5 });
    assert_eq!(m.precision_at_10, Share { hits: 2, total: 6 });
    assert_eq!(m.recall_at_5, Share { hits: 2, total: 2 });
    assert_eq!(m.recall_at_10, Share { hits: 2, total: 2 });
    assert_eq!(m.first_relevant, Some(2));
    assert_eq!(m.gains_at_10, vec![0, 1, 3, 0, 0, 0]);
    assert_eq!(m.ideal_at_10, vec![3, 1]);
    assert_eq!((m.returned_count, m.relevant_count, m.hits_at_10), (6, 2, 2));
    assert_eq!((m.case_id.as_str(), m.query.as_str()), ("c-1", "query"));
}

#[test]
fn a_hundredth_is_no_clear_difference() {
    let a = Share { hits: 7, total: 100 };
    assert!(!is_clearly_larger(a, Share { hits: 6, total: 100 }));
    assert!(is_clearly_larger(a, Share { hits: 5, total: 100 }));
    assert!(is_clearly_larger(Share { hits: 1, total: 3 }, Share { hits: 0, total: 3 }));
    assert!(!is_clearly_larger(Share { hits: 0, total: 0 }, Share { hits: 0, total: 0 }));
    assert_eq!(recall(&set(&["a", "b"]), &set(&["b", "c", "d"])), Share { hits: 1, total: 3 });
}

// --- names ---

#[test]
fn sets_hold_names_once() {
    let mut s = set(&["a", "b", "a"]);
    assert_eq!(s.len(), 2);
    s.insert("b");
    s.insert("c");
    assert_eq!(s.len(), 3);
    assert!(s.contains("c"));
    assert!(!s.contains("d"));
    assert_eq!(s.names().len(), 3);
    assert_eq!(s.common(&set(&["c", "d", "a"])), 2);
    let copy = s.copy();
    s.insert_all(&list(&["x", "y", "a"]));
    assert_eq!((copy.len(), s.len()), (3, 5));
    assert!(s.meets(&list(&["q", "x"])));
    assert!(!s.meets(&list(&["q"])));
}

#[test]
fn names_are_counted() {
    let mut counts: NameMap<usize> = NameMap::new();
    count(&mut counts, "a");
    count(&mut counts, "b");
    count(&mut counts, "a");
    assert_eq!(counts.get("a"), Some(2));
    assert_eq!(counts.get("b"), Some(1));
    assert_eq!(counts.get("c"), None);
    let mut keys = counts.keys().names().clone();
    keys.sort();
    assert_eq!(keys, vec!["a", "b"]);
}

// --- datasets ---

/// A case.
fn case(id: &str, query: &str, files: &[(&str, u8)]) -> EvalCase {
    EvalCase {
        id: id.to_string(),
        query: query.to_string(),
        expected_files: files
            .iter()
            .map(|(path, relevance)| ExpectedFile { path: path.to_string(), relevance: *relevance })
            .collect(),
    }
}

#[test]
fn cases_are_selected_by_name() {
    let cases = vec![case("a", "q", &[]), case("b", "q", &[]), case("c", "q", &[])];
    let filter = Some(parse_filter(" c ,a"));
    assert_eq!(selected_cases(&cases, &filter), vec![0, 2]);
    assert_eq!(selected_cases(&cases, &None), vec![0, 1, 2]);
    assert!(is_selected(&filter, "a"));
    assert!(!is_selected(&filter, "b"));
}

#[test]
fn of_two_grades_the_later_one_counts() {
    let c = case("a", "q", &[("x", 1), ("y", 2), ("x", 3)]);
    let g = grades_for(&c.expected_files);
    assert_eq!((g.get("x"), g.get("y")), (Some(3), Some(2)));
    assert_eq!(paths_for(&c.expected_files).len(), 2);
}

#[test]
fn datasets_have_a_language_and_a_heading() {
    assert_eq!(default_language(), "js/ts");
    assert_eq!(
        heading("A/B", "repo", 3, "m"),
        format!("\nA/B Eval: repo (3 cases, model: m)\n{}\n", "-".repeat(60))
    );
}

#[test]
fn a_dataset_is_scored() {
    let mut index = Index::new();
    let auth = upsert_file(&mut index, "src/auth.ts", "h", 1.0_f64.to_bits(), 0).unwrap();
    let login = upsert_file(&mut index, "src/view.ts", "h", 1.0_f64.to_bits(), 0).unwrap();
    let exported = ("login".to_string(), "Function".to_string(), true, Some(1), 0);
    insert_symbols(&mut index, auth, &vec![exported]).unwrap();
    insert_edges(&mut index, login, &vec![(auth, "Import".to_string(), None)]).unwrap();
    let files = get_all_files_with_exports_and_enrichment(&index);
    let cases =
        vec![case("one", "login auth", &[("src/auth.ts", 3)]), case("none", "the of", &[])];
    let weigh = |points: u128, rank: u64| (points as f64 * f64::from_bits(rank)).to_bits();
    let damp = |score: u64| (f64::from_bits(score) * 0.3).to_bits();
    let scored = score_dataset(&cases, &files, &index, weigh, damp);
    assert_eq!(scored.len(), 1);
    assert_eq!(scored[0].case_id, "one");
    assert_eq!(scored[0].first_relevant, Some(1));
    assert_eq!(scored[0].returned_count, 2);
}
