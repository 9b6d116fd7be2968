//! The reports on the scorer.
use vstd::prelude::*;

use super::history::{HistoricRun, HistoricView};
use super::history;
use crate::json;
use crate::json::{Json, JsonView};
use crate::lists;
use crate::parser;
use crate::text;

verus! {

/// The line of a case in writing, with two digits after the point.
pub struct CaseTexts {
    pub query: String,
    pub precision_at_5: String,
    pub precision_at_10: String,
    pub recall_at_10: String,
    pub mrr: String,
    pub ndcg_at_10: String,
}

/// A line of strokes.
pub open spec fn rule(width: nat) -> Seq<char> {
    text::repeated('\u{2500}', width) + "\n"@
}

/// A line of strokes.
fn render_rule(width: usize) -> (r: String)
    ensures
        r@ == rule(width as nat),
{
    text::repeat('\u{2500}', width).concat("\n")
}

// ---------------------------------------------------------------------------------------------
// The table
// ---------------------------------------------------------------------------------------------

/// Whether a query is short, or can be cut off between two characters.
pub open spec fn can_be_shown(query: Seq<char>) -> bool {
    text::byte_len(query) <= 28 || text::byte_len(parser::truncated(query, 25)) == 25
}

/// A query, cut off if it is long.
pub open spec fn shown_query(query: Seq<char>) -> Seq<char> {
    if text::byte_len(query) > 28 {
        parser::truncated(query, 25) + "..."@
    } else {
        query
    }
}

/// A line of the table.
pub open spec fn table_line(label: Seq<char>, c: CaseTexts) -> Seq<char> {
    "  "@ + text::padded_right(label, 30) + " "@ + text::padded_left(c.precision_at_5@, 5) + " "@
        + text::padded_left(c.precision_at_10@, 6) + " "@ + text::padded_left(c.recall_at_10@, 6)
        + " "@ + text::padded_left(c.mrr@, 6) + " "@ + text::padded_left(c.ndcg_at_10@, 8) + "\n"@
}

/// The line over the table.
pub open spec fn table_header() -> Seq<char> {
    "  "@ + text::padded_right("Query"@, 30) + " "@ + text::padded_left("P@5"@, 6) + " "@
        + text::padded_left("P@10"@, 6) + " "@ + text::padded_left("R@10"@, 6) + " "@
        + text::padded_left("MRR"@, 6) + " "@ + text::padded_left("NDCG@10"@, 8) + "\n"@
}

/// The lines of the cases.
pub open spec fn table_lines(cases: Seq<CaseTexts>) -> Seq<char>
    decreases cases.len(),
{
    if cases.len() == 0 {
        Seq::empty()
    } else {
        table_lines(cases.drop_last()) + table_line(
            shown_query(cases.last().query@),
            cases.last(),
        )
    }
}

/// The table.
pub open spec fn table_text(
    dataset: Seq<char>,
    language: Seq<char>,
    cases: Seq<CaseTexts>,
    mean: CaseTexts,
) -> Seq<char> {
    "Dataset: "@ + dataset + " ("@ + language + ", "@ + text::decimal(cases.len()) + " cases)\n"@
        + rule(78) + table_header() + rule(78) + table_lines(cases) + rule(78) + table_line(
        "MEAN"@,
        mean,
    ) + "\n"@
}

/// A line of the table.
fn render_line(label: &str, c: &CaseTexts) -> (r: String)
    ensures
        r@ == table_line(label@, *c),
{
    let mut out = "  ".to_string();
    text::append_right(&mut out, label, 30);
    out.append(" ");
    text::append_left(&mut out, c.precision_at_5.as_str(), 5);
    out.append(" ");
    text::append_left(&mut out, c.precision_at_10.as_str(), 6);
    out.append(" ");
    text::append_left(&mut out, c.recall_at_10.as_str(), 6);
    out.append(" ");
    text::append_left(&mut out, c.mrr.as_str(), 6);
    out.append(" ");
    text::append_left(&mut out, c.ndcg_at_10.as_str(), 8);
    out.append("\n");
    out
}

/// The line over the table.
fn render_header() -> (r: String)
    ensures
        r@ == table_header(),
{
    let mut out = "  ".to_string();
    text::append_right(&mut out, "Query", 30);
    out.append(" ");
    text::append_left(&mut out, "P@5", 6);
    out.append(" ");
    text::append_left(&mut out, "P@10", 6);
    out.append(" ");
    text::append_left(&mut out, "R@10", 6);
    out.append(" ");
    text::append_left(&mut out, "MRR", 6);
    out.append(" ");
    text::append_left(&mut out, "NDCG@10", 8);
    out.append("\n");
    out
}

/// A query, cut off if it is long.
pub fn show_query(query: &str) -> (r: String)
    requires
        can_be_shown(query@),
    ensures
        r@ == shown_query(query@),
{
    if text::bytes_in(query) > 28 {
        parser::truncate(query, 25).to_string().concat("...")
    } else {
        query.to_string()
    }
}

/// The table of the cases of a dataset and their mean.
pub fn print_table(dataset: &str, language: &str, cases: &Vec<CaseTexts>, mean: &CaseTexts) -> (r:
    String)
    requires
        forall|i: int| 0 <= i < cases@.len() ==> can_be_shown((#[trigger] cases@[i]).query@),
    ensures
        r@ == table_text(dataset@, language@, cases@, *mean),
{
    let mut lines = String::new();
    assert(cases@.take(0) =~= Seq::<CaseTexts>::empty());
    assert(lines@ =~= table_lines(cases@.take(0)));
    for i in 0..cases.len()
        invariant
            forall|i: int| 0 <= i < cases@.len() ==> can_be_shown((#[trigger] cases@[i]).query@),
            lines@ == table_lines(cases@.take(i as int)),
    {
        proof {
            assert(cases@.take(i + 1).drop_last() =~= cases@.take(i as int));
            assert(can_be_shown(cases@[i as int].query@));
        }
        let label = show_query(cases[i].query.as_str());
        lines.append(render_line(label.as_str(), &cases[i]).as_str());
    }
    assert(cases@.take(cases@.len() as int) =~= cases@);
    let stroke = render_rule(78);
    let mut out = "Dataset: ".to_string();
    out.append(dataset);
    out.append(" (");
    out.append(language);
    out.append(", ");
    out.append(text::decimal_of(cases.len() as u64).as_str());
    out.append(" cases)\n");
    out.append(stroke.as_str());
    out.append(render_header().as_str());
    out.append(stroke.as_str());
    out.append(lines.as_str());
    out.append(stroke.as_str());
    out.append(render_line("MEAN", mean).as_str());
    out.append("\n");
    out
}

// ---------------------------------------------------------------------------------------------
// The comparison
// ---------------------------------------------------------------------------------------------

/// A measure before and after in writing: three digits after the point, and the change in percent
/// with its sign and one digit.
pub struct MeasureTexts {
    pub name: String,
    pub before: String,
    pub after: String,
    pub delta: String,
    pub percent: String,
}

/// Whether a timestamp is short, or can be cut off behind its date.
pub open spec fn has_date(timestamp: Seq<char>) -> bool {
    text::byte_len(timestamp) < 10 || text::byte_len(parser::truncated(timestamp, 10)) == 10
}

/// The date of a timestamp.
pub open spec fn date_of(timestamp: Seq<char>) -> Seq<char> {
    parser::truncated(timestamp, 10)
}

/// A line of the comparison.
pub open spec fn measure_line(m: MeasureTexts) -> Seq<char> {
    "  "@ + text::padded_right(m.name@, 14) + " "@ + text::padded_left(m.before@, 8) + " "@
        + text::padded_left(m.after@, 8) + " "@ + text::padded_left(m.delta@, 7) + " "@
        + text::padded_left(m.percent@, 7) + "%\n"@
}

/// The line over the comparison.
pub open spec fn measure_header() -> Seq<char> {
    "  "@ + text::padded_right("Metric"@, 14) + " "@ + text::padded_left("Before"@, 8) + " "@
        + text::padded_left("After"@, 8) + " "@ + text::padded_left("Delta"@, 8) + " "@
        + text::padded_left("%"@, 8) + "\n"@
}

/// The lines of the comparison.
pub open spec fn measure_lines(measures: Seq<MeasureTexts>) -> Seq<char>
    decreases measures.len(),
{
    if measures.len() == 0 {
        Seq::empty()
    } else {
        measure_lines(measures.drop_last()) + measure_line(measures.last())
    }
}

/// The comparison with an earlier run.
pub open spec fn comparison_text(
    dataset: Seq<char>,
    baseline: HistoricView,
    measures: Seq<MeasureTexts>,
) -> Seq<char> {
    "Dataset: "@ + dataset + " (comparing against "@ + baseline.git_commit + " @ "@ + date_of(
        baseline.timestamp,
    ) + ")\n"@ + rule(56) + measure_header() + rule(56) + measure_lines(measures) + rule(56)
        + "\n"@
}

/// A line of the comparison.
fn render_measure(m: &MeasureTexts) -> (r: String)
    ensures
        r@ == measure_line(*m),
{
    let mut out = "  ".to_string();
    text::append_right(&mut out, m.name.as_str(), 14);
    out.append(" ");
    text::append_left(&mut out, m.before.as_str(), 8);
    out.append(" ");
    text::append_left(&mut out, m.after.as_str(), 8);
    out.append(" ");
    text::append_left(&mut out, m.delta.as_str(), 7);
    out.append(" ");
    text::append_left(&mut out, m.percent.as_str(), 7);
    out.append("%\n");
    out
}

/// The line over the comparison.
fn render_measure_header() -> (r: String)
    ensures
        r@ == measure_header(),
{
    let mut out = "  ".to_string();
    text::append_right(&mut out, "Metric", 14);
    out.append(" ");
    text::append_left(&mut out, "Before", 8);
    out.append(" ");
    text::append_left(&mut out, "After", 8);
    out.append(" ");
    text::append_left(&mut out, "Delta", 8);
    out.append(" ");
    text::append_left(&mut out, "%", 8);
    out.append("\n");
    out
}

/// The comparison with an earlier run.
pub fn print_comparison(dataset: &str, baseline: &HistoricRun, measures: &Vec<MeasureTexts>) -> (r:
    String)
    requires
        has_date(baseline.timestamp@),
    ensures
        r@ == comparison_text(dataset@, baseline@, measures@),
{
    let mut lines = String::new();
    assert(measures@.take(0) =~= Seq::<MeasureTexts>::empty());
    assert(lines@ =~= measure_lines(measures@.take(0)));
    for i in 0..measures.len()
        invariant
            lines@ == measure_lines(measures@.take(i as int)),
    {
        assert(measures@.take(i + 1).drop_last() =~= measures@.take(i as int));
        lines.append(render_measure(&measures[i]).as_str());
    }
    assert(measures@.take(measures@.len() as int) =~= measures@);
    let stroke = render_rule(56);
    let mut out = "Dataset: ".to_string();
    out.append(dataset);
    out.append(" (comparing against ");
    out.append(baseline.git_commit.as_str());
    out.append(" @ ");
    out.append(parser::truncate(baseline.timestamp.as_str(), 10));
    out.append(")\n");
    out.append(stroke.as_str());
    out.append(render_measure_header().as_str());
    out.append(stroke.as_str());
    out.append(lines.as_str());
    out.append(stroke.as_str());
    out.append("\n");
    out
}

/// The measures that are compared, and what the archive calls them.
pub const MEASURES: [(&'static str, &'static str); 6] = [
    ("MRR", "mrr"),
    ("P@5", "precision_at_5"),
    ("P@10", "precision_at_10"),
    ("R@5", "recall_at_5"),
    ("R@10", "recall_at_10"),
    ("NDCG@10", "ndcg_at_10"),
];

// ---------------------------------------------------------------------------------------------
// The archive
// ---------------------------------------------------------------------------------------------

/// The measures of a run of the archive in writing, with two digits after the point.
pub struct RunTexts {
    pub precision_at_10: String,
    pub recall_at_10: String,
    pub mrr: String,
    pub ndcg_at_10: String,
}

/// A line of the archive.
pub open spec fn run_line(run: HistoricView, t: RunTexts) -> Seq<char> {
    "  "@ + text::padded_left(text::signed(run.id as int), 4) + "  "@ + text::padded_left(
        run.git_commit,
        7,
    ) + text::padded_right(
        if run.git_dirty {
            "*"@
        } else {
            ""@
        },
        1,
    ) + "  "@ + text::padded_left(date_of(run.timestamp), 10) + "  "@ + text::padded_left(
        run.dataset,
        12,
    ) + "  "@ + text::padded_left(t.precision_at_10@, 5) + "  "@ + text::padded_left(
        t.recall_at_10@,
        5,
    ) + "  "@ + text::padded_left(t.mrr@, 5) + "  "@ + text::padded_left(t.ndcg_at_10@, 8) + "\n"@
}

/// The line over the archive.
pub open spec fn run_header() -> Seq<char> {
    "  "@ + text::padded_left("ID"@, 4) + "  "@ + text::padded_left("Commit"@, 8) + "  "@
        + text::padded_left("Date"@, 10) + "  "@ + text::padded_left("Dataset"@, 12) + "  "@
        + text::padded_left("P@10"@, 6) + "  "@ + text::padded_left("R@10"@, 6) + "  "@
        + text::padded_left("MRR"@, 6) + "  "@ + text::padded_left("NDCG@10"@, 8) + "\n"@
}

/// The lines of the archive.
pub open spec fn run_lines(runs: Seq<HistoricView>, texts: Seq<RunTexts>) -> Seq<char>
    decreases runs.len(),
{
    if runs.len() == 0 {
        Seq::empty()
    } else {
        run_lines(runs.drop_last(), texts.drop_last()) + run_line(runs.last(), texts.last())
    }
}

/// The list of the archive.
pub open spec fn archive_text(runs: Seq<HistoricView>, texts: Seq<RunTexts>) -> Seq<char> {
    if runs.len() == 0 {
        "No archived runs found.\n"@
    } else {
        run_header() + rule(78) + run_lines(runs, texts) + "\n"@
    }
}

/// A line of the archive.
fn render_run(run: &HistoricRun, t: &RunTexts) -> (r: String)
    ensures
        r@ == run_line(run@, *t),
{
    let dirty = if run.git_dirty {
        "*"
    } else {
        ""
    };
    let mut out = "  ".to_string();
    text::append_left(&mut out, text::signed_of(run.id).as_str(), 4);
    out.append("  ");
    text::append_left(&mut out, run.git_commit.as_str(), 7);
    text::append_right(&mut out, dirty, 1);
    out.append("  ");
    text::append_left(&mut out, parser::truncate(run.timestamp.as_str(), 10), 10);
    out.append("  ");
    text::append_left(&mut out, run.dataset.as_str(), 12);
    out.append("  ");
    text::append_left(&mut out, t.precision_at_10.as_str(), 5);
    out.append("  ");
    text::append_left(&mut out, t.recall_at_10.as_str(), 5);
    out.append("  ");
    text::append_left(&mut out, t.mrr.as_str(), 5);
    out.append("  ");
    text::append_left(&mut out, t.ndcg_at_10.as_str(), 8);
    out.append("\n");
    out
}

/// The line over the archive.
fn render_run_header() -> (r: String)
    ensures
        r@ == run_header(),
{
    let mut out = "  ".to_string();
    text::append_left(&mut out, "ID", 4);
    out.append("  ");
    text::append_left(&mut out, "Commit", 8);
    out.append("  ");
    text::append_left(&mut out, "Date", 10);
    out.append("  ");
    text::append_left(&mut out, "Dataset", 12);
    out.append("  ");
    text::append_left(&mut out, "P@10", 6);
    out.append("  ");
    text::append_left(&mut out, "R@10", 6);
    out.append("  ");
    text::append_left(&mut out, "MRR", 6);
    out.append("  ");
    text::append_left(&mut out, "NDCG@10", 8);
    out.append("\n");
    out
}

/// The list of runs of the archive.
pub fn print_history(runs: &Vec<HistoricRun>, texts: &Vec<RunTexts>) -> (r: String)
    requires
        texts@.len() == runs@.len(),
        forall|i: int| 0 <= i < runs@.len() ==> has_date((#[trigger] runs@[i]).timestamp@),
    ensures
        r@ == archive_text(history::historic_views(runs@), texts@),
{
    let ghost all = history::historic_views(runs@);
    assert(all.len() == runs@.len());
    if runs.len() == 0 {
        return "No archived runs found.\n".to_string();
    }
    let mut lines = String::new();
    assert(lines@ =~= run_lines(all.take(0), texts@.take(0)));
    for i in 0..runs.len()
        invariant
            all == history::historic_views(runs@),
            texts@.len() == runs@.len(),
            lines@ == run_lines(all.take(i as int), texts@.take(i as int)),
    {
        proof {
            assert(all.take(i + 1).drop_last() =~= all.take(i as int));
            assert(all.take(i + 1).last() == runs@[i as int]@);
            assert(texts@.take(i + 1).drop_last() =~= texts@.take(i as int));
        }
        lines.append(render_run(&runs[i], &texts[i]).as_str());
    }
    assert(all.take(all.len() as int) =~= all);
    assert(texts@.take(texts@.len() as int) =~= texts@);
    let mut out = render_run_header();
    out.append(render_rule(78).as_str());
    out.append(lines.as_str());
    out.append("\n");
    out
}

/// What is told when a run was kept.
pub open spec fn archived_text(repo: Seq<char>, commit: Seq<char>, dirty: bool) -> Seq<char> {
    "Archived: "@ + repo + " @ "@ + commit + (if dirty {
        " (dirty)"@
    } else {
        ""@
    }) + "\n"@
}

/// What is told when a run was kept.
pub fn archived_line(repo: &str, commit: &str, dirty: bool) -> (r: String)
    ensures
        r@ == archived_text(repo@, commit@, dirty),
{
    let mark = if dirty {
        " (dirty)"
    } else {
        ""
    };
    "Archived: ".to_string().concat(repo).concat(" @ ").concat(commit).concat(mark).concat("\n")
}

// ---------------------------------------------------------------------------------------------
// JSON
// ---------------------------------------------------------------------------------------------

/// The report as an object.
pub open spec fn report_object(
    dataset: Seq<char>,
    language: Seq<char>,
    commit: Seq<char>,
    aggregate: JsonView,
    cases: Seq<JsonView>,
) -> JsonView {
    let o = JsonView::Object(Seq::empty());
    let o = json::with_member(o, "dataset"@, JsonView::Text(dataset));
    let o = json::with_member(o, "language"@, JsonView::Text(language));
    let o = json::with_member(o, "git_commit"@, JsonView::Text(commit));
    let o = json::with_member(o, "aggregate"@, aggregate);
    json::with_member(o, "cases"@, JsonView::Array(cases))
}

/// The report as an object, given its mean and its cases.
pub fn print_json(
    dataset: &str,
    language: &str,
    git_commit: &str,
    aggregate: Json,
    cases: Vec<Json>,
) -> (r: String)
    ensures
        r@ == json::pretty(
            report_object(
                dataset@,
                language@,
                git_commit@,
                aggregate.tree(),
                json::trees(cases@),
            ),
        ) + "\n"@,
{
    let o = json::add_member(json::empty_object(), "dataset", json::text_value(dataset));
    let o = json::add_member(o, "language", json::text_value(language));
    let o = json::add_member(o, "git_commit", json::text_value(git_commit));
    let o = json::add_member(o, "aggregate", aggregate);
    let o = json::add_member(o, "cases", json::array_value(cases));
    json::to_pretty(&o).concat("\n")
}

/// Every case has a line in the table, in their order, with its query, or the first 25 bytes of a
/// long one.
pub proof fn law_table_lines(cases: Seq<CaseTexts>)
    ensures
        table_lines(cases) == cases.map_values(
            |c: CaseTexts|
                table_line(
                    if text::byte_len(c.query@) <= 28 {
                        c.query@
                    } else {
                        parser::truncated(c.query@, 25) + "..."@
                    },
                    c,
                ),
        ).flatten(),
{
    lists::lemma_parts(
        cases,
        |c: CaseTexts|
            table_line(
                if text::byte_len(c.query@) <= 28 {
                    c.query@
                } else {
                    parser::truncated(c.query@, 25) + "..."@
                },
                c,
            ),
        |s: Seq<CaseTexts>| table_lines(s),
    );
}

/// Every measure has a line in a comparison, in their order.
pub proof fn law_measure_lines(measures: Seq<MeasureTexts>)
    ensures
        measure_lines(measures) == measures.map_values(|m: MeasureTexts| measure_line(m)).flatten(),
{
    lists::lemma_parts(
        measures,
        |m: MeasureTexts| measure_line(m),
        |s: Seq<MeasureTexts>| measure_lines(s),
    );
}

/// Every run has a line in the history, in their order, with the texts that stand at its place.
pub proof fn law_run_lines(runs: Seq<HistoricView>, texts: Seq<RunTexts>)
    requires
        runs.len() == texts.len(),
    ensures
        run_lines(runs, texts) == Seq::new(
            runs.len(),
            |i: int| run_line(runs[i], texts[i]),
        ).flatten(),
{
    let part = |r: HistoricView, t: RunTexts| run_line(r, t);
    let whole = |s: Seq<HistoricView>, t: Seq<RunTexts>| run_lines(s, t);
    lists::lemma_parts_of_two(runs, texts, part, whole);
    assert(Seq::new(runs.len(), |i: int| part(runs[i], texts[i])) =~= Seq::new(
        runs.len(),
        |i: int| run_line(runs[i], texts[i]),
    ));
}

/// A line of the table shows the measures of a case in the order of its head: precision at five and
/// at ten, recall at ten, the rank of the first, and the gain.
pub proof fn law_table_line(label: Seq<char>, c: CaseTexts)
    ensures
        table_line(label, c) == "  "@ + text::padded_right(label, 30) + " "@ + text::padded_left(
            c.precision_at_5@,
            5,
        ) + " "@ + text::padded_left(c.precision_at_10@, 6) + " "@ + text::padded_left(
            c.recall_at_10@,
            6,
        ) + " "@ + text::padded_left(c.mrr@, 6) + " "@ + text::padded_left(c.ndcg_at_10@, 8)
            + "\n"@,
{
}

/// A line of a comparison shows a measure before and after, and the change.
pub proof fn law_measure_line(m: MeasureTexts)
    ensures
        measure_line(m) == "  "@ + text::padded_right(m.name@, 14) + " "@ + text::padded_left(
            m.before@,
            8,
        ) + " "@ + text::padded_left(m.after@, 8) + " "@ + text::padded_left(m.delta@, 7) + " "@
            + text::padded_left(m.percent@, 7) + "%\n"@,
{
}

/// A line of the history shows the number of a run, its commit, with a star where that had changes,
/// its day, its dataset, and its measures.
pub proof fn law_run_line(run: HistoricView, t: RunTexts)
    ensures
        run_line(run, t) == "  "@ + text::padded_left(text::signed(run.id as int), 4) + "  "@
            + text::padded_left(run.git_commit, 7) + text::padded_right(
            if run.git_dirty {
                "*"@
            } else {
                ""@
            },
            1,
        ) + "  "@ + text::padded_left(parser::truncated(run.timestamp, 10), 10) + "  "@
            + text::padded_left(run.dataset, 12) + "  "@ + text::padded_left(t.precision_at_10@, 5)
            + "  "@ + text::padded_left(t.recall_at_10@, 5) + "  "@ + text::padded_left(t.mrr@, 5)
            + "  "@ + text::padded_left(t.ndcg_at_10@, 8) + "\n"@,
{
}

/// The JSON of a report names the dataset, the language and the commit, and holds the measures of
/// all cases and of each.
pub proof fn law_report_object(
    dataset: Seq<char>,
    language: Seq<char>,
    commit: Seq<char>,
    aggregate: JsonView,
    cases: Seq<JsonView>,
)
    ensures
        ({
            let o = report_object(dataset, language, commit, aggregate, cases);
            &&& json::opt_text(json::field(o, "dataset"@)) == Some(dataset)
            &&& json::opt_text(json::field(o, "language"@)) == Some(language)
            &&& json::opt_text(json::field(o, "git_commit"@)) == Some(commit)
            &&& json::field(o, "aggregate"@) == Some(aggregate)
            &&& json::opt_items(json::field(o, "cases"@)) == Some(cases)
        }),
{
    reveal_with_fuel(json::member, 6);
    reveal_strlit("dataset");
    reveal_strlit("language");
    reveal_strlit("git_commit");
    reveal_strlit("aggregate");
    reveal_strlit("cases");
    assert("dataset"@[0] == 'd' && "language"@[0] == 'l' && "git_commit"@[0] == 'g' && "aggregate"@[0]
        == 'a' && "cases"@[0] == 'c');
    let members = report_object(dataset, language, commit, aggregate, cases)->Object_0;
    assert(members.len() == 5);
    let one = members.drop_first();
    let two = one.drop_first();
    let three = two.drop_first();
    let four = three.drop_first();
    assert(one[0] == members[1] && two[0] == members[2] && three[0] == members[3] && four[0]
        == members[4]);
}

}
