//! The reports on three ways to find files: on the screen, and as a page in Markdown.
use vstd::prelude::*;

use super::e2e;
use super::e2e::{E2eTotals, TaskResult};
use super::session::{SessionMetrics, SessionView};
use crate::lists;
use crate::text;

verus! {

/// The averages of one measure in writing, and the change from control to treatment in percent,
/// with its sign.
pub struct Row {
    pub control: String,
    pub treatment: String,
    pub enriched: String,
    pub delta: String,
}

/// The averages of all runs in writing: recall and precision with two digits after the point, all
/// others with one. Tokens are in thousands and times in seconds.
pub struct E2eTexts {
    pub recall: Row,
    pub precision: Row,
    pub tool_calls: Row,
    pub input_tokens: Row,
    pub output_tokens: Row,
    pub wall_time: Row,
    pub codemap_calls: Row,
}

/// The numbers of one result in writing: recalls in percent, the tokens in thousands and the
/// seconds of its first run.
pub struct ResultTexts {
    pub control_recall: String,
    pub treatment_recall: String,
    pub enriched_recall: String,
    pub tokens: String,
    pub seconds: String,
}

/// The first run of a result.
pub open spec fn first_run(r: TaskResult) -> Option<SessionView> {
    if r.control is Some {
        e2e::opt_run(r.control)
    } else if r.treatment is Some {
        e2e::opt_run(r.treatment)
    } else {
        e2e::opt_run(r.enriched)
    }
}

/// The first run of a result.
fn get_first_run<'a>(r: &'a TaskResult) -> (s: Option<&'a SessionMetrics>)
    ensures
        match s {
            Some(m) => first_run(*r) == Some(m@),
            None => first_run(*r) is None,
        },
{
    match &r.control {
        Some(m) => Some(m),
        None => match &r.treatment {
            Some(m) => Some(m),
            None => match &r.enriched {
                Some(m) => Some(m),
                None => None,
            },
        },
    }
}

// ---------------------------------------------------------------------------------------------
// The screen
// ---------------------------------------------------------------------------------------------

/// A number, ten columns wide with its unit.
pub open spec fn cell(number: Seq<char>, unit: Seq<char>) -> Seq<char> {
    if unit.len() == 0 {
        text::padded_left(number, 10)
    } else {
        text::padded_left(number, 9) + unit
    }
}

/// A change, ten columns wide.
pub open spec fn delta_cell(delta: Option<Seq<char>>) -> Seq<char> {
    match delta {
        Some(d) => text::padded_left(d, 9) + "%"@,
        None => text::padded_left("n/a"@, 10),
    }
}

/// The line of a measure.
pub open spec fn row_text(
    label: Seq<char>,
    row: Row,
    unit: Seq<char>,
    with_delta: bool,
    show_enriched: bool,
) -> Seq<char> {
    let head = "  "@ + text::padded_right(label, 20) + " "@ + cell(row.control@, unit) + " "@
        + cell(row.treatment@, unit);
    let middle = if show_enriched {
        head + " "@ + cell(row.enriched@, unit)
    } else {
        head
    };
    middle + " "@ + delta_cell(
        if with_delta {
            Some(row.delta@)
        } else {
            None
        },
    ) + "\n"@
}

/// The line over the measures.
pub open spec fn header_text(show_enriched: bool) -> Seq<char> {
    let head = "  "@ + text::padded_right("Metric"@, 20) + " "@ + text::padded_left(
        "Control"@,
        10,
    ) + " "@ + text::padded_left("Treatment"@, 10);
    let middle = if show_enriched {
        head + " "@ + text::padded_left("Enriched"@, 10)
    } else {
        head
    };
    middle + " "@ + text::padded_left("Delta"@, 10) + "\n"@ + "  "@ + text::repeated(
        '\u{2500}',
        if show_enriched {
            62
        } else {
            52
        },
    ) + "\n"@
}

/// The lines of all measures.
pub open spec fn measures_text(t: E2eTexts, show_enriched: bool) -> Seq<char> {
    row_text("Recall"@, t.recall, ""@, true, show_enriched) + row_text(
        "Precision"@,
        t.precision,
        ""@,
        true,
        show_enriched,
    ) + row_text("Tool calls"@, t.tool_calls, ""@, true, show_enriched) + row_text(
        "Input tokens"@,
        t.input_tokens,
        "k"@,
        true,
        show_enriched,
    ) + row_text("Output tokens"@, t.output_tokens, "k"@, true, show_enriched) + row_text(
        "Wall time"@,
        t.wall_time,
        "s"@,
        true,
        show_enriched,
    ) + row_text("Codemap calls"@, t.codemap_calls, ""@, false, show_enriched)
}

/// The numbers of winners.
pub open spec fn wins_text(totals: E2eTotals, show_enriched: bool) -> Seq<char> {
    if show_enriched {
        "Treatment "@ + text::decimal(totals.treatment_wins as nat) + " / Enriched "@
            + text::decimal(totals.enriched_wins as nat) + " / Control "@ + text::decimal(
            totals.control_wins as nat,
        ) + " / Tie "@ + text::decimal(totals.ties as nat) + "\n"@
    } else {
        "Treatment "@ + text::decimal(totals.treatment_wins as nat) + " / Control "@
            + text::decimal(totals.control_wins as nat) + " / Tie "@ + text::decimal(
            totals.ties as nat,
        ) + "\n"@
    }
}

/// The line of a run without another to compare it with.
pub open spec fn single_line(
    case_id: Seq<char>,
    m: SessionView,
    tokens: Seq<char>,
    seconds: Seq<char>,
) -> Seq<char> {
    "  "@ + text::padded_right(case_id, 12) + " ["@ + m.variant + "] "@ + text::decimal(
        m.tool_calls as nat,
    ) + " tools, "@ + text::decimal(m.files_read.len()) + " files read, "@ + tokens + "k tokens, "@
        + seconds + "s\n"@
}

/// The line of a result without another to compare it with, if there was a run.
pub open spec fn result_line(r: TaskResult, t: ResultTexts) -> Seq<char> {
    match first_run(r) {
        Some(m) => single_line(r.case_id@, m, t.tokens@, t.seconds@),
        None => Seq::empty(),
    }
}

/// The lines of results without others to compare them with.
pub open spec fn result_lines(results: Seq<TaskResult>, texts: Seq<ResultTexts>) -> Seq<char>
    decreases results.len(),
{
    if results.len() == 0 {
        Seq::empty()
    } else {
        result_lines(results.drop_last(), texts.drop_last()) + result_line(
            results.last(),
            texts.last(),
        )
    }
}

/// The title of the report.
pub open spec fn title_text(
    dataset: Seq<char>,
    count: nat,
    model: Seq<char>,
    enrichment: Option<Seq<char>>,
) -> Seq<char> {
    let head = "End-to-End Eval: "@ + dataset + " ("@ + text::decimal(count) + " tasks, model: "@
        + model;
    match enrichment {
        Some(m) => head + ", enrichment: "@ + m + ")\n"@,
        None => head + ")\n"@,
    }
}

/// A line of double strokes.
pub open spec fn rule_text(show_enriched: bool) -> Seq<char> {
    text::repeated(
        '\u{2550}',
        if show_enriched {
            78
        } else {
            66
        },
    ) + "\n"@
}

/// The middle of the report.
pub open spec fn body_text(
    results: Seq<TaskResult>,
    result_texts: Seq<ResultTexts>,
    totals: E2eTotals,
    texts: E2eTexts,
) -> Seq<char> {
    let show = e2e::any_enriched(results);
    if e2e::any_compared(results) {
        "\n"@ + header_text(show) + measures_text(texts, show) + "\n"@ + (if show {
            "  Wins: "@
        } else {
            "  Win/Loss/Tie: "@
        }) + wins_text(totals, show)
    } else {
        "\n"@ + result_lines(results, result_texts)
    }
}

/// The report on the screen.
pub open spec fn screen_text(
    dataset: Seq<char>,
    results: Seq<TaskResult>,
    result_texts: Seq<ResultTexts>,
    totals: E2eTotals,
    texts: E2eTexts,
    model: Seq<char>,
    enrichment: Option<Seq<char>>,
) -> Seq<char> {
    let rule = rule_text(e2e::any_enriched(results));
    "\n"@ + rule + title_text(dataset, totals.count as nat, model, enrichment) + rule + body_text(
        results,
        result_texts,
        totals,
        texts,
    ) + rule + "\n"@
}

/// Appends a number, ten columns wide with its unit.
fn append_cell(out: &mut String, number: &str, unit: &str)
    ensures
        final(out)@ == old(out)@ + cell(number@, unit@),
{
    let ghost start = out@;
    if text::chars_of(unit).len() == 0 {
        text::append_left(out, number, 10);
    } else {
        text::append_left(out, number, 9);
        out.append(unit);
    }
    assert(out@ =~= start + cell(number@, unit@));
}

/// The line of a measure.
fn render_row(label: &str, row: &Row, unit: &str, with_delta: bool, show_enriched: bool) -> (r:
    String)
    ensures
        r@ == row_text(label@, *row, unit@, with_delta, show_enriched),
{
    let mut out = "  ".to_string();
    text::append_right(&mut out, label, 20);
    out.append(" ");
    append_cell(&mut out, row.control.as_str(), unit);
    out.append(" ");
    append_cell(&mut out, row.treatment.as_str(), unit);
    if show_enriched {
        out.append(" ");
        append_cell(&mut out, row.enriched.as_str(), unit);
    }
    let mut delta = String::new();
    if with_delta {
        text::append_left(&mut delta, row.delta.as_str(), 9);
        delta.append("%");
    } else {
        text::append_left(&mut delta, "n/a", 10);
    }
    assert(delta@ =~= delta_cell(
        if with_delta {
            Some(row.delta@)
        } else {
            None
        },
    ));
    out.append(" ");
    out.append(delta.as_str());
    out.append("\n");
    out
}

/// The line over the measures.
fn render_header(show_enriched: bool) -> (r: String)
    ensures
        r@ == header_text(show_enriched),
{
    let mut out = "  ".to_string();
    text::append_right(&mut out, "Metric", 20);
    out.append(" ");
    text::append_left(&mut out, "Control", 10);
    out.append(" ");
    text::append_left(&mut out, "Treatment", 10);
    if show_enriched {
        out.append(" ");
        text::append_left(&mut out, "Enriched", 10);
    }
    out.append(" ");
    text::append_left(&mut out, "Delta", 10);
    out.append("\n");
    out.append("  ");
    let width: usize = if show_enriched {
        62
    } else {
        52
    };
    out.append(text::repeat('\u{2500}', width).as_str());
    out.append("\n");
    out
}

/// The lines of all measures.
fn render_measures(t: &E2eTexts, show: bool) -> (r: String)
    ensures
        r@ == measures_text(*t, show),
{
    let mut out = render_row("Recall", &t.recall, "", true, show);
    out.append(render_row("Precision", &t.precision, "", true, show).as_str());
    out.append(render_row("Tool calls", &t.tool_calls, "", true, show).as_str());
    out.append(render_row("Input tokens", &t.input_tokens, "k", true, show).as_str());
    out.append(render_row("Output tokens", &t.output_tokens, "k", true, show).as_str());
    out.append(render_row("Wall time", &t.wall_time, "s", true, show).as_str());
    out.append(render_row("Codemap calls", &t.codemap_calls, "", false, show).as_str());
    out
}

/// The numbers of winners.
fn render_wins(totals: &E2eTotals, show_enriched: bool) -> (r: String)
    ensures
        r@ == wins_text(*totals, show_enriched),
{
    let mut out = "Treatment ".to_string();
    out.append(text::decimal_of(totals.treatment_wins as u64).as_str());
    if show_enriched {
        out.append(" / Enriched ");
        out.append(text::decimal_of(totals.enriched_wins as u64).as_str());
    }
    out.append(" / Control ");
    out.append(text::decimal_of(totals.control_wins as u64).as_str());
    out.append(" / Tie ");
    out.append(text::decimal_of(totals.ties as u64).as_str());
    out.append("\n");
    out
}

/// The line of a run without another to compare it with.
fn render_single(case_id: &str, m: &SessionMetrics, tokens: &str, seconds: &str) -> (r: String)
    ensures
        r@ == single_line(case_id@, m@, tokens@, seconds@),
{
    let mut out = "  ".to_string();
    text::append_right(&mut out, case_id, 12);
    out.append(" [");
    out.append(m.variant.as_str());
    out.append("] ");
    out.append(text::decimal_of(m.tool_calls as u64).as_str());
    out.append(" tools, ");
    out.append(text::decimal_of(m.files_read.len() as u64).as_str());
    out.append(" files read, ");
    out.append(tokens);
    out.append("k tokens, ");
    out.append(seconds);
    out.append("s\n");
    out
}

/// The lines of results without others to compare them with.
fn render_results(results: &Vec<TaskResult>, texts: &Vec<ResultTexts>) -> (r: String)
    requires
        texts@.len() == results@.len(),
    ensures
        r@ == result_lines(results@, texts@),
{
    let mut out = String::new();
    assert(out@ =~= result_lines(results@.take(0), texts@.take(0)));
    for i in 0..results.len()
        invariant
            texts@.len() == results@.len(),
            out@ == result_lines(results@.take(i as int), texts@.take(i as int)),
    {
        proof {
            assert(results@.take(i + 1).drop_last() =~= results@.take(i as int));
            assert(texts@.take(i + 1).drop_last() =~= texts@.take(i as int));
        }
        let r = &results[i];
        let t = &texts[i];
        let line = match get_first_run(r) {
            Some(m) => render_single(
                r.case_id.as_str(),
                m,
                t.tokens.as_str(),
                t.seconds.as_str(),
            ),
            None => String::new(),
        };
        assert(line@ =~= result_line(*r, *t));
        out.append(line.as_str());
    }
    assert(results@.take(results@.len() as int) =~= results@);
    assert(texts@.take(texts@.len() as int) =~= texts@);
    out
}

/// The title of the report.
fn render_title(dataset: &str, count: usize, model: &str, enrichment: &Option<String>) -> (r: String)
    ensures
        r@ == title_text(dataset@, count as nat, model@, text::opt_view(*enrichment)),
{
    let mut out = "End-to-End Eval: ".to_string();
    out.append(dataset);
    out.append(" (");
    out.append(text::decimal_of(count as u64).as_str());
    out.append(" tasks, model: ");
    out.append(model);
    match enrichment {
        Some(m) => {
            out.append(", enrichment: ");
            out.append(m.as_str());
            out.append(")\n");
        },
        None => {
            out.append(")\n");
        },
    }
    out
}

/// A line of double strokes.
fn render_rule(show_enriched: bool) -> (r: String)
    ensures
        r@ == rule_text(show_enriched),
{
    let width: usize = if show_enriched {
        78
    } else {
        66
    };
    text::repeat('\u{2550}', width).concat("\n")
}

/// The middle of the report.
fn render_body(
    results: &Vec<TaskResult>,
    result_texts: &Vec<ResultTexts>,
    totals: &E2eTotals,
    texts: &E2eTexts,
) -> (r: String)
    requires
        result_texts@.len() == results@.len(),
    ensures
        r@ == body_text(results@, result_texts@, *totals, *texts),
{
    let show = e2e::has_enriched(results);
    let mut out = "\n".to_string();
    if e2e::has_comparison(results) {
        out.append(render_header(show).as_str());
        out.append(render_measures(texts, show).as_str());
        out.append("\n");
        if show {
            out.append("  Wins: ");
        } else {
            out.append("  Win/Loss/Tie: ");
        }
        out.append(render_wins(totals, show).as_str());
    } else {
        out.append(render_results(results, result_texts).as_str());
    }
    out
}

/// The report on the screen, given the totals of the results.
pub fn print_e2e_report(
    dataset: &str,
    results: &Vec<TaskResult>,
    result_texts: &Vec<ResultTexts>,
    totals: &E2eTotals,
    texts: &E2eTexts,
    model: &str,
    enrichment: &Option<String>,
) -> (r: String)
    requires
        result_texts@.len() == results@.len(),
    ensures
        r@ == screen_text(
            dataset@,
            results@,
            result_texts@,
            *totals,
            *texts,
            model@,
            text::opt_view(*enrichment),
        ),
{
    let show = e2e::has_enriched(results);
    let rule = render_rule(show);
    let mut out = "\n".to_string();
    out.append(rule.as_str());
    out.append(render_title(dataset, totals.count, model, enrichment).as_str());
    out.append(rule.as_str());
    out.append(render_body(results, result_texts, totals, texts).as_str());
    out.append(rule.as_str());
    out.append("\n");
    out
}

// ---------------------------------------------------------------------------------------------
// The page
// ---------------------------------------------------------------------------------------------

/// How the page is to be read.
pub const PAGE_NOTES: &'static str = "\n\
## How to read these results\n\
\n\
Each dataset runs tasks in multiple variants: **control** (the client alone), \
**treatment** (the client + codemap), and optionally **enriched** \
(the client + codemap + LLM-generated summaries via `codemap enrich --api`). \
All sessions explore the same repo copy in read-only mode \
(`--permission-mode plan`) and report which files are relevant to the task.\n\
\n\
| Metric | Meaning |\n\
|--------|---------|\n\
| Recall | Fraction of expected files that the model found |\n\
| Precision | Fraction of files the model reported that were actually relevant |\n\
| Tool calls | Average number of tool invocations (Read, Grep, Glob, Bash, etc.) |\n\
| Input tokens | Context tokens consumed (prompt + tool results) |\n\
| Output tokens | Tokens generated by the model |\n\
| Wall time | Clock time per session |\n\
\n\
Negative deltas on tool calls, tokens, and wall time mean the treatment was \
more efficient. Positive deltas on recall and precision mean it found better results.\n\
\n\
**Note:** Treatment sessions use `codemap setup` with heuristic-only metadata \
(no LLM enrichment). Results may improve further with `codemap enrich --api`.\n";

/// The top of the page.
pub open spec fn page_head(
    model: Seq<char>,
    commit: Seq<char>,
    enrichment: Option<Seq<char>>,
) -> Seq<char> {
    let head =
        "# E2E Eval Results\n\n> Auto-generated by `codemap-eval e2e`. Commit: `"@
        + commit + "` | Model: `"@ + model + "`"@;
    (match enrichment {
        Some(m) => head + " | Enrichment model: `"@ + m + "`"@,
        None => head,
    }) + "\n"@ + PAGE_NOTES@
}

/// The row of a measure.
pub open spec fn page_row(
    label: Seq<char>,
    row: Row,
    unit: Seq<char>,
    show_enriched: bool,
) -> Seq<char> {
    let head = "| "@ + label + " | "@ + row.control@ + unit + " | "@ + row.treatment@ + unit;
    let middle = if show_enriched {
        head + " | "@ + row.enriched@ + unit
    } else {
        head
    };
    middle + " | "@ + row.delta@ + "% |\n"@
}

/// The rows over the measures.
pub open spec fn page_header(show_enriched: bool) -> Seq<char> {
    if show_enriched {
        "| Metric | Control | Treatment | Enriched | Delta |\n|--------|---------|-----------|----------|-------|\n"@
    } else {
        "| Metric | Control | Treatment | Delta |\n|--------|---------|-----------|-------|\n"@
    }
}

/// The table of all measures.
pub open spec fn page_measures(t: E2eTexts, show: bool) -> Seq<char> {
    page_header(show) + page_row("Recall"@, t.recall, ""@, show) + page_row(
        "Precision"@,
        t.precision,
        ""@,
        show,
    ) + page_row("Tool calls"@, t.tool_calls, ""@, show) + page_row(
        "Input tokens"@,
        t.input_tokens,
        "k"@,
        show,
    ) + page_row("Output tokens"@, t.output_tokens, "k"@, show) + page_row(
        "Wall time"@,
        t.wall_time,
        "s"@,
        show,
    )
}

/// The uses of tools of a run, if there was one.
pub open spec fn tools_cell(m: Option<SessionView>) -> Seq<char> {
    match m {
        Some(m) => text::decimal(m.tool_calls as nat),
        None => "-"@,
    }
}

/// The recall of a run, if there was one.
pub open spec fn recall_cell(m: Option<SessionView>, recall: Seq<char>) -> Seq<char> {
    match m {
        Some(_) => recall + "%"@,
        None => "-"@,
    }
}

/// The row of a case among three ways.
pub open spec fn three_way_row(r: TaskResult, t: ResultTexts) -> Seq<char> {
    let c = e2e::opt_run(r.control);
    let m = e2e::opt_run(r.treatment);
    let e = e2e::opt_run(r.enriched);
    "| "@ + r.case_id@ + " | "@ + tools_cell(c) + " | "@ + tools_cell(m) + " | "@ + tools_cell(e)
        + " | "@ + recall_cell(c, t.control_recall@) + " | "@ + recall_cell(
        m,
        t.treatment_recall@,
    ) + " | "@ + recall_cell(e, t.enriched_recall@) + " | "@ + e2e::winner_in(r) + " |\n"@
}

/// The row of a case between two ways.
pub open spec fn two_way_row(r: TaskResult, t: ResultTexts) -> Seq<char> {
    if r.control is Some && r.treatment is Some {
        "| "@ + r.case_id@ + " | "@ + tools_cell(e2e::opt_run(r.control)) + " | "@ + tools_cell(
            e2e::opt_run(r.treatment),
        ) + " | "@ + t.control_recall@ + "% | "@ + t.treatment_recall@ + "% | "@ + e2e::winner_in(r)
            + " |\n"@
    } else {
        Seq::empty()
    }
}

/// The rows of all cases.
pub open spec fn case_rows(
    results: Seq<TaskResult>,
    texts: Seq<ResultTexts>,
    show_enriched: bool,
) -> Seq<char>
    decreases results.len(),
{
    if results.len() == 0 {
        Seq::empty()
    } else {
        case_rows(results.drop_last(), texts.drop_last(), show_enriched) + (if show_enriched {
            three_way_row(results.last(), texts.last())
        } else {
            two_way_row(results.last(), texts.last())
        })
    }
}

/// The rows over the cases.
pub open spec fn case_header(show_enriched: bool) -> Seq<char> {
    if show_enriched {
        "| Case | Ctrl tools | Treat tools | Enrich tools | Ctrl recall | Treat recall | Enrich recall | Winner |\n|------|-----------|------------|-------------|------------|-------------|--------------|--------|\n"@
    } else {
        "| Case | Control tools | Treatment tools | Control recall | Treatment recall | Winner |\n|------|--------------|----------------|---------------|-----------------|--------|\n"@
    }
}

/// The row of a result without another to compare it with, if there was a run.
pub open spec fn single_row(r: TaskResult, t: ResultTexts) -> Seq<char> {
    match first_run(r) {
        Some(m) => "| "@ + r.case_id@ + " | "@ + m.variant + " | "@ + text::decimal(
            m.tool_calls as nat,
        ) + " | "@ + text::decimal(m.files_read.len()) + " | "@ + t.tokens@ + "k | "@ + t.seconds@
            + "s |\n"@,
        None => Seq::empty(),
    }
}

/// The rows of results without others to compare them with.
pub open spec fn single_rows(results: Seq<TaskResult>, texts: Seq<ResultTexts>) -> Seq<char>
    decreases results.len(),
{
    if results.len() == 0 {
        Seq::empty()
    } else {
        single_rows(results.drop_last(), texts.drop_last()) + single_row(
            results.last(),
            texts.last(),
        )
    }
}

/// The section of a dataset.
pub open spec fn section_text(
    dataset: Seq<char>,
    results: Seq<TaskResult>,
    result_texts: Seq<ResultTexts>,
    totals: E2eTotals,
    texts: E2eTexts,
) -> Seq<char> {
    let show = e2e::any_enriched(results);
    let head = "## "@ + dataset + " ("@ + text::decimal(totals.count as nat) + " tasks)\n\n"@;
    if e2e::any_compared(results) {
        head + page_measures(texts, show) + "\n"@ + (if show {
            "**Wins:** "@
        } else {
            "**Win/Loss/Tie:** "@
        }) + wins_text(totals, show) + "\n<details><summary>Per-case breakdown</summary>\n\n"@
            + case_header(show) + case_rows(results, result_texts, show) + "\n</details>\n"@
    } else {
        head
            + "| Case | Variant | Tools | Files read | Tokens | Time |\n|------|---------|-------|-----------|--------|------|\n"@
            + single_rows(results, result_texts)
    }
}

/// The row of a measure.
fn render_page_row(label: &str, row: &Row, unit: &str, show_enriched: bool) -> (r: String)
    ensures
        r@ == page_row(label@, *row, unit@, show_enriched),
{
    let mut out = "| ".to_string();
    out.append(label);
    out.append(" | ");
    out.append(row.control.as_str());
    out.append(unit);
    out.append(" | ");
    out.append(row.treatment.as_str());
    out.append(unit);
    if show_enriched {
        out.append(" | ");
        out.append(row.enriched.as_str());
        out.append(unit);
    }
    out.append(" | ");
    out.append(row.delta.as_str());
    out.append("% |\n");
    out
}

/// The table of all measures.
fn render_page_measures(t: &E2eTexts, show: bool) -> (r: String)
    ensures
        r@ == page_measures(*t, show),
{
    let mut out = if show {
        "| Metric | Control | Treatment | Enriched | Delta |\n|--------|---------|-----------|----------|-------|\n".to_string()
    } else {
        "| Metric | Control | Treatment | Delta |\n|--------|---------|-----------|-------|\n".to_string()
    };
    out.append(render_page_row("Recall", &t.recall, "", show).as_str());
    out.append(render_page_row("Precision", &t.precision, "", show).as_str());
    out.append(render_page_row("Tool calls", &t.tool_calls, "", show).as_str());
    out.append(render_page_row("Input tokens", &t.input_tokens, "k", show).as_str());
    out.append(render_page_row("Output tokens", &t.output_tokens, "k", show).as_str());
    out.append(render_page_row("Wall time", &t.wall_time, "s", show).as_str());
    out
}

/// The uses of tools of a run, if there was one.
fn render_tools(m: &Option<SessionMetrics>) -> (r: String)
    ensures
        r@ == tools_cell(e2e::opt_run(*m)),
{
    match m {
        Some(m) => text::decimal_of(m.tool_calls as u64),
        None => "-".to_string(),
    }
}

/// The recall of a run, if there was one.
fn render_recall(m: &Option<SessionMetrics>, recall: &str) -> (r: String)
    ensures
        r@ == recall_cell(e2e::opt_run(*m), recall@),
{
    match m {
        Some(_) => recall.to_string().concat("%"),
        None => "-".to_string(),
    }
}

/// The row of a case among three ways.
fn render_three_way(r: &TaskResult, t: &ResultTexts) -> (s: String)
    ensures
        s@ == three_way_row(*r, *t),
{
    let mut out = "| ".to_string();
    out.append(r.case_id.as_str());
    out.append(" | ");
    out.append(render_tools(&r.control).as_str());
    out.append(" | ");
    out.append(render_tools(&r.treatment).as_str());
    out.append(" | ");
    out.append(render_tools(&r.enriched).as_str());
    out.append(" | ");
    out.append(render_recall(&r.control, t.control_recall.as_str()).as_str());
    out.append(" | ");
    out.append(render_recall(&r.treatment, t.treatment_recall.as_str()).as_str());
    out.append(" | ");
    out.append(render_recall(&r.enriched, t.enriched_recall.as_str()).as_str());
    out.append(" | ");
    out.append(e2e::multi_case_winner(&r.control, &r.treatment, &r.enriched, &r.expected));
    out.append(" |\n");
    out
}

/// The row of a case between two ways.
fn render_two_way(r: &TaskResult, t: &ResultTexts) -> (s: String)
    ensures
        s@ == two_way_row(*r, *t),
{
    if r.control.is_none() || r.treatment.is_none() {
        return String::new();
    }
    let mut out = "| ".to_string();
    out.append(r.case_id.as_str());
    out.append(" | ");
    out.append(render_tools(&r.control).as_str());
    out.append(" | ");
    out.append(render_tools(&r.treatment).as_str());
    out.append(" | ");
    out.append(t.control_recall.as_str());
    out.append("% | ");
    out.append(t.treatment_recall.as_str());
    out.append("% | ");
    out.append(e2e::multi_case_winner(&r.control, &r.treatment, &r.enriched, &r.expected));
    out.append(" |\n");
    out
}

/// The rows of all cases.
fn render_cases(results: &Vec<TaskResult>, texts: &Vec<ResultTexts>, show: bool) -> (r: String)
    requires
        texts@.len() == results@.len(),
    ensures
        r@ == case_rows(results@, texts@, show),
{
    let mut out = String::new();
    assert(out@ =~= case_rows(results@.take(0), texts@.take(0), show));
    for i in 0..results.len()
        invariant
            texts@.len() == results@.len(),
            out@ == case_rows(results@.take(i as int), texts@.take(i as int), show),
    {
        proof {
            assert(results@.take(i + 1).drop_last() =~= results@.take(i as int));
            assert(texts@.take(i + 1).drop_last() =~= texts@.take(i as int));
        }
        let row = if show {
            render_three_way(&results[i], &texts[i])
        } else {
            render_two_way(&results[i], &texts[i])
        };
        out.append(row.as_str());
    }
    assert(results@.take(results@.len() as int) =~= results@);
    assert(texts@.take(texts@.len() as int) =~= texts@);
    out
}

/// The row of a result without another to compare it with, if there was a run.
fn render_single_row(r: &TaskResult, t: &ResultTexts) -> (s: String)
    ensures
        s@ == single_row(*r, *t),
{
    match get_first_run(r) {
        Some(m) => {
            let mut out = "| ".to_string();
            out.append(r.case_id.as_str());
            out.append(" | ");
            out.append(m.variant.as_str());
            out.append(" | ");
            out.append(text::decimal_of(m.tool_calls as u64).as_str());
            out.append(" | ");
            out.append(text::decimal_of(m.files_read.len() as u64).as_str());
            out.append(" | ");
            out.append(t.tokens.as_str());
            out.append("k | ");
            out.append(t.seconds.as_str());
            out.append("s |\n");
            out
        },
        None => String::new(),
    }
}

/// The rows of results without others to compare them with.
fn render_single_rows(results: &Vec<TaskResult>, texts: &Vec<ResultTexts>) -> (r: String)
    requires
        texts@.len() == results@.len(),
    ensures
        r@ == single_rows(results@, texts@),
{
    let mut out = String::new();
    assert(out@ =~= single_rows(results@.take(0), texts@.take(0)));
    for i in 0..results.len()
        invariant
            texts@.len() == results@.len(),
            out@ == single_rows(results@.take(i as int), texts@.take(i as int)),
    {
        proof {
            assert(results@.take(i + 1).drop_last() =~= results@.take(i as int));
            assert(texts@.take(i + 1).drop_last() =~= texts@.take(i as int));
        }
        out.append(render_single_row(&results[i], &texts[i]).as_str());
    }
    assert(results@.take(results@.len() as int) =~= results@);
    assert(texts@.take(texts@.len() as int) =~= texts@);
    out
}

/// The rows over the cases.
fn render_case_header(show: bool) -> (r: String)
    ensures
        r@ == case_header(show),
{
    if show {
        "| Case | Ctrl tools | Treat tools | Enrich tools | Ctrl recall | Treat recall | Enrich recall | Winner |\n|------|-----------|------------|-------------|------------|-------------|--------------|--------|\n".to_string()
    } else {
        "| Case | Control tools | Treatment tools | Control recall | Treatment recall | Winner |\n|------|--------------|----------------|---------------|-----------------|--------|\n".to_string()
    }
}

/// The section of a dataset, given the totals of its results.
pub fn write_dataset_section(
    dataset: &str,
    results: &Vec<TaskResult>,
    result_texts: &Vec<ResultTexts>,
    totals: &E2eTotals,
    texts: &E2eTexts,
) -> (r: String)
    requires
        result_texts@.len() == results@.len(),
    ensures
        r@ == section_text(dataset@, results@, result_texts@, *totals, *texts),
{
    let show = e2e::has_enriched(results);
    let mut out = "## ".to_string();
    out.append(dataset);
    out.append(" (");
    out.append(text::decimal_of(totals.count as u64).as_str());
    out.append(" tasks)\n\n");
    if e2e::has_comparison(results) {
        out.append(render_page_measures(texts, show).as_str());
        out.append("\n");
        if show {
            out.append("**Wins:** ");
        } else {
            out.append("**Win/Loss/Tie:** ");
        }
        out.append(render_wins(totals, show).as_str());
        out.append("\n<details><summary>Per-case breakdown</summary>\n\n");
        out.append(render_case_header(show).as_str());
        out.append(render_cases(results, result_texts, show).as_str());
        out.append("\n</details>\n");
    } else {
        out.append(
            "| Case | Variant | Tools | Files read | Tokens | Time |\n|------|---------|-------|-----------|--------|------|\n",
        );
        out.append(render_single_rows(results, result_texts).as_str());
    }
    out
}

/// The sections of a page, each behind an empty line.
pub open spec fn sections_text(sections: Seq<Seq<char>>) -> Seq<char>
    decreases sections.len(),
{
    if sections.len() == 0 {
        Seq::empty()
    } else {
        sections_text(sections.drop_last()) + "\n"@ + sections.last()
    }
}

/// The page, given the sections of the datasets.
pub fn markdown_report(
    model: &str,
    git_commit: &str,
    enrichment: &Option<String>,
    sections: &Vec<String>,
) -> (r: String)
    ensures
        r@ == page_head(model@, git_commit@, text::opt_view(*enrichment)) + sections_text(
            text::views(sections@),
        ),
{
    let ghost all = text::views(sections@);
    let mut out =
        "# E2E Eval Results\n\n> Auto-generated by `codemap-eval e2e`. Commit: `".to_string();
    out.append(git_commit);
    out.append("` | Model: `");
    out.append(model);
    out.append("`");
    if let Some(m) = enrichment {
        out.append(" | Enrichment model: `");
        out.append(m.as_str());
        out.append("`");
    }
    out.append("\n");
    out.append(PAGE_NOTES);
    let ghost head = out@;
    assert(head == page_head(model@, git_commit@, text::opt_view(*enrichment)));
    assert(all.take(0) =~= Seq::<Seq<char>>::empty());
    assert(out@ =~= head + sections_text(all.take(0)));
    for i in 0..sections.len()
        invariant
            all == text::views(sections@),
            out@ == head + sections_text(all.take(i as int)),
    {
        proof {
            assert(all.take(i + 1).drop_last() =~= all.take(i as int));
            assert(all.take(i + 1).last() == sections@[i as int]@);
        }
        out.append("\n");
        out.append(sections[i].as_str());
        assert(out@ =~= head + sections_text(all.take(i + 1)));
    }
    assert(all.take(all.len() as int) =~= all);
    out
}

/// Every task with a run has a line where none is compared, in their order, with the texts that
/// stand at its place.
pub proof fn law_result_lines(results: Seq<TaskResult>, texts: Seq<ResultTexts>)
    requires
        results.len() == texts.len(),
    ensures
        result_lines(results, texts) == Seq::new(
            results.len(),
            |i: int|
                match first_run(results[i]) {
                    Some(m) => single_line(
                        results[i].case_id@,
                        m,
                        texts[i].tokens@,
                        texts[i].seconds@,
                    ),
                    None => Seq::empty(),
                },
        ).flatten(),
{
    let part = |r: TaskResult, t: ResultTexts| result_line(r, t);
    let whole = |s: Seq<TaskResult>, t: Seq<ResultTexts>| result_lines(s, t);
    lists::lemma_parts_of_two(results, texts, part, whole);
    assert(Seq::new(results.len(), |i: int| part(results[i], texts[i])) =~= Seq::new(
        results.len(),
        |i: int|
            match first_run(results[i]) {
                Some(m) => single_line(
                    results[i].case_id@,
                    m,
                    texts[i].tokens@,
                    texts[i].seconds@,
                ),
                None => Seq::empty(),
            },
    ));
}

/// Every task has a row in the breakdown, in their order: of three kinds of runs where those are
/// shown, and otherwise of two, where it has both.
pub proof fn law_case_rows(
    results: Seq<TaskResult>,
    texts: Seq<ResultTexts>,
    show_enriched: bool,
)
    requires
        results.len() == texts.len(),
    ensures
        case_rows(results, texts, show_enriched) == Seq::new(
            results.len(),
            |i: int|
                if show_enriched {
                    three_way_row(results[i], texts[i])
                } else if results[i].control is Some && results[i].treatment is Some {
                    two_way_row(results[i], texts[i])
                } else {
                    Seq::empty()
                },
        ).flatten(),
{
    let part = |r: TaskResult, t: ResultTexts|
        if show_enriched {
            three_way_row(r, t)
        } else {
            two_way_row(r, t)
        };
    let whole = |s: Seq<TaskResult>, t: Seq<ResultTexts>| case_rows(s, t, show_enriched);
    lists::lemma_parts_of_two(results, texts, part, whole);
    assert(Seq::new(results.len(), |i: int| part(results[i], texts[i])) =~= Seq::new(
        results.len(),
        |i: int|
            if show_enriched {
                three_way_row(results[i], texts[i])
            } else if results[i].control is Some && results[i].treatment is Some {
                two_way_row(results[i], texts[i])
            } else {
                Seq::empty()
            },
    ));
}

/// Every task has a row where none is compared, in their order.
pub proof fn law_single_rows(results: Seq<TaskResult>, texts: Seq<ResultTexts>)
    requires
        results.len() == texts.len(),
    ensures
        single_rows(results, texts) == Seq::new(
            results.len(),
            |i: int| single_row(results[i], texts[i]),
        ).flatten(),
{
    let part = |r: TaskResult, t: ResultTexts| single_row(r, t);
    let whole = |s: Seq<TaskResult>, t: Seq<ResultTexts>| single_rows(s, t);
    lists::lemma_parts_of_two(results, texts, part, whole);
    assert(Seq::new(results.len(), |i: int| part(results[i], texts[i])) =~= Seq::new(
        results.len(),
        |i: int| single_row(results[i], texts[i]),
    ));
}

/// The run that is shown of a task is that without codemap, or else that with it, or else that with
/// descriptions.
pub proof fn law_first_run(r: TaskResult)
    ensures
        r.control is Some ==> first_run(r) == Some(r.control->0@),
        r.control is None && r.treatment is Some ==> first_run(r) == Some(r.treatment->0@),
        r.control is None && r.treatment is None && r.enriched is Some ==> first_run(r) == Some(
            r.enriched->0@,
        ),
        r.control is None && r.treatment is None && r.enriched is None ==> first_run(r) is None,
{
}

/// Every section stands on the page, in their order, behind an empty line.
pub proof fn law_sections(sections: Seq<Seq<char>>)
    ensures
        sections_text(sections) == sections.map_values(|s: Seq<char>| "\n"@ + s).flatten(),
{
    let part = |s: Seq<char>| "\n"@ + s;
    let whole = |s: Seq<Seq<char>>| sections_text(s);
    assert forall|s: Seq<Seq<char>>| #[trigger]
        whole(s) == (if s.len() == 0 {
            Seq::empty()
        } else {
            whole(s.drop_last()) + part(s.last())
        }) by {
        if s.len() > 0 {
            assert(whole(s) =~= whole(s.drop_last()) + part(s.last()));
        }
    }
    lists::lemma_parts(sections, part, whole);
}

/// Who won how often is told by the name of each kind, that with descriptions only where it is
/// shown.
pub proof fn law_wins_text(totals: E2eTotals)
    ensures
        wins_text(totals, true) == "Treatment "@ + text::decimal(totals.treatment_wins as nat)
            + " / Enriched "@ + text::decimal(totals.enriched_wins as nat) + " / Control "@
            + text::decimal(totals.control_wins as nat) + " / Tie "@ + text::decimal(
            totals.ties as nat,
        ) + "\n"@,
        wins_text(totals, false) == "Treatment "@ + text::decimal(totals.treatment_wins as nat)
            + " / Control "@ + text::decimal(totals.control_wins as nat) + " / Tie "@ + text::decimal(
            totals.ties as nat,
        ) + "\n"@,
{
}

/// A row of measures shows that without codemap, that with it, that with descriptions where it is
/// shown, and the change where there is one, one below the other.
pub proof fn law_row_text(label: Seq<char>, row: Row, show_enriched: bool)
    ensures
        row_text(label, row, Seq::empty(), true, show_enriched) == "  "@ + text::padded_right(
            label,
            20,
        ) + " "@ + text::padded_left(row.control@, 10) + " "@ + text::padded_left(row.treatment@, 10)
            + (if show_enriched {
            " "@ + text::padded_left(row.enriched@, 10)
        } else {
            Seq::empty()
        }) + " "@ + (text::padded_left(row.delta@, 9) + "%"@) + "\n"@,
        row_text(label, row, "k"@, false, show_enriched) == "  "@ + text::padded_right(label, 20)
            + " "@ + (text::padded_left(row.control@, 9) + "k"@) + " "@ + (text::padded_left(
            row.treatment@,
            9,
        ) + "k"@) + (if show_enriched {
            " "@ + (text::padded_left(row.enriched@, 9) + "k"@)
        } else {
            Seq::empty()
        }) + " "@ + text::padded_left("n/a"@, 10) + "\n"@,
{
    reveal_strlit("k");
    assert("k"@.len() == 1);
    let a = "  "@ + text::padded_right(label, 20) + " "@ + text::padded_left(row.control@, 10) + " "@
        + text::padded_left(row.treatment@, 10);
    let b = "  "@ + text::padded_right(label, 20) + " "@ + (text::padded_left(row.control@, 9)
        + "k"@) + " "@ + (text::padded_left(row.treatment@, 9) + "k"@);
    assert(a + Seq::<char>::empty() =~= a);
    assert(b + Seq::<char>::empty() =~= b);
    assert(a + (" "@ + text::padded_left(row.enriched@, 10)) =~= a + " "@ + text::padded_left(
        row.enriched@,
        10,
    ));
    assert(b + (" "@ + (text::padded_left(row.enriched@, 9) + "k"@)) =~= b + " "@ + (
    text::padded_left(row.enriched@, 9) + "k"@));
}

/// Each measure has its own row, on the screen and on the page.
pub proof fn law_measures(t: E2eTexts, show: bool)
    ensures
        measures_text(t, show) == row_text("Recall"@, t.recall, ""@, true, show) + row_text(
            "Precision"@,
            t.precision,
            ""@,
            true,
            show,
        ) + row_text("Tool calls"@, t.tool_calls, ""@, true, show) + row_text(
            "Input tokens"@,
            t.input_tokens,
            "k"@,
            true,
            show,
        ) + row_text("Output tokens"@, t.output_tokens, "k"@, true, show) + row_text(
            "Wall time"@,
            t.wall_time,
            "s"@,
            true,
            show,
        ) + row_text("Codemap calls"@, t.codemap_calls, ""@, false, show),
        page_measures(t, show) == page_header(show) + page_row("Recall"@, t.recall, ""@, show)
            + page_row("Precision"@, t.precision, ""@, show) + page_row(
            "Tool calls"@,
            t.tool_calls,
            ""@,
            show,
        ) + page_row("Input tokens"@, t.input_tokens, "k"@, show) + page_row(
            "Output tokens"@,
            t.output_tokens,
            "k"@,
            show,
        ) + page_row("Wall time"@, t.wall_time, "s"@, show),
{
}

/// A row on the page shows that without codemap, that with it, that with descriptions where it is
/// shown, and the change.
pub proof fn law_page_row(label: Seq<char>, row: Row, unit: Seq<char>)
    ensures
        page_row(label, row, unit, false) == "| "@ + label + " | "@ + row.control@ + unit + " | "@
            + row.treatment@ + unit + " | "@ + row.delta@ + "% |\n"@,
        page_row(label, row, unit, true) == "| "@ + label + " | "@ + row.control@ + unit + " | "@
            + row.treatment@ + unit + " | "@ + row.enriched@ + unit + " | "@ + row.delta@
            + "% |\n"@,
{
}

/// The rows of the breakdown show the tool calls and the recall of each run, a dash where there is
/// none, and the winner.
pub proof fn law_breakdown_rows(r: TaskResult, t: ResultTexts)
    ensures
        ({
            let calls = |m: Option<SessionView>|
                match m {
                    Some(m) => text::decimal(m.tool_calls as nat),
                    None => "-"@,
                };
            let recall = |m: Option<SessionView>, text: Seq<char>|
                match m {
                    Some(_) => text + "%"@,
                    None => "-"@,
                };
            let c = e2e::opt_run(r.control);
            let m = e2e::opt_run(r.treatment);
            let e = e2e::opt_run(r.enriched);
            &&& three_way_row(r, t) == "| "@ + r.case_id@ + " | "@ + calls(c) + " | "@ + calls(m)
                + " | "@ + calls(e) + " | "@ + recall(c, t.control_recall@) + " | "@ + recall(
                m,
                t.treatment_recall@,
            ) + " | "@ + recall(e, t.enriched_recall@) + " | "@ + e2e::winner_in(r) + " |\n"@
            &&& r.control is Some && r.treatment is Some ==> two_way_row(r, t) == "| "@ + r.case_id@
                + " | "@ + text::decimal(r.control->0.tool_calls as nat) + " | "@ + text::decimal(
                r.treatment->0.tool_calls as nat,
            ) + " | "@ + t.control_recall@ + "% | "@ + t.treatment_recall@ + "% | "@
                + e2e::winner_in(r) + " |\n"@
        }),
{
}

/// A line for one run shows the case, the kind of run, its tool calls, the files that it read, its
/// tokens, and its time.
pub proof fn law_single_line(
    case_id: Seq<char>,
    m: SessionView,
    tokens: Seq<char>,
    seconds: Seq<char>,
)
    ensures
        single_line(case_id, m, tokens, seconds) == "  "@ + text::padded_right(case_id, 12) + " ["@
            + m.variant + "] "@ + text::decimal(m.tool_calls as nat) + " tools, "@ + text::decimal(
            m.files_read.len(),
        ) + " files read, "@ + tokens + "k tokens, "@ + seconds + "s\n"@,
{
}

/// The title names the dataset, the number of tasks and the model, and the model of descriptions
/// where there is one.
pub proof fn law_title(dataset: Seq<char>, count: nat, model: Seq<char>, enrichment: Seq<char>)
    ensures
        title_text(dataset, count, model, None) == "End-to-End Eval: "@ + dataset + " ("@
            + text::decimal(count) + " tasks, model: "@ + model + ")\n"@,
        title_text(dataset, count, model, Some(enrichment)) == "End-to-End Eval: "@ + dataset + " ("@
            + text::decimal(count) + " tasks, model: "@ + model + ", enrichment: "@ + enrichment
            + ")\n"@,
{
}

/// A report compares where a task has at least two runs, with those with descriptions where there
/// is one, and shows each run where none has.
pub proof fn law_body(
    results: Seq<TaskResult>,
    result_texts: Seq<ResultTexts>,
    totals: E2eTotals,
    texts: E2eTexts,
)
    ensures
        ({
            let some = results.filter(
                |r: TaskResult|
                    (r.control is Some && r.treatment is Some) || (r.control is Some && r.enriched
                        is Some) || (r.treatment is Some && r.enriched is Some),
            );
            let show = exists|i: int| 0 <= i < results.len() && (#[trigger] results[i]).enriched
                is Some;
            let body = body_text(results, result_texts, totals, texts);
            &&& some.len() == 0 ==> body == "\n"@ + result_lines(results, result_texts)
            &&& some.len() > 0 && show ==> body == "\n"@ + header_text(true) + measures_text(
                texts,
                true,
            ) + "\n"@ + "  Wins: "@ + wins_text(totals, true)
            &&& some.len() > 0 && !show ==> body == "\n"@ + header_text(false) + measures_text(
                texts,
                false,
            ) + "\n"@ + "  Win/Loss/Tie: "@ + wins_text(totals, false)
        }),
{
    e2e::law_sides(results, super::workspace::WorkspaceKind::Control, "tie"@);
    e2e::law_compared(results);
}

}
