//! The report on two ways to find files.
use vstd::prelude::*;

use super::ab;
use super::ab::{AbTotals, TaskResult};
use super::claude_client::{MetricsView, SessionMetrics};
use crate::lists;
use crate::text;

verus! {

/// Two numbers in writing.
pub struct Pair {
    pub control: String,
    pub treatment: String,
}

/// Two numbers in writing, and the change from one to the other in percent.
pub struct Change {
    pub control: String,
    pub treatment: String,
    pub change: String,
}

/// The averages of all runs in writing: those of counts with one digit after the point, those of
/// recalls with two, and changes with their sign and without digits after the point. Tokens are in
/// thousands.
pub struct AbTexts {
    pub tool_calls: Change,
    pub files_read: Change,
    pub recall_read: Pair,
    pub recall_mentioned: Pair,
    pub tokens: Change,
    pub first_relevant: Pair,
}

// ---------------------------------------------------------------------------------------------
// One run
// ---------------------------------------------------------------------------------------------

/// What is told of a run; `read` and `mentioned` are recalls in percent.
pub open spec fn summary_text(
    label: Seq<char>,
    m: MetricsView,
    read: Seq<char>,
    mentioned: Seq<char>,
) -> Seq<char> {
    "    "@ + text::padded_right(label, 10) + " "@ + text::decimal(m.tool_calls as nat)
        + " tools, "@ + text::decimal(m.files_read.len()) + " files read, recall(read)="@ + read
        + "% recall(mentioned)="@ + mentioned + "%, "@ + text::decimal(m.input_tokens as nat) + "+"@
        + text::decimal(m.output_tokens as nat) + " tokens\n"@
}

/// What is told of a run; `read` and `mentioned` are recalls in percent.
pub fn session_summary(label: &str, m: &SessionMetrics, read: &str, mentioned: &str) -> (r: String)
    ensures
        r@ == summary_text(label@, m@, read@, mentioned@),
{
    let mut out = "    ".to_string();
    text::append_right(&mut out, label, 10);
    out.append(" ");
    out.append(text::decimal_of(m.tool_calls as u64).as_str());
    out.append(" tools, ");
    out.append(text::decimal_of(m.files_read.len() as u64).as_str());
    out.append(" files read, recall(read)=");
    out.append(read);
    out.append("% recall(mentioned)=");
    out.append(mentioned);
    out.append("%, ");
    out.append(text::decimal_of(m.input_tokens).as_str());
    out.append("+");
    out.append(text::decimal_of(m.output_tokens).as_str());
    out.append(" tokens\n");
    out
}

// ---------------------------------------------------------------------------------------------
// Cases
// ---------------------------------------------------------------------------------------------

/// The line over the cases.
pub open spec fn case_header() -> Seq<char> {
    "\n  "@ + text::padded_right("Case"@, 12) + " "@ + text::padded_left("C.tools"@, 8) + " "@
        + text::padded_left("T.tools"@, 8) + " "@ + text::padded_left("C.tokens"@, 10) + " "@
        + text::padded_left("T.tokens"@, 10) + " "@ + text::padded_left("Winner"@, 8) + "\n"@
}

/// The line of a case that was run both ways; tokens are in thousands.
pub open spec fn case_row(
    r: TaskResult,
    control_tokens: Seq<char>,
    treatment_tokens: Seq<char>,
) -> Seq<char> {
    let c = r.control->0@;
    let t = r.treatment->0@;
    "  "@ + text::padded_right(r.case_id@, 12) + " "@ + text::padded_left(
        text::decimal(c.tool_calls as nat),
        8,
    ) + " "@ + text::padded_left(text::decimal(t.tool_calls as nat), 8) + " "@ + text::padded_left(
        control_tokens,
        9,
    ) + "k "@ + text::padded_left(treatment_tokens, 9) + "k "@ + text::padded_left(
        ab::winner(c, t, r.expected@),
        8,
    ) + "\n"@
}

/// The line of a run without another to compare it with; tokens are in thousands.
pub open spec fn single_row(case_id: Seq<char>, m: MetricsView, tokens: Seq<char>) -> Seq<char> {
    "  "@ + text::padded_right(case_id, 12) + " ["@ + m.variant + "] "@ + text::decimal(
        m.tool_calls as nat,
    ) + " tools, "@ + text::decimal(m.files_read.len()) + " files read, "@ + tokens + "k tokens\n"@
}

/// The lines of the cases that were run both ways.
pub open spec fn paired_rows(results: Seq<TaskResult>, tokens: Seq<Pair>) -> Seq<char>
    decreases results.len(),
{
    if results.len() == 0 {
        Seq::empty()
    } else {
        let before = paired_rows(results.drop_last(), tokens.drop_last());
        if ab::is_paired(results.last()) {
            before + case_row(results.last(), tokens.last().control@, tokens.last().treatment@)
        } else {
            before
        }
    }
}

/// The line of a case that was run one way.
pub open spec fn one_row(r: TaskResult, tokens: Pair) -> Seq<char> {
    match r.control {
        Some(m) => single_row(r.case_id@, m@, tokens.control@),
        None => match r.treatment {
            Some(m) => single_row(r.case_id@, m@, tokens.treatment@),
            None => Seq::empty(),
        },
    }
}

/// The lines of cases that were run one way.
pub open spec fn single_rows(results: Seq<TaskResult>, tokens: Seq<Pair>) -> Seq<char>
    decreases results.len(),
{
    if results.len() == 0 {
        Seq::empty()
    } else {
        single_rows(results.drop_last(), tokens.drop_last()) + one_row(
            results.last(),
            tokens.last(),
        )
    }
}

/// The line over the cases.
fn render_header() -> (r: String)
    ensures
        r@ == case_header(),
{
    let mut out = "\n  ".to_string();
    text::append_right(&mut out, "Case", 12);
    out.append(" ");
    text::append_left(&mut out, "C.tools", 8);
    out.append(" ");
    text::append_left(&mut out, "T.tools", 8);
    out.append(" ");
    text::append_left(&mut out, "C.tokens", 10);
    out.append(" ");
    text::append_left(&mut out, "T.tokens", 10);
    out.append(" ");
    text::append_left(&mut out, "Winner", 8);
    out.append("\n");
    out
}

/// The line of a case that was run both ways.
fn render_case(
    r: &TaskResult,
    c: &SessionMetrics,
    t: &SessionMetrics,
    tokens: &Pair,
) -> (s: String)
    requires
        r.control == Some(*c),
        r.treatment == Some(*t),
    ensures
        s@ == case_row(*r, tokens.control@, tokens.treatment@),
{
    let mut out = "  ".to_string();
    text::append_right(&mut out, r.case_id.as_str(), 12);
    out.append(" ");
    text::append_left(&mut out, text::decimal_of(c.tool_calls as u64).as_str(), 8);
    out.append(" ");
    text::append_left(&mut out, text::decimal_of(t.tool_calls as u64).as_str(), 8);
    out.append(" ");
    text::append_left(&mut out, tokens.control.as_str(), 9);
    out.append("k ");
    text::append_left(&mut out, tokens.treatment.as_str(), 9);
    out.append("k ");
    text::append_left(&mut out, ab::case_winner(c, t, &r.expected), 8);
    out.append("\n");
    out
}

/// The line of a run without another to compare it with.
fn render_single(case_id: &str, m: &SessionMetrics, tokens: &str) -> (r: String)
    ensures
        r@ == single_row(case_id@, m@, tokens@),
{
    let mut out = "  ".to_string();
    text::append_right(&mut out, case_id, 12);
    out.append(" [");
    out.append(m.variant.as_str());
    out.append("] ");
    out.append(text::decimal_of(m.tool_calls as u64).as_str());
    out.append(" tools, ");
    out.append(text::decimal_of(m.files_read.len() as u64).as_str());
    out.append(" files read, ");
    out.append(tokens);
    out.append("k tokens\n");
    out
}

/// The lines of the cases that were run both ways.
fn render_paired(results: &Vec<TaskResult>, tokens: &Vec<Pair>) -> (r: String)
    requires
        tokens@.len() == results@.len(),
    ensures
        r@ == paired_rows(results@, tokens@),
{
    let mut out = String::new();
    assert(out@ =~= paired_rows(results@.take(0), tokens@.take(0)));
    for i in 0..results.len()
        invariant
            tokens@.len() == results@.len(),
            out@ == paired_rows(results@.take(i as int), tokens@.take(i as int)),
    {
        let r = &results[i];
        proof {
            assert(results@.take(i + 1).drop_last() =~= results@.take(i as int));
            assert(tokens@.take(i + 1).drop_last() =~= tokens@.take(i as int));
        }
        if let Some(c) = &r.control {
            if let Some(t) = &r.treatment {
                let row = render_case(r, c, t, &tokens[i]);
                out.append(row.as_str());
            }
        }
    }
    assert(results@.take(results@.len() as int) =~= results@);
    assert(tokens@.take(tokens@.len() as int) =~= tokens@);
    out
}

/// The lines of cases that were run one way.
fn render_singles(results: &Vec<TaskResult>, tokens: &Vec<Pair>) -> (r: String)
    requires
        tokens@.len() == results@.len(),
    ensures
        r@ == single_rows(results@, tokens@),
{
    let mut out = String::new();
    assert(out@ =~= single_rows(results@.take(0), tokens@.take(0)));
    for i in 0..results.len()
        invariant
            tokens@.len() == results@.len(),
            out@ == single_rows(results@.take(i as int), tokens@.take(i as int)),
    {
        let r = &results[i];
        proof {
            assert(results@.take(i + 1).drop_last() =~= results@.take(i as int));
            assert(tokens@.take(i + 1).drop_last() =~= tokens@.take(i as int));
        }
        let row = match &r.control {
            Some(m) => render_single(r.case_id.as_str(), m, tokens[i].control.as_str()),
            None => match &r.treatment {
                Some(m) => render_single(r.case_id.as_str(), m, tokens[i].treatment.as_str()),
                None => String::new(),
            },
        };
        assert(row@ =~= one_row(*r, tokens@[i as int]));
        out.append(row.as_str());
    }
    assert(results@.take(results@.len() as int) =~= results@);
    assert(tokens@.take(tokens@.len() as int) =~= tokens@);
    out
}

// ---------------------------------------------------------------------------------------------
// All cases
// ---------------------------------------------------------------------------------------------

/// The line on the uses of tools.
pub open spec fn tool_line(c: Change) -> Seq<char> {
    "    Tool calls:     control avg "@ + c.control@ + "  ->  treatment avg "@ + c.treatment@
        + "  ("@ + c.change@ + "%)\n"@
}

/// The line on the files that were read.
pub open spec fn files_line(c: Change) -> Seq<char> {
    "    Files read:     control avg "@ + c.control@ + "  ->  treatment avg "@ + c.treatment@
        + "  ("@ + c.change@ + "%)\n"@
}

/// The line on the recall of the files that were read.
pub open spec fn read_line(p: Pair) -> Seq<char> {
    "    Recall (read):  control avg "@ + p.control@ + " ->  treatment avg "@ + p.treatment@
        + "\n"@
}

/// The line on the recall of the files that were mentioned.
pub open spec fn mentioned_line(p: Pair) -> Seq<char> {
    "    Recall (ment.): control avg "@ + p.control@ + " ->  treatment avg "@ + p.treatment@
        + "\n"@
}

/// The line on the tokens.
pub open spec fn tokens_line(c: Change) -> Seq<char> {
    "    Tokens:         control avg "@ + c.control@ + "k ->  treatment avg "@ + c.treatment@
        + "k ("@ + c.change@ + "%)\n"@
}

/// The line on the turns in which an expected file was first found, if one was.
pub open spec fn first_line(totals: AbTotals, p: Pair) -> Seq<char> {
    if totals.control.first_turns > 0 || totals.treatment.first_turns > 0 {
        "    First relevant: control turn "@ + p.control@ + " ->  treatment turn "@ + p.treatment@
            + "\n"@
    } else {
        Seq::empty()
    }
}

/// The line on the winners.
pub open spec fn wins_line(totals: AbTotals) -> Seq<char> {
    "    Win/Loss/Tie:   Treatment wins "@ + text::decimal(totals.treatment_wins as nat)
        + ", Control wins "@ + text::decimal(totals.control_wins as nat) + ", Ties "@
        + text::decimal(totals.ties as nat) + "\n"@
}

/// What is told of all cases that were run both ways.
pub open spec fn overall(totals: AbTotals, t: AbTexts) -> Seq<char> {
    "\n  "@ + text::repeated('-', 64) + "\n"@ + "  Overall ("@ + text::decimal(totals.count as nat)
        + " tasks):\n"@ + tool_line(t.tool_calls) + files_line(t.files_read) + read_line(
        t.recall_read,
    ) + mentioned_line(t.recall_mentioned) + tokens_line(t.tokens) + first_line(
        totals,
        t.first_relevant,
    ) + wins_line(totals)
}

/// A line of equals signs.
pub open spec fn double_rule() -> Seq<char> {
    text::repeated('=', 78) + "\n"@
}

/// The report.
pub open spec fn report_text(
    dataset: Seq<char>,
    results: Seq<TaskResult>,
    tokens: Seq<Pair>,
    totals: AbTotals,
    t: AbTexts,
) -> Seq<char> {
    let head = "\n"@ + double_rule() + "A/B Eval Results: "@ + dataset + "\n"@ + double_rule();
    let body = if ab::paired(results).len() > 0 {
        case_header() + "  "@ + text::repeated('-', 64) + "\n"@ + paired_rows(results, tokens)
            + overall(totals, t)
    } else {
        single_rows(results, tokens)
    };
    head + body + double_rule() + "\n"@
}

/// A line on a change.
fn render_change(label: &str, c: &Change, middle: &str, last: &str) -> (r: String)
    ensures
        r@ == label@ + c.control@ + middle@ + c.treatment@ + last@ + c.change@ + "%)\n"@,
{
    label.to_string().concat(c.control.as_str()).concat(middle).concat(
        c.treatment.as_str(),
    ).concat(last).concat(c.change.as_str()).concat("%)\n")
}

/// A line on two numbers.
fn render_pair(label: &str, p: &Pair, middle: &str) -> (r: String)
    ensures
        r@ == label@ + p.control@ + middle@ + p.treatment@ + "\n"@,
{
    label.to_string().concat(p.control.as_str()).concat(middle).concat(
        p.treatment.as_str(),
    ).concat("\n")
}

/// The line on the winners.
fn render_wins(totals: &AbTotals) -> (r: String)
    ensures
        r@ == wins_line(*totals),
{
    "    Win/Loss/Tie:   Treatment wins ".to_string().concat(
        text::decimal_of(totals.treatment_wins as u64).as_str(),
    ).concat(", Control wins ").concat(
        text::decimal_of(totals.control_wins as u64).as_str(),
    ).concat(", Ties ").concat(text::decimal_of(totals.ties as u64).as_str()).concat("\n")
}

/// What is told of all cases that were run both ways.
fn render_overall(totals: &AbTotals, t: &AbTexts) -> (r: String)
    ensures
        r@ == overall(*totals, *t),
{
    let first = if totals.control.first_turns > 0 || totals.treatment.first_turns > 0 {
        render_pair(
            "    First relevant: control turn ",
            &t.first_relevant,
            " ->  treatment turn ",
        )
    } else {
        String::new()
    };
    assert(first@ =~= first_line(*totals, t.first_relevant));
    let tool = render_change(
        "    Tool calls:     control avg ",
        &t.tool_calls,
        "  ->  treatment avg ",
        "  (",
    );
    let files = render_change(
        "    Files read:     control avg ",
        &t.files_read,
        "  ->  treatment avg ",
        "  (",
    );
    let read = render_pair(
        "    Recall (read):  control avg ",
        &t.recall_read,
        " ->  treatment avg ",
    );
    let mentioned = render_pair(
        "    Recall (ment.): control avg ",
        &t.recall_mentioned,
        " ->  treatment avg ",
    );
    let tokens = render_change(
        "    Tokens:         control avg ",
        &t.tokens,
        "k ->  treatment avg ",
        "k (",
    );
    let wins = render_wins(totals);
    let mut out = "\n  ".to_string();
    out.append(text::repeat('-', 64).as_str());
    out.append("\n");
    out.append("  Overall (");
    out.append(text::decimal_of(totals.count as u64).as_str());
    out.append(" tasks):\n");
    out.append(tool.as_str());
    out.append(files.as_str());
    out.append(read.as_str());
    out.append(mentioned.as_str());
    out.append(tokens.as_str());
    out.append(first.as_str());
    out.append(wins.as_str());
    out
}

/// A line of equals signs.
fn render_rule() -> (r: String)
    ensures
        r@ == double_rule(),
{
    text::repeat('=', 78).concat("\n")
}

/// The report on a dataset, given the totals of its results. `tokens` are the tokens of each case
/// in thousands, with one digit after the point.
pub fn print_ab_report(
    dataset: &str,
    results: &Vec<TaskResult>,
    tokens: &Vec<Pair>,
    totals: &AbTotals,
    texts: &AbTexts,
) -> (r: String)
    requires
        tokens@.len() == results@.len(),
    ensures
        r@ == report_text(dataset@, results@, tokens@, *totals, *texts),
{
    let mut any = false;
    assert(results@.take(0) =~= Seq::<TaskResult>::empty());
    for i in 0..results.len()
        invariant
            any == (ab::paired(results@.take(i as int)).len() > 0),
    {
        assert(results@.take(i + 1).drop_last() =~= results@.take(i as int));
        if results[i].control.is_some() && results[i].treatment.is_some() {
            any = true;
        }
    }
    assert(results@.take(results@.len() as int) =~= results@);
    let body = if any {
        let mut body = render_header();
        body.append("  ");
        body.append(text::repeat('-', 64).as_str());
        body.append("\n");
        body.append(render_paired(results, tokens).as_str());
        body.append(render_overall(totals, texts).as_str());
        body
    } else {
        render_singles(results, tokens)
    };
    let rule = render_rule();
    let mut out = "\n".to_string();
    out.append(rule.as_str());
    out.append("A/B Eval Results: ");
    out.append(dataset);
    out.append("\n");
    out.append(rule.as_str());
    out.append(body.as_str());
    out.append(rule.as_str());
    out.append("\n");
    out
}

/// Every task that is compared has a row, in their order, with the numbers that stand at its place.
pub proof fn law_paired_rows(results: Seq<TaskResult>, tokens: Seq<Pair>)
    requires
        results.len() == tokens.len(),
    ensures
        paired_rows(results, tokens) == Seq::new(
            results.len(),
            |i: int|
                if results[i].control is Some && results[i].treatment is Some {
                    case_row(results[i], tokens[i].control@, tokens[i].treatment@)
                } else {
                    Seq::empty()
                },
        ).flatten(),
{
    let part = |r: TaskResult, t: Pair|
        if r.control is Some && r.treatment is Some {
            case_row(r, t.control@, t.treatment@)
        } else {
            Seq::empty()
        };
    let whole = |s: Seq<TaskResult>, t: Seq<Pair>| paired_rows(s, t);
    assert forall|s: Seq<TaskResult>, t: Seq<Pair>| s.len() > 0 implies whole(s, t) == whole(
        s.drop_last(),
        t.drop_last(),
    ) + #[trigger] part(s.last(), t.last()) by {
        assert(whole(s.drop_last(), t.drop_last()) + Seq::<char>::empty() =~= whole(
            s.drop_last(),
            t.drop_last(),
        ));
    }
    lists::lemma_parts_of_two(results, tokens, part, whole);
    assert(Seq::new(results.len(), |i: int| part(results[i], tokens[i])) =~= Seq::new(
        results.len(),
        |i: int|
            if results[i].control is Some && results[i].treatment is Some {
                case_row(results[i], tokens[i].control@, tokens[i].treatment@)
            } else {
                Seq::empty()
            },
    ));
}

/// Every task with a run has a row where none is compared, in their order, with the number of that
/// run.
pub proof fn law_single_rows(results: Seq<TaskResult>, tokens: Seq<Pair>)
    requires
        results.len() == tokens.len(),
    ensures
        single_rows(results, tokens) == Seq::new(
            results.len(),
            |i: int|
                if results[i].control is Some {
                    single_row(
                        results[i].case_id@,
                        results[i].control->0@,
                        tokens[i].control@,
                    )
                } else if results[i].treatment is Some {
                    single_row(
                        results[i].case_id@,
                        results[i].treatment->0@,
                        tokens[i].treatment@,
                    )
                } else {
                    Seq::empty()
                },
        ).flatten(),
{
    let part = |r: TaskResult, t: Pair| one_row(r, t);
    let whole = |s: Seq<TaskResult>, t: Seq<Pair>| single_rows(s, t);
    lists::lemma_parts_of_two(results, tokens, part, whole);
    assert(Seq::new(results.len(), |i: int| part(results[i], tokens[i])) =~= Seq::new(
        results.len(),
        |i: int|
            if results[i].control is Some {
                single_row(results[i].case_id@, results[i].control->0@, tokens[i].control@)
            } else if results[i].treatment is Some {
                single_row(results[i].case_id@, results[i].treatment->0@, tokens[i].treatment@)
            } else {
                Seq::empty()
            },
    ));
}

/// A row of a comparison shows the case, the tool calls of each side, the tokens of each side, and
/// the winner, the side without codemap first, one below the other.
pub proof fn law_case_row(r: TaskResult, control: Seq<char>, treatment: Seq<char>)
    requires
        r.control is Some,
        r.treatment is Some,
    ensures
        case_row(r, control, treatment) == text::join(
            seq![
                "  "@ + text::padded_right(r.case_id@, 12),
                text::padded_left(text::decimal(r.control->0.tool_calls as nat), 8),
                text::padded_left(text::decimal(r.treatment->0.tool_calls as nat), 8),
                text::padded_left(control, 9) + "k"@,
                text::padded_left(treatment, 9) + "k"@,
                text::padded_left(ab::winner(r.control->0@, r.treatment->0@, r.expected@), 8),
            ],
            " "@,
        ) + "\n"@,
{
    reveal_with_fuel(text::join, 7);
    reveal_strlit(" ");
    reveal_strlit("k");
    reveal_strlit("k ");
    let cells = seq![
        "  "@ + text::padded_right(r.case_id@, 12),
        text::padded_left(text::decimal(r.control->0.tool_calls as nat), 8),
        text::padded_left(text::decimal(r.treatment->0.tool_calls as nat), 8),
        text::padded_left(control, 9) + "k"@,
        text::padded_left(treatment, 9) + "k"@,
        text::padded_left(ab::winner(r.control->0@, r.treatment->0@, r.expected@), 8),
    ];
    let five = cells.drop_last();
    let four = five.drop_last();
    let three = four.drop_last();
    let two = three.drop_last();
    let one = two.drop_last();
    assert(one.len() == 1 && one[0] == cells[0] && two.last() == cells[1] && three.last() == cells[2]
        && four.last() == cells[3] && five.last() == cells[4] && cells.last() == cells[5]);
    assert(case_row(r, control, treatment) =~= text::join(cells, " "@) + "\n"@);
}

/// A line for one run shows its label, its tool calls, the files that it read, both recalls, and
/// its tokens, those that came in first.
pub proof fn law_summary_text(
    label: Seq<char>,
    m: MetricsView,
    read: Seq<char>,
    mentioned: Seq<char>,
)
    ensures
        summary_text(label, m, read, mentioned) == "    "@ + text::padded_right(label, 10) + " "@
            + text::decimal(m.tool_calls as nat) + " tools, "@ + text::decimal(m.files_read.len())
            + " files read, recall(read)="@ + read + "% recall(mentioned)="@ + mentioned + "%, "@
            + text::decimal(m.input_tokens as nat) + "+"@ + text::decimal(m.output_tokens as nat)
            + " tokens\n"@,
{
}

/// A line for one run of a task shows the case, the kind of run, its tool calls, the files that it
/// read, and its tokens.
pub proof fn law_single_row(case_id: Seq<char>, m: MetricsView, tokens: Seq<char>)
    ensures
        single_row(case_id, m, tokens) == "  "@ + text::padded_right(case_id, 12) + " ["@ + m.variant
            + "] "@ + text::decimal(m.tool_calls as nat) + " tools, "@ + text::decimal(
            m.files_read.len(),
        ) + " files read, "@ + tokens + "k tokens\n"@,
{
}

/// The lines of all tasks show each measure of both sides, that without codemap first; when a file
/// was found first only where it was; and who won how often.
pub proof fn law_overall(totals: AbTotals, t: AbTexts)
    ensures
        overall(totals, t) == "\n  "@ + text::repeated('-', 64) + "\n"@ + "  Overall ("@
            + text::decimal(totals.count as nat) + " tasks):\n"@ + (
        "    Tool calls:     control avg "@ + t.tool_calls.control@ + "  ->  treatment avg "@
            + t.tool_calls.treatment@ + "  ("@ + t.tool_calls.change@ + "%)\n"@) + (
        "    Files read:     control avg "@ + t.files_read.control@ + "  ->  treatment avg "@
            + t.files_read.treatment@ + "  ("@ + t.files_read.change@ + "%)\n"@) + (
        "    Recall (read):  control avg "@ + t.recall_read.control@ + " ->  treatment avg "@
            + t.recall_read.treatment@ + "\n"@) + ("    Recall (ment.): control avg "@
            + t.recall_mentioned.control@ + " ->  treatment avg "@ + t.recall_mentioned.treatment@
            + "\n"@) + ("    Tokens:         control avg "@ + t.tokens.control@
            + "k ->  treatment avg "@ + t.tokens.treatment@ + "k ("@ + t.tokens.change@ + "%)\n"@) + (
        if totals.control.first_turns > 0 || totals.treatment.first_turns > 0 {
            "    First relevant: control turn "@ + t.first_relevant.control@ + " ->  treatment turn "@
                + t.first_relevant.treatment@ + "\n"@
        } else {
            Seq::empty()
        }) + ("    Win/Loss/Tie:   Treatment wins "@ + text::decimal(totals.treatment_wins as nat)
            + ", Control wins "@ + text::decimal(totals.control_wins as nat) + ", Ties "@
            + text::decimal(totals.ties as nat) + "\n"@),
{
}

/// A report compares where a task has both runs, and shows each run where none has.
pub proof fn law_report(
    dataset: Seq<char>,
    results: Seq<TaskResult>,
    tokens: Seq<Pair>,
    totals: AbTotals,
    t: AbTexts,
)
    ensures
        ({
            let rule = text::repeated('=', 78) + "\n"@;
            let head = "\n"@ + rule + "A/B Eval Results: "@ + dataset + "\n"@ + rule;
            let both = results.filter(|r: TaskResult| r.control is Some && r.treatment is Some);
            &&& both.len() == 0 ==> report_text(dataset, results, tokens, totals, t) == head
                + single_rows(results, tokens) + rule + "\n"@
            &&& both.len() > 0 ==> report_text(dataset, results, tokens, totals, t) == head + (
            case_header() + "  "@ + text::repeated('-', 64) + "\n"@ + paired_rows(results, tokens)
                + overall(totals, t)) + rule + "\n"@
        }),
{
    ab::law_sides(results, "tie"@);
}

}
