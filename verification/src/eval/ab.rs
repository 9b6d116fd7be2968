//! Two ways to find files side by side: with and without the tools of the index.
use vstd::prelude::*;

use super::claude_client::{MetricsView, SessionMetrics};
use super::metrics;
use super::metrics::Share;
use super::names::FileSet;
use crate::json;
use crate::json::{Json, JsonView};
use crate::lists;
use crate::text;

verus! {

/// What a model without the index is told.
pub const CONTROL_SYSTEM_PROMPT: &'static str = "\
You are a coding assistant. Your task is to explore a codebase and identify the files \
most relevant to a given task.

Use the available tools (grep, glob, read_file) to explore the codebase and find the \
files you would need to read or modify to complete the task.

When you are done exploring, list the files you identified as relevant and explain why.";

/// What a model with the index is told, behind the map of the code.
pub const TREATMENT_SYSTEM_PROMPT: &'static str = "\
You are a coding assistant. Your task is to explore a codebase and identify the files \
most relevant to a given task.

You have structural codebase tools available:
- codemap_context: find relevant files for a task (start here)
- codemap_symbol: find where a symbol is defined and referenced
- codemap_deps: show imports and importers of a file

You also have standard tools: grep, glob, read_file.

When you are done exploring, list the files you identified as relevant and explain why.";

/// Which of the two ways are run.
#[derive(Clone, Copy, Debug, PartialEq, Eq, Structural)]
pub enum Variant {
    Both,
    Control,
    Treatment,
}

impl Variant {
    /// Whether the way without the index is run.
    pub fn runs_control(&self) -> (r: bool)
        ensures
            r == (*self != Variant::Treatment),
    {
        !matches!(self, Variant::Treatment)
    }

    /// Whether the way with the index is run.
    pub fn runs_treatment(&self) -> (r: bool)
        ensures
            r == (*self != Variant::Control),
    {
        !matches!(self, Variant::Control)
    }
}

/// What a model with the index is told.
pub fn treatment_system(map_output: &str) -> (r: String)
    ensures
        r@ == map_output@ + "\n\n"@ + TREATMENT_SYSTEM_PROMPT@,
{
    map_output.to_string().concat("\n\n").concat(TREATMENT_SYSTEM_PROMPT)
}

/// What came of one case.
pub struct TaskResult {
    pub case_id: String,
    pub expected: FileSet,
    pub control: Option<SessionMetrics>,
    pub treatment: Option<SessionMetrics>,
}

// ---------------------------------------------------------------------------------------------
// Winners
// ---------------------------------------------------------------------------------------------

/// The recall of the files that were found.
pub open spec fn recall_of(found: Set<Seq<char>>, expected: Set<Seq<char>>) -> Share {
    Share { hits: expected.intersect(found).len() as usize, total: expected.len() as usize }
}

/// The way that did better: by the recall of the files that were mentioned, where that differs by
/// more than a hundredth, and else by fewer uses of tools.
pub open spec fn winner(c: MetricsView, t: MetricsView, expected: Set<Seq<char>>) -> Seq<char> {
    let cr = recall_of(c.files_mentioned, expected);
    let tr = recall_of(t.files_mentioned, expected);
    if metrics::clearly_larger(tr, cr) {
        "treat"@
    } else if metrics::clearly_larger(cr, tr) {
        "ctrl"@
    } else if t.tool_calls < c.tool_calls {
        "treat"@
    } else if c.tool_calls < t.tool_calls {
        "ctrl"@
    } else {
        "tie"@
    }
}

/// The way that did better.
pub fn case_winner(
    control: &SessionMetrics,
    treatment: &SessionMetrics,
    expected: &FileSet,
) -> (r: &'static str)
    ensures
        r@ == winner(control@, treatment@, expected@),
{
    let c_recall = metrics::recall(&control.files_mentioned, expected);
    let t_recall = metrics::recall(&treatment.files_mentioned, expected);
    if metrics::is_clearly_larger(t_recall, c_recall) {
        "treat"
    } else if metrics::is_clearly_larger(c_recall, t_recall) {
        "ctrl"
    } else if treatment.tool_calls < control.tool_calls {
        "treat"
    } else if control.tool_calls < treatment.tool_calls {
        "ctrl"
    } else {
        "tie"
    }
}

/// No case is won by both ways: turned round, the other way wins, and a tie stays one.
pub proof fn law_winner_symmetric(c: MetricsView, t: MetricsView, expected: Set<Seq<char>>)
    ensures
        (winner(c, t, expected) == "treat"@) == (winner(t, c, expected) == "ctrl"@),
        (winner(c, t, expected) == "tie"@) == (winner(t, c, expected) == "tie"@),
{
    reveal_strlit("treat");
    reveal_strlit("ctrl");
    reveal_strlit("tie");
    assert("treat"@.len() == 5 && "ctrl"@.len() == 4 && "tie"@.len() == 3);
}

// ---------------------------------------------------------------------------------------------
// Totals
// ---------------------------------------------------------------------------------------------

/// What all runs of one way did together. Sums stop at the largest number that can be held.
pub struct SideTotals {
    pub tool_calls: u128,
    pub files_read: u128,
    pub tokens: u128,
    pub recall_read: Vec<Share>,
    pub recall_mentioned: Vec<Share>,
    pub first_turns: u128,
    pub first_count: usize,
}

/// A run with the files that it should find.
#[verifier::ext_equal]
pub struct RunView {
    pub metrics: MetricsView,
    pub expected: Set<Seq<char>>,
}

/// How often some runs used a tool.
pub open spec fn tool_calls_in(runs: Seq<RunView>) -> nat
    decreases runs.len(),
{
    if runs.len() == 0 {
        0
    } else {
        tool_calls_in(runs.drop_last()) + runs.last().metrics.tool_calls as nat
    }
}

/// How many files some runs read.
pub open spec fn files_read_in(runs: Seq<RunView>) -> nat
    decreases runs.len(),
{
    if runs.len() == 0 {
        0
    } else {
        files_read_in(runs.drop_last()) + runs.last().metrics.files_read.len()
    }
}

/// How many tokens some runs took.
pub open spec fn tokens_in(runs: Seq<RunView>) -> nat
    decreases runs.len(),
{
    if runs.len() == 0 {
        0
    } else {
        tokens_in(runs.drop_last()) + tokens_of(runs.last().metrics)
    }
}

/// How many tokens a run took.
pub open spec fn tokens_of(m: MetricsView) -> nat {
    m.input_tokens as nat + m.output_tokens as nat
}

/// The turns in which some runs first found an expected file, added up.
pub open spec fn first_turns_in(runs: Seq<RunView>) -> nat
    decreases runs.len(),
{
    if runs.len() == 0 {
        0
    } else {
        first_turns_in(runs.drop_last()) + (match runs.last().metrics.first_relevant {
            Some(turn) => turn as nat,
            None => 0nat,
        })
    }
}

/// How many runs found an expected file.
pub open spec fn first_count_in(runs: Seq<RunView>) -> nat
    decreases runs.len(),
{
    if runs.len() == 0 {
        0
    } else {
        first_count_in(runs.drop_last()) + (if runs.last().metrics.first_relevant is Some {
            1nat
        } else {
            0nat
        })
    }
}

/// Whether totals are those of some runs; the first turns are counted only `with_first`.
pub open spec fn totals_of(t: SideTotals, runs: Seq<RunView>, with_first: bool) -> bool {
    &&& t.tool_calls == text::capped(tool_calls_in(runs))
    &&& t.files_read == text::capped(files_read_in(runs))
    &&& t.tokens == text::capped(tokens_in(runs))
    &&& t.recall_read@.len() == runs.len()
    &&& forall|i: int|
        0 <= i < runs.len() ==> metrics::is_recall_of(
            #[trigger] t.recall_read@[i],
            runs[i].metrics.files_read,
            runs[i].expected,
        )
    &&& t.recall_mentioned@.len() == runs.len()
    &&& forall|i: int|
        0 <= i < runs.len() ==> metrics::is_recall_of(
            #[trigger] t.recall_mentioned@[i],
            runs[i].metrics.files_mentioned,
            runs[i].expected,
        )
    &&& t.first_turns == (if with_first {
        text::capped(first_turns_in(runs))
    } else {
        0
    })
    &&& t.first_count == (if with_first {
        first_count_in(runs)
    } else {
        0
    })
}

/// No more runs found an expected file than there are.
proof fn lemma_first_count(runs: Seq<RunView>)
    ensures
        first_count_in(runs) <= runs.len(),
    decreases runs.len(),
{
    if runs.len() > 0 {
        lemma_first_count(runs.drop_last());
    }
}

/// Totals of nothing.
fn no_totals(with_first: bool) -> (r: SideTotals)
    ensures
        totals_of(r, Seq::empty(), with_first),
{
    SideTotals {
        tool_calls: 0,
        files_read: 0,
        tokens: 0,
        recall_read: Vec::new(),
        recall_mentioned: Vec::new(),
        first_turns: 0,
        first_count: 0,
    }
}

/// Adds a run to totals.
fn add_run(
    t: &mut SideTotals,
    m: &SessionMetrics,
    expected: &FileSet,
    with_first: bool,
    Ghost(runs): Ghost<Seq<RunView>>,
)
    requires
        totals_of(*old(t), runs, with_first),
        runs.len() < usize::MAX,
    ensures
        totals_of(
            *final(t),
            runs.push(RunView { metrics: m@, expected: expected@ }),
            with_first,
        ),
{
    let ghost after = runs.push(RunView { metrics: m@, expected: expected@ });
    proof {
        assert(after.drop_last() =~= runs);
        lemma_first_count(runs);
    }
    t.tool_calls = t.tool_calls.saturating_add(m.tool_calls as u128);
    t.files_read = t.files_read.saturating_add(m.files_read.len() as u128);
    t.tokens = t.tokens.saturating_add(m.input_tokens as u128 + m.output_tokens as u128);
    t.recall_read.push(metrics::recall(&m.files_read, expected));
    t.recall_mentioned.push(metrics::recall(&m.files_mentioned, expected));
    if with_first {
        if let Some(turn) = m.first_relevant_file_turn {
            t.first_turns = t.first_turns.saturating_add(turn as u128);
            t.first_count = t.first_count + 1;
        }
    }
}

/// Whether both ways were run.
pub open spec fn is_paired(r: TaskResult) -> bool {
    r.control is Some && r.treatment is Some
}

/// The results where both ways were run.
pub open spec fn paired(results: Seq<TaskResult>) -> Seq<TaskResult>
    decreases results.len(),
{
    if results.len() == 0 {
        Seq::empty()
    } else if is_paired(results.last()) {
        paired(results.drop_last()).push(results.last())
    } else {
        paired(results.drop_last())
    }
}

/// The runs of the way without the index.
pub open spec fn control_runs(results: Seq<TaskResult>) -> Seq<RunView>
    decreases results.len(),
{
    if results.len() == 0 {
        Seq::empty()
    } else {
        let before = control_runs(results.drop_last());
        match results.last().control {
            Some(m) => before.push(RunView { metrics: m@, expected: results.last().expected@ }),
            None => before,
        }
    }
}

/// The runs of the way with the index.
pub open spec fn treatment_runs(results: Seq<TaskResult>) -> Seq<RunView>
    decreases results.len(),
{
    if results.len() == 0 {
        Seq::empty()
    } else {
        let before = treatment_runs(results.drop_last());
        match results.last().treatment {
            Some(m) => before.push(RunView { metrics: m@, expected: results.last().expected@ }),
            None => before,
        }
    }
}

/// How many of the results, of those where both ways were run, have this winner.
pub open spec fn wins_in(results: Seq<TaskResult>, name: Seq<char>) -> nat
    decreases results.len(),
{
    if results.len() == 0 {
        0
    } else {
        let r = results.last();
        wins_in(results.drop_last(), name) + (if is_paired(r) && winner(
            r.control->0@,
            r.treatment->0@,
            r.expected@,
        ) == name {
            1nat
        } else {
            0nat
        })
    }
}

/// What all runs did together.
pub struct AbTotals {
    pub count: usize,
    pub control: SideTotals,
    pub treatment: SideTotals,
    pub treatment_wins: usize,
    pub control_wins: usize,
    pub ties: usize,
}

/// The runs of results that are all paired stand one for each result; of any, at most one.
proof fn lemma_run_counts(results: Seq<TaskResult>)
    ensures
        control_runs(results).len() <= results.len(),
        treatment_runs(results).len() <= results.len(),
        paired(results).len() <= results.len(),
    decreases results.len(),
{
    if results.len() > 0 {
        lemma_run_counts(results.drop_last());
    }
}

/// Adds up all results, or those where both ways were run.
fn add_up(results: &Vec<TaskResult>, paired_only: bool) -> (r: AbTotals)
    ensures
        ({
            let used = if paired_only {
                paired(results@)
            } else {
                results@
            };
            &&& r.count == used.len()
            &&& totals_of(r.control, control_runs(used), paired_only)
            &&& totals_of(r.treatment, treatment_runs(used), paired_only)
            &&& r.treatment_wins == (if paired_only {
                wins_in(results@, "treat"@)
            } else {
                0
            })
            &&& r.control_wins == (if paired_only {
                wins_in(results@, "ctrl"@)
            } else {
                0
            })
            &&& r.ties == (if paired_only {
                wins_in(results@, "tie"@)
            } else {
                0
            })
        }),
{
    let mut t = AbTotals {
        count: 0,
        control: no_totals(paired_only),
        treatment: no_totals(paired_only),
        treatment_wins: 0,
        control_wins: 0,
        ties: 0,
    };
    let ghost mut used: Seq<TaskResult> = Seq::empty();
    proof {
        assert(results@.take(0) =~= Seq::<TaskResult>::empty());
        reveal_strlit("treat");
        reveal_strlit("ctrl");
        reveal_strlit("tie");
        assert("treat"@.len() == 5 && "ctrl"@.len() == 4 && "tie"@.len() == 3);
    }
    for i in 0..results.len()
        invariant
            "treat"@.len() == 5 && "ctrl"@.len() == 4 && "tie"@.len() == 3,
            used == (if paired_only {
                paired(results@.take(i as int))
            } else {
                results@.take(i as int)
            }),
            used.len() <= i,
            t.count == used.len(),
            totals_of(t.control, control_runs(used), paired_only),
            totals_of(t.treatment, treatment_runs(used), paired_only),
            t.treatment_wins == (if paired_only {
                wins_in(results@.take(i as int), "treat"@)
            } else {
                0
            }),
            t.control_wins == (if paired_only {
                wins_in(results@.take(i as int), "ctrl"@)
            } else {
                0
            }),
            t.ties == (if paired_only {
                wins_in(results@.take(i as int), "tie"@)
            } else {
                0
            }),
            t.treatment_wins <= i,
            t.control_wins <= i,
            t.ties <= i,
    {
        let r = &results[i];
        proof {
            assert(results@.take(i + 1).drop_last() =~= results@.take(i as int));
            assert(results@.take(i + 1).last() == *r);
            lemma_run_counts(used);
        }
        let both = r.control.is_some() && r.treatment.is_some();
        if both || !paired_only {
            let ghost before = used;
            proof {
                used = before.push(*r);
                assert(used.drop_last() =~= before);
                if !paired_only {
                    assert(used =~= results@.take(i + 1));
                }
            }
            t.count = t.count + 1;
            if let Some(c) = &r.control {
                add_run(
                    &mut t.control,
                    c,
                    &r.expected,
                    paired_only,
                    Ghost(control_runs(before)),
                );
            }
            if let Some(m) = &r.treatment {
                add_run(
                    &mut t.treatment,
                    m,
                    &r.expected,
                    paired_only,
                    Ghost(treatment_runs(before)),
                );
            }
        }
        if paired_only {
            if let Some(c) = &r.control {
                if let Some(m) = &r.treatment {
                    let won = case_winner(c, m, &r.expected);
                    if text::same(won, "treat") {
                        t.treatment_wins = t.treatment_wins + 1;
                    } else if text::same(won, "ctrl") {
                        t.control_wins = t.control_wins + 1;
                    } else {
                        t.ties = t.ties + 1;
                    }
                }
            }
        }
    }
    assert(results@.take(results@.len() as int) =~= results@);
    t
}

/// Whether totals are those of some results: of those where both ways were run, or, where there are
/// none, of all, without winners and first turns.
pub open spec fn aggregates(t: AbTotals, results: Seq<TaskResult>) -> bool {
    let comparing = paired(results).len() > 0;
    let used = if comparing {
        paired(results)
    } else {
        results
    };
    &&& t.count == used.len()
    &&& totals_of(t.control, control_runs(used), comparing)
    &&& totals_of(t.treatment, treatment_runs(used), comparing)
    &&& t.treatment_wins == wins_in(results, "treat"@)
    &&& t.control_wins == wins_in(results, "ctrl"@)
    &&& t.ties == wins_in(results, "tie"@)
}

/// Where no result is paired, none has a winner.
proof fn lemma_no_wins(results: Seq<TaskResult>, name: Seq<char>)
    requires
        paired(results).len() == 0,
    ensures
        wins_in(results, name) == 0,
    decreases results.len(),
{
    if results.len() > 0 {
        lemma_no_wins(results.drop_last(), name);
    }
}

/// Adds up what came of the cases.
pub fn compute_aggregate(results: &Vec<TaskResult>) -> (r: AbTotals)
    ensures
        aggregates(r, results@),
{
    let compared = add_up(results, true);
    if compared.count > 0 {
        compared
    } else {
        proof {
            lemma_no_wins(results@, "treat"@);
            lemma_no_wins(results@, "ctrl"@);
            lemma_no_wins(results@, "tie"@);
        }
        add_up(results, false)
    }
}

/// Each case that was run both ways has one winner or is a tie.
pub proof fn law_wins_add_up(results: Seq<TaskResult>)
    ensures
        wins_in(results, "treat"@) + wins_in(results, "ctrl"@) + wins_in(results, "tie"@)
            == paired(results).len(),
    decreases results.len(),
{
    reveal_strlit("treat");
    reveal_strlit("ctrl");
    reveal_strlit("tie");
    assert("treat"@.len() == 5 && "ctrl"@.len() == 4 && "tie"@.len() == 3);
    if results.len() > 0 {
        law_wins_add_up(results.drop_last());
    }
}

// ---------------------------------------------------------------------------------------------
// Settings
// ---------------------------------------------------------------------------------------------

/// What is told when there is no key.
pub const NO_KEY: &'static str = "ANTHROPIC_API_KEY not set. Required for A/B eval.\n\
     Get a key at https://console.anthropic.com/settings/keys";

/// The name of a variant.
pub open spec fn variant_name(variant: Variant) -> Seq<char> {
    match variant {
        Variant::Both => "Both"@,
        Variant::Control => "Control"@,
        Variant::Treatment => "Treatment"@,
    }
}

/// The settings of a run, for the archive.
pub open spec fn settings(
    model: Seq<char>,
    max_turns: u64,
    max_input_tokens: u64,
    variant: Variant,
) -> JsonView {
    let o = JsonView::Object(Seq::empty());
    let o = json::with_member(o, "model"@, JsonView::Text(model));
    let o = json::with_member(o, "max_turns"@, json::whole_view(max_turns));
    let o = json::with_member(o, "max_input_tokens"@, json::whole_view(max_input_tokens));
    json::with_member(o, "variant"@, JsonView::Text(variant_name(variant)))
}

/// The settings of a run, for the archive.
pub fn make_settings(
    model: &str,
    max_turns: usize,
    max_input_tokens: u64,
    variant: Variant,
) -> (r: Json)
    ensures
        r.tree() == settings(model@, max_turns as u64, max_input_tokens, variant),
{
    let name = match variant {
        Variant::Both => "Both",
        Variant::Control => "Control",
        Variant::Treatment => "Treatment",
    };
    let o = json::add_member(json::empty_object(), "model", json::text_value(model));
    let o = json::add_member(o, "max_turns", json::whole_value(max_turns as u64));
    let o = json::add_member(o, "max_input_tokens", json::whole_value(max_input_tokens));
    json::add_member(o, "variant", json::text_value(name))
}

/// What is added up over runs is what each of them counts: its tool calls, the files that it read,
/// its tokens of both kinds, and the turns until it found a file; and the runs that found one are
/// counted.
pub proof fn law_totals_add_up(
    a: Seq<RunView>,
    b: Seq<RunView>,
    run: RunView,
    runs_counted: Seq<RunView>,
)
    ensures
        tool_calls_in(a + b) == tool_calls_in(a) + tool_calls_in(b),
        tool_calls_in(seq![run]) == run.metrics.tool_calls as nat,
        files_read_in(a + b) == files_read_in(a) + files_read_in(b),
        files_read_in(seq![run]) == run.metrics.files_read.len(),
        tokens_in(a + b) == tokens_in(a) + tokens_in(b),
        tokens_in(seq![run]) == run.metrics.input_tokens as nat + run.metrics.output_tokens as nat,
        first_turns_in(a + b) == first_turns_in(a) + first_turns_in(b),
        first_turns_in(seq![run]) == (match run.metrics.first_relevant {
            Some(turn) => turn as nat,
            None => 0nat,
        }),
        first_count_in(runs_counted) == runs_counted.filter(
            |r: RunView| r.metrics.first_relevant is Some,
        ).len(),
{
    reveal_with_fuel(tool_calls_in, 2);
    reveal_with_fuel(files_read_in, 2);
    reveal_with_fuel(tokens_in, 2);
    reveal_with_fuel(first_turns_in, 2);
    assert(seq![run].drop_last() =~= Seq::<RunView>::empty());
    lists::lemma_sum(
        a,
        b,
        |run: RunView| run.metrics.tool_calls as nat,
        |s: Seq<RunView>| tool_calls_in(s),
    );
    lists::lemma_sum(
        a,
        b,
        |run: RunView| run.metrics.files_read.len(),
        |s: Seq<RunView>| files_read_in(s),
    );
    lists::lemma_sum(
        a,
        b,
        |run: RunView| run.metrics.input_tokens as nat + run.metrics.output_tokens as nat,
        |s: Seq<RunView>| tokens_in(s),
    );
    lists::lemma_sum(
        a,
        b,
        |run: RunView|
            match run.metrics.first_relevant {
                Some(turn) => turn as nat,
                None => 0nat,
            },
        |s: Seq<RunView>| first_turns_in(s),
    );
    lists::lemma_count(
        runs_counted,
        |r: RunView| r.metrics.first_relevant is Some,
        |s: Seq<RunView>| first_count_in(s),
    );
}

/// The tasks that are compared are those with both runs; the runs of a side are those of all tasks
/// that have one, in their order, with what the task expects; and a side wins as often as its name
/// is the winner's.
pub proof fn law_sides(results: Seq<TaskResult>, name: Seq<char>)
    ensures
        paired(results) == results.filter(
            |r: TaskResult| r.control is Some && r.treatment is Some,
        ),
        control_runs(results) == results.filter(|r: TaskResult| r.control is Some).map_values(
            |r: TaskResult| RunView { metrics: r.control->0@, expected: r.expected@ },
        ),
        treatment_runs(results) == results.filter(|r: TaskResult| r.treatment is Some).map_values(
            |r: TaskResult| RunView { metrics: r.treatment->0@, expected: r.expected@ },
        ),
        wins_in(results, name) == results.filter(
            |r: TaskResult|
                r.control is Some && r.treatment is Some && winner(
                    r.control->0@,
                    r.treatment->0@,
                    r.expected@,
                ) == name,
        ).len(),
{
    let both = |r: TaskResult| r.control is Some && r.treatment is Some;
    let same = |r: TaskResult| r;
    lists::lemma_kept(results, both, same, |s: Seq<TaskResult>| paired(s));
    assert(results.filter(both).map_values(same) =~= results.filter(both));
    lists::lemma_kept(
        results,
        |r: TaskResult| r.control is Some,
        |r: TaskResult| RunView { metrics: r.control->0@, expected: r.expected@ },
        |s: Seq<TaskResult>| control_runs(s),
    );
    lists::lemma_kept(
        results,
        |r: TaskResult| r.treatment is Some,
        |r: TaskResult| RunView { metrics: r.treatment->0@, expected: r.expected@ },
        |s: Seq<TaskResult>| treatment_runs(s),
    );
    lists::lemma_count(
        results,
        |r: TaskResult|
            r.control is Some && r.treatment is Some && winner(
                r.control->0@,
                r.treatment->0@,
                r.expected@,
            ) == name,
        |s: Seq<TaskResult>| wins_in(s, name),
    );
}

/// What totals say of results: the tasks that are compared, or all where none is; of each side the
/// sums over its runs, with a recall for each of them by what it read and by what it mentioned; and
/// who won how often.
pub proof fn law_aggregates(t: AbTotals, results: Seq<TaskResult>)
    requires
        aggregates(t, results),
    ensures
        ({
            let both = results.filter(|r: TaskResult| r.control is Some && r.treatment is Some);
            let used = if both.len() > 0 {
                both
            } else {
                results
            };
            let c = control_runs(used);
            let m = treatment_runs(used);
            &&& t.count == used.len()
            &&& t.control.tool_calls == text::capped(tool_calls_in(c))
            &&& t.treatment.tool_calls == text::capped(tool_calls_in(m))
            &&& t.control.files_read == text::capped(files_read_in(c))
            &&& t.treatment.files_read == text::capped(files_read_in(m))
            &&& t.control.tokens == text::capped(tokens_in(c))
            &&& t.treatment.tokens == text::capped(tokens_in(m))
            &&& both.len() > 0 ==> t.control.first_turns == text::capped(first_turns_in(c))
                && t.control.first_count == first_count_in(c)
            &&& both.len() > 0 ==> t.treatment.first_turns == text::capped(first_turns_in(m))
                && t.treatment.first_count == first_count_in(m)
            &&& t.treatment_wins + t.control_wins + t.ties == both.len()
            &&& t.control.recall_read@.len() == c.len() && t.treatment.recall_read@.len() == m.len()
            &&& t.control.recall_mentioned@.len() == c.len()
            &&& t.treatment.recall_mentioned@.len() == m.len()
            &&& forall|i: int|
                0 <= i < c.len() ==> (#[trigger] t.control.recall_read@[i]).total
                    == c[i].expected.len() && t.control.recall_read@[i].hits
                    == c[i].expected.intersect(c[i].metrics.files_read).len()
            &&& forall|i: int|
                0 <= i < m.len() ==> (#[trigger] t.treatment.recall_read@[i]).total
                    == m[i].expected.len() && t.treatment.recall_read@[i].hits
                    == m[i].expected.intersect(m[i].metrics.files_read).len()
            &&& forall|i: int|
                0 <= i < c.len() ==> (#[trigger] t.control.recall_mentioned@[i]).hits
                    == c[i].expected.intersect(c[i].metrics.files_mentioned).len()
            &&& forall|i: int|
                0 <= i < m.len() ==> (#[trigger] t.treatment.recall_mentioned@[i]).hits
                    == m[i].expected.intersect(m[i].metrics.files_mentioned).len()
        }),
        t.treatment_wins == wins_in(results, "treat"@),
        t.control_wins == wins_in(results, "ctrl"@),
        t.ties == wins_in(results, "tie"@),
{
    law_sides(results, "treat"@);
    law_wins_add_up(results);
}

/// Of two runs, the one that mentioned clearly more of what is expected wins; where neither did,
/// the one with fewer tool calls; and with as many it is a tie.
pub proof fn law_winner(c: MetricsView, t: MetricsView, expected: Set<Seq<char>>)
    requires
        expected.finite(),
        expected.len() <= usize::MAX,
    ensures
        ({
            let a = expected.intersect(c.files_mentioned).len() as int;
            let b = expected.intersect(t.files_mentioned).len() as int;
            let n = expected.len() as int;
            let w = winner(c, t, expected);
            &&& 100 * (a - b) > n ==> w == "ctrl"@
            &&& 100 * (b - a) > n ==> w == "treat"@
            &&& 100 * (a - b) <= n && 100 * (b - a) <= n && c.tool_calls < t.tool_calls ==> w
                == "ctrl"@
            &&& 100 * (a - b) <= n && 100 * (b - a) <= n && t.tool_calls < c.tool_calls ==> w
                == "treat"@
            &&& 100 * (a - b) <= n && 100 * (b - a) <= n && t.tool_calls == c.tool_calls ==> w
                == "tie"@
        }),
{
    vstd::set_lib::lemma_len_intersect(expected, c.files_mentioned);
    vstd::set_lib::lemma_len_intersect(expected, t.files_mentioned);
}

/// The settings of a run are kept by their names.
pub proof fn law_settings(
    model: Seq<char>,
    max_turns: u64,
    max_input_tokens: u64,
    variant: Variant,
)
    ensures
        ({
            let o = settings(model, max_turns, max_input_tokens, variant);
            &&& json::opt_text(json::field(o, "model"@)) == Some(model)
            &&& json::opt_whole(json::field(o, "max_turns"@)) == Some(max_turns)
            &&& json::opt_whole(json::field(o, "max_input_tokens"@)) == Some(max_input_tokens)
            &&& json::opt_text(json::field(o, "variant"@)) == Some(
                match variant {
                    Variant::Both => "Both"@,
                    Variant::Control => "Control"@,
                    Variant::Treatment => "Treatment"@,
                },
            )
        }),
{
    reveal_with_fuel(json::member, 5);
    reveal_strlit("model");
    reveal_strlit("max_turns");
    reveal_strlit("max_input_tokens");
    reveal_strlit("variant");
    assert("model"@.len() == 5 && "max_turns"@.len() == 9 && "max_input_tokens"@.len() == 16
        && "variant"@.len() == 7);
    let members = settings(model, max_turns, max_input_tokens, variant)->Object_0;
    assert(members.len() == 4);
    let one = members.drop_first();
    let two = one.drop_first();
    let three = two.drop_first();
    assert(one[0] == members[1] && two[0] == members[2] && three[0] == members[3]);
}

}
