//! Three ways to find files side by side, in sessions of the command line client: alone, with an
//! index, and with an index and summaries.
use vstd::prelude::*;

use super::metrics;
use super::metrics::Share;
use super::names::FileSet;
use super::session::{RawSessionOutput, SessionMetrics, SessionView};
use super::workspace::WorkspaceKind;
use crate::api;
use crate::json;
use crate::json::{Json, JsonView};
use crate::lists;
use crate::parser;
use crate::queries;
use crate::text;

verus! {

/// Which of the ways are run.
#[derive(Clone, Copy, Debug, PartialEq, Eq, Structural)]
pub enum Variant {
    /// All three.
    All,
    Control,
    Treatment,
    /// With an index and summaries.
    Enriched,
}

impl Variant {
    /// Whether sessions in this kind of workspace are run.
    pub fn runs(&self, kind: WorkspaceKind) -> (r: bool)
        ensures
            r == (match kind {
                WorkspaceKind::Control => *self == Variant::All || *self == Variant::Control,
                WorkspaceKind::Treatment => *self == Variant::All || *self == Variant::Treatment,
                WorkspaceKind::Enriched => *self == Variant::All || *self == Variant::Enriched,
            }),
    {
        match kind {
            WorkspaceKind::Control => matches!(self, Variant::All | Variant::Control),
            WorkspaceKind::Treatment => matches!(self, Variant::All | Variant::Treatment),
            WorkspaceKind::Enriched => matches!(self, Variant::All | Variant::Enriched),
        }
    }
}

/// What stands behind the query in the task of a session.
pub const TASK_PROMPT_REST: &'static str = "\n\
\n\
Explore the codebase to find the files most relevant to the task.\n\
When you are done, list all relevant file paths.\n\
\n\
After exploring, respond with ONLY a JSON object in this exact format:\n\
{\"relevant_files\": [\"path/to/file1.ts\", \"path/to/file2.ts\"]}";

/// The task of a session.
pub fn task_prompt(query: &str) -> (r: String)
    ensures
        r@ == "Your task: "@ + query@ + TASK_PROMPT_REST@,
{
    "Your task: ".to_string().concat(query).concat(TASK_PROMPT_REST)
}

/// What came of one case.
pub struct TaskResult {
    pub case_id: String,
    pub expected: FileSet,
    pub control: Option<SessionMetrics>,
    pub treatment: Option<SessionMetrics>,
    pub enriched: Option<SessionMetrics>,
}

/// Whether a case was run in at least two ways.
pub open spec fn is_compared(r: TaskResult) -> bool {
    ||| r.control is Some && r.treatment is Some
    ||| r.control is Some && r.enriched is Some
    ||| r.treatment is Some && r.enriched is Some
}

impl TaskResult {
    /// Whether the case was run in at least two ways.
    pub fn has_multiple_variants(&self) -> (r: bool)
        ensures
            r == is_compared(*self),
    {
        let mut n: u8 = 0;
        if self.control.is_some() {
            n += 1;
        }
        if self.treatment.is_some() {
            n += 1;
        }
        if self.enriched.is_some() {
            n += 1;
        }
        n >= 2
    }
}

// ---------------------------------------------------------------------------------------------
// Keys
// ---------------------------------------------------------------------------------------------

/// Whether a key is there and not empty.
pub open spec fn has_key(key: Option<Seq<char>>) -> bool {
    key is Some && key->0.len() > 0
}

/// Whether a key is there and not empty.
fn is_key(key: &Option<String>) -> (r: bool)
    ensures
        r == has_key(text::opt_view(*key)),
{
    match key {
        Some(k) => text::chars_of(k.as_str()).len() > 0,
        None => false,
    }
}

/// The model that makes the summaries, by the keys that there are.
pub fn detect_enrichment_model(held: &api::Surroundings) -> (r: Option<String>)
    ensures
        text::opt_view(r) == (if has_key(text::opt_view(held.gemini_key)) {
            Some("gemini (gemini-2.5-flash-lite)"@)
        } else if has_key(text::opt_view(held.anthropic_key)) {
            Some("anthropic ("@ + held.anthropic_model@ + ")"@)
        } else {
            None
        }),
{
    if is_key(&held.gemini_key) {
        Some("gemini (gemini-2.5-flash-lite)".to_string())
    } else if is_key(&held.anthropic_key) {
        Some(
            "anthropic (".to_string().concat(held.anthropic_model.as_str()).concat(")"),
        )
    } else {
        None
    }
}

/// What is told when summaries are to be made without a key.
pub const NO_KEY: &'static str =
    "Enriched variant requires GEMINI_API_KEY or ANTHROPIC_API_KEY to be set.\n\
     `codemap enrich --api` uses these to generate file summaries.";

/// Whether the keys that the variant needs are there.
pub fn keys_suffice(variant: Variant, held: &api::Surroundings) -> (r: bool)
    ensures
        r == (variant == Variant::Control || variant == Variant::Treatment || has_key(
            text::opt_view(held.gemini_key),
        ) || has_key(text::opt_view(held.anthropic_key))),
{
    if matches!(variant, Variant::Enriched | Variant::All) {
        is_key(&held.gemini_key) || is_key(&held.anthropic_key)
    } else {
        true
    }
}

// ---------------------------------------------------------------------------------------------
// Metrics
// ---------------------------------------------------------------------------------------------

/// The files that a session found: those that it listed, or, if it listed none, those that it
/// mentioned.
pub open spec fn found_files(m: SessionView) -> Set<Seq<char>> {
    if m.files_identified.len() > 0 {
        m.files_identified.to_set()
    } else {
        m.files_mentioned
    }
}

/// The files that a session found.
pub fn best_file_set(m: &SessionMetrics) -> (r: FileSet)
    ensures
        r@ == found_files(m@),
{
    assert(text::views(m.files_identified@).len() == m.files_identified@.len());
    if m.files_identified.len() > 0 {
        FileSet::of(&m.files_identified)
    } else {
        m.files_mentioned.copy()
    }
}

/// Whether a share is the precision of the files that were listed.
pub open spec fn is_precision_of(
    s: Share,
    identified: Seq<Seq<char>>,
    expected: Set<Seq<char>>,
) -> bool {
    s.total == identified.len() && s.hits == metrics::hits_in(identified, expected)
}

/// Precision: how many of the files that were listed were expected.
pub fn precision_from_identified(identified: &Vec<String>, expected: &FileSet) -> (r: Share)
    ensures
        is_precision_of(r, text::views(identified@), expected@),
{
    assert(queries::first(text::views(identified@), identified@.len()) =~= text::views(
        identified@,
    ));
    metrics::precision_at_k(identified, expected, identified.len())
}

/// A way that was run: its name, its recall and how often it used a tool.
pub struct Candidate {
    pub name: &'static str,
    pub recall: Share,
    pub tool_calls: usize,
}

/// A way that was run.
#[verifier::ext_equal]
pub struct CandidateView {
    pub name: Seq<char>,
    pub recall: Share,
    pub tool_calls: usize,
}

impl View for Candidate {
    type V = CandidateView;

    open spec fn view(&self) -> CandidateView {
        CandidateView { name: self.name@, recall: self.recall, tool_calls: self.tool_calls }
    }
}

/// Some ways that were run.
pub open spec fn candidate_views(c: Seq<Candidate>) -> Seq<CandidateView> {
    c.map_values(|c: Candidate| c@)
}

/// Whether no candidate has a clearly larger recall than this one.
pub open spec fn is_tied(c: Seq<CandidateView>, i: int) -> bool {
    forall|j: int|
        0 <= j < c.len() ==> !metrics::clearly_larger((#[trigger] c[j]).recall, c[i].recall)
}

/// Whether a candidate wins: no recall is clearly larger, and of the others of which that holds
/// each used more tools.
pub open spec fn wins(c: Seq<CandidateView>, i: int) -> bool {
    &&& 0 <= i < c.len()
    &&& is_tied(c, i)
    &&& forall|j: int|
        0 <= j < c.len() && j != i && is_tied(c, j) ==> c[i].tool_calls < (
        #[trigger] c[j]).tool_calls
}

/// The name of the winner: the best recall wins, and among recalls that differ by no more than a
/// hundredth the fewest uses of tools.
pub open spec fn winner_of(c: Seq<CandidateView>) -> Seq<char> {
    if c.len() == 0 {
        "n/a"@
    } else if c.len() == 1 {
        c[0].name
    } else if exists|i: int| wins(c, i) {
        c[choose|i: int| wins(c, i)].name
    } else {
        "tie"@
    }
}

/// There is at most one winner.
pub proof fn law_one_winner(c: Seq<CandidateView>, i: int, j: int)
    requires
        wins(c, i),
        wins(c, j),
    ensures
        i == j,
{
    if i != j {
        assert(c[i].tool_calls < c[j].tool_calls);
        assert(c[j].tool_calls < c[i].tool_calls);
    }
}

/// A clearly larger recall than that of all others wins, however often tools were used.
pub proof fn law_clear_recall_wins(c: Seq<CandidateView>, i: int)
    requires
        0 <= i < c.len(),
        forall|j: int|
            0 <= j < c.len() && j != i ==> metrics::clearly_larger(
                c[i].recall,
                (#[trigger] c[j]).recall,
            ),
    ensures
        winner_of(c) == c[i].name,
{
    assert forall|j: int| 0 <= j < c.len() implies !metrics::clearly_larger(
        (#[trigger] c[j]).recall,
        c[i].recall,
    ) by {
        if j != i {
            assert(metrics::clearly_larger(c[i].recall, c[j].recall));
        }
    }
    assert(is_tied(c, i));
    assert forall|j: int| 0 <= j < c.len() && j != i && is_tied(c, j) implies c[i].tool_calls < (
    #[trigger] c[j]).tool_calls by {
        assert(metrics::clearly_larger(c[i].recall, c[j].recall));
    }
    assert(wins(c, i));
    if c.len() > 1 {
        law_one_winner(c, i, choose|k: int| wins(c, k));
    }
}

/// Whether no candidate has a clearly larger recall than this one.
fn test_tied(c: &Vec<Candidate>, i: usize) -> (r: bool)
    requires
        i < c@.len(),
    ensures
        r == is_tied(candidate_views(c@), i as int),
{
    let ghost all = candidate_views(c@);
    for j in 0..c.len()
        invariant
            i < c@.len(),
            all == candidate_views(c@),
            forall|k: int|
                0 <= k < j ==> !metrics::clearly_larger((#[trigger] all[k]).recall, all[i as int].recall),
    {
        if metrics::is_clearly_larger(c[j].recall, c[i].recall) {
            assert(metrics::clearly_larger(all[j as int].recall, all[i as int].recall));
            return false;
        }
    }
    true
}

/// Whether a candidate wins.
fn test_wins(c: &Vec<Candidate>, i: usize) -> (r: bool)
    requires
        i < c@.len(),
    ensures
        r == wins(candidate_views(c@), i as int),
{
    let ghost all = candidate_views(c@);
    if !test_tied(c, i) {
        return false;
    }
    for j in 0..c.len()
        invariant
            i < c@.len(),
            all == candidate_views(c@),
            is_tied(all, i as int),
            forall|k: int|
                0 <= k < j && k != i && is_tied(all, k) ==> all[i as int].tool_calls < (
                #[trigger] all[k]).tool_calls,
    {
        if j != i && test_tied(c, j) && c[i].tool_calls >= c[j].tool_calls {
            assert(all[i as int].tool_calls >= all[j as int].tool_calls);
            return false;
        }
    }
    true
}

/// The name of the winner.
pub fn pick_winner(c: &Vec<Candidate>) -> (r: &'static str)
    ensures
        r@ == winner_of(candidate_views(c@)),
{
    let ghost all = candidate_views(c@);
    assert(all.len() == c@.len());
    if c.len() == 0 {
        return "n/a";
    }
    if c.len() == 1 {
        return c[0].name;
    }
    for i in 0..c.len()
        invariant
            c@.len() > 1,
            all == candidate_views(c@),
            forall|k: int| 0 <= k < i ==> !wins(all, k),
    {
        if test_wins(c, i) {
            proof {
                law_one_winner(all, i as int, choose|k: int| wins(all, k));
            }
            return c[i].name;
        }
    }
    "tie"
}

/// The candidate that a run is.
pub open spec fn candidate_for(
    name: Seq<char>,
    m: SessionView,
    expected: Set<Seq<char>>,
) -> CandidateView {
    CandidateView {
        name,
        recall: Share {
            hits: expected.intersect(found_files(m)).len() as usize,
            total: expected.len() as usize,
        },
        tool_calls: m.tool_calls,
    }
}

/// A list with the candidate that a run is, if there was one.
pub open spec fn with_candidate(
    c: Seq<CandidateView>,
    name: Seq<char>,
    m: Option<SessionView>,
    expected: Set<Seq<char>>,
) -> Seq<CandidateView> {
    match m {
        Some(m) => c.push(candidate_for(name, m, expected)),
        None => c,
    }
}

/// The view of a run, where there is one.
pub open spec fn opt_run(m: Option<SessionMetrics>) -> Option<SessionView> {
    match m {
        Some(m) => Some(m@),
        None => None,
    }
}

/// The winner of a case among the ways that were run.
pub open spec fn case_winner(
    control: Option<SessionView>,
    treatment: Option<SessionView>,
    enriched: Option<SessionView>,
    expected: Set<Seq<char>>,
) -> Seq<char> {
    let c = with_candidate(Seq::empty(), "control"@, control, expected);
    let c = with_candidate(c, "treatment"@, treatment, expected);
    winner_of(with_candidate(c, "enriched"@, enriched, expected))
}

/// Adds the candidate that a run is, if there was one.
fn add_candidate(
    c: &mut Vec<Candidate>,
    name: &'static str,
    m: &Option<SessionMetrics>,
    expected: &FileSet,
)
    ensures
        candidate_views(final(c)@) == with_candidate(
            candidate_views(old(c)@),
            name@,
            opt_run(*m),
            expected@,
        ),
{
    let ghost before = candidate_views(c@);
    if let Some(m) = m {
        let found = best_file_set(m);
        let candidate = Candidate {
            name,
            recall: metrics::recall(&found, expected),
            tool_calls: m.tool_calls,
        };
        let ghost shown = candidate@;
        c.push(candidate);
        assert(candidate_views(c@) =~= before.push(shown));
    }
}

/// The winner of a case among the ways that were run.
pub fn multi_case_winner(
    control: &Option<SessionMetrics>,
    treatment: &Option<SessionMetrics>,
    enriched: &Option<SessionMetrics>,
    expected: &FileSet,
) -> (r: &'static str)
    ensures
        r@ == case_winner(opt_run(*control), opt_run(*treatment), opt_run(*enriched), expected@),
{
    let mut c: Vec<Candidate> = Vec::new();
    assert(candidate_views(c@) =~= Seq::<CandidateView>::empty());
    add_candidate(&mut c, "control", control, expected);
    add_candidate(&mut c, "treatment", treatment, expected);
    add_candidate(&mut c, "enriched", enriched, expected);
    pick_winner(&c)
}

// ---------------------------------------------------------------------------------------------
// Totals
// ---------------------------------------------------------------------------------------------

/// What all runs of one way did together. Sums stop at the largest number that can be held.
pub struct SideTotals {
    pub recall: Vec<Share>,
    pub precision: Vec<Share>,
    pub tool_calls: u128,
    pub input_tokens: u128,
    pub output_tokens: u128,
    pub wall_time_ms: u128,
    pub codemap_calls: u128,
    pub first_turns: u128,
    pub first_count: usize,
}

/// A run with the files that it should find.
#[verifier::ext_equal]
pub struct RunView {
    pub session: SessionView,
    pub expected: Set<Seq<char>>,
}

/// How often some runs used a tool.
pub open spec fn tool_calls_in(runs: Seq<RunView>) -> nat
    decreases runs.len(),
{
    if runs.len() == 0 {
        0
    } else {
        tool_calls_in(runs.drop_last()) + runs.last().session.tool_calls as nat
    }
}

/// How many tokens went into some runs.
pub open spec fn input_tokens_in(runs: Seq<RunView>) -> nat
    decreases runs.len(),
{
    if runs.len() == 0 {
        0
    } else {
        input_tokens_in(runs.drop_last()) + runs.last().session.input_tokens as nat
    }
}

/// How many tokens came out of some runs.
pub open spec fn output_tokens_in(runs: Seq<RunView>) -> nat
    decreases runs.len(),
{
    if runs.len() == 0 {
        0
    } else {
        output_tokens_in(runs.drop_last()) + runs.last().session.output_tokens as nat
    }
}

/// How long some runs took, in milliseconds.
pub open spec fn wall_time_in(runs: Seq<RunView>) -> nat
    decreases runs.len(),
{
    if runs.len() == 0 {
        0
    } else {
        wall_time_in(runs.drop_last()) + runs.last().session.wall_clock_ms as nat
    }
}

/// How often some runs used the index.
pub open spec fn codemap_calls_in(runs: Seq<RunView>) -> nat
    decreases runs.len(),
{
    if runs.len() == 0 {
        0
    } else {
        codemap_calls_in(runs.drop_last()) + runs.last().session.codemap_calls as nat
    }
}

/// The turns in which some runs first found an expected file, added up.
pub open spec fn first_turns_in(runs: Seq<RunView>) -> nat
    decreases runs.len(),
{
    if runs.len() == 0 {
        0
    } else {
        first_turns_in(runs.drop_last()) + (match runs.last().session.first_relevant {
            Some(turn) => turn as nat,
            None => 0nat,
        })
    }
}

/// How many runs found an expected file.
pub open spec fn first_count_in(runs: Seq<RunView>) -> nat
    decreases runs.len(),
{
    if runs.len() == 0 {
        0
    } else {
        first_count_in(runs.drop_last()) + (if runs.last().session.first_relevant is Some {
            1nat
        } else {
            0nat
        })
    }
}

/// Whether totals are those of some runs; the first turns are counted only `with_first`.
pub open spec fn totals_of(t: SideTotals, runs: Seq<RunView>, with_first: bool) -> bool {
    &&& t.recall@.len() == runs.len()
    &&& forall|i: int|
        0 <= i < runs.len() ==> metrics::is_recall_of(
            #[trigger] t.recall@[i],
            found_files(runs[i].session),
            runs[i].expected,
        )
    &&& t.precision@.len() == runs.len()
    &&& forall|i: int|
        0 <= i < runs.len() ==> is_precision_of(
            #[trigger] t.precision@[i],
            runs[i].session.files_identified,
            runs[i].expected,
        )
    &&& t.tool_calls == text::capped(tool_calls_in(runs))
    &&& t.input_tokens == text::capped(input_tokens_in(runs))
    &&& t.output_tokens == text::capped(output_tokens_in(runs))
    &&& t.wall_time_ms == text::capped(wall_time_in(runs))
    &&& t.codemap_calls == text::capped(codemap_calls_in(runs))
    &&& t.first_turns == (if with_first {
        text::capped(first_turns_in(runs))
    } else {
        0
    })
    &&& t.first_count == (if with_first {
        first_count_in(runs)
    } else {
        0
    })
}

/// No more runs found an expected file than there are.
proof fn lemma_first_count(runs: Seq<RunView>)
    ensures
        first_count_in(runs) <= runs.len(),
    decreases runs.len(),
{
    if runs.len() > 0 {
        lemma_first_count(runs.drop_last());
    }
}

/// Totals of nothing.
fn no_totals(with_first: bool) -> (r: SideTotals)
    ensures
        totals_of(r, Seq::empty(), with_first),
{
    SideTotals {
        recall: Vec::new(),
        precision: Vec::new(),
        tool_calls: 0,
        input_tokens: 0,
        output_tokens: 0,
        wall_time_ms: 0,
        codemap_calls: 0,
        first_turns: 0,
        first_count: 0,
    }
}

/// Some runs, and one more if there was one.
pub open spec fn with_run(
    runs: Seq<RunView>,
    m: Option<SessionView>,
    expected: Set<Seq<char>>,
) -> Seq<RunView> {
    match m {
        Some(session) => runs.push(RunView { session, expected }),
        None => runs,
    }
}

/// Adds a run to totals, if there was one.
fn accumulate(
    t: &mut SideTotals,
    m: &Option<SessionMetrics>,
    expected: &FileSet,
    with_first: bool,
    Ghost(runs): Ghost<Seq<RunView>>,
)
    requires
        totals_of(*old(t), runs, with_first),
        runs.len() < usize::MAX,
    ensures
        totals_of(*final(t), with_run(runs, opt_run(*m), expected@), with_first),
{
    if let Some(m) = m {
        let ghost after = runs.push(RunView { session: m@, expected: expected@ });
        proof {
            assert(after.drop_last() =~= runs);
            lemma_first_count(runs);
        }
        let found = best_file_set(m);
        t.recall.push(metrics::recall(&found, expected));
        t.precision.push(precision_from_identified(&m.files_identified, expected));
        t.tool_calls = t.tool_calls.saturating_add(m.tool_calls as u128);
        t.input_tokens = t.input_tokens.saturating_add(m.input_tokens as u128);
        t.output_tokens = t.output_tokens.saturating_add(m.output_tokens as u128);
        t.wall_time_ms = t.wall_time_ms.saturating_add(m.wall_clock_ms as u128);
        t.codemap_calls = t.codemap_calls.saturating_add(m.codemap_calls as u128);
        if with_first {
            if let Some(turn) = m.first_relevant_file_turn {
                t.first_turns = t.first_turns.saturating_add(turn as u128);
                t.first_count = t.first_count + 1;
            }
        }
    }
}

/// The results where at least two ways were run.
pub open spec fn compared(results: Seq<TaskResult>) -> Seq<TaskResult>
    decreases results.len(),
{
    if results.len() == 0 {
        Seq::empty()
    } else if is_compared(results.last()) {
        compared(results.drop_last()).push(results.last())
    } else {
        compared(results.drop_last())
    }
}

/// The run of a result in one kind of workspace.
pub open spec fn run_in(r: TaskResult, kind: WorkspaceKind) -> Option<SessionView> {
    match kind {
        WorkspaceKind::Control => opt_run(r.control),
        WorkspaceKind::Treatment => opt_run(r.treatment),
        WorkspaceKind::Enriched => opt_run(r.enriched),
    }
}

/// The runs in one kind of workspace.
pub open spec fn runs_in(results: Seq<TaskResult>, kind: WorkspaceKind) -> Seq<RunView>
    decreases results.len(),
{
    if results.len() == 0 {
        Seq::empty()
    } else {
        with_run(
            runs_in(results.drop_last(), kind),
            run_in(results.last(), kind),
            results.last().expected@,
        )
    }
}

/// The winner of a result.
pub open spec fn winner_in(r: TaskResult) -> Seq<char> {
    case_winner(opt_run(r.control), opt_run(r.treatment), opt_run(r.enriched), r.expected@)
}

/// How many of the results have this winner.
pub open spec fn wins_in(results: Seq<TaskResult>, name: Seq<char>) -> nat
    decreases results.len(),
{
    if results.len() == 0 {
        0
    } else {
        wins_in(results.drop_last(), name) + (if winner_in(results.last()) == name {
            1nat
        } else {
            0nat
        })
    }
}

/// What all runs did together.
pub struct E2eTotals {
    pub count: usize,
    pub control: SideTotals,
    pub treatment: SideTotals,
    pub enriched: SideTotals,
    pub treatment_wins: usize,
    pub control_wins: usize,
    pub enriched_wins: usize,
    pub ties: usize,
}

/// Whether totals are those of some results: of those where at least two ways were run, or, where
/// there are none, of all, without winners and first turns.
pub open spec fn aggregates(t: E2eTotals, results: Seq<TaskResult>) -> bool {
    let comparing = compared(results).len() > 0;
    let used = if comparing {
        compared(results)
    } else {
        results
    };
    &&& t.count == used.len()
    &&& totals_of(t.control, runs_in(used, WorkspaceKind::Control), comparing)
    &&& totals_of(t.treatment, runs_in(used, WorkspaceKind::Treatment), comparing)
    &&& totals_of(t.enriched, runs_in(used, WorkspaceKind::Enriched), comparing)
    &&& comparing ==> {
        &&& t.treatment_wins == wins_in(used, "treatment"@)
        &&& t.control_wins == wins_in(used, "control"@)
        &&& t.enriched_wins == wins_in(used, "enriched"@)
        &&& t.treatment_wins + t.control_wins + t.enriched_wins + t.ties == used.len()
    }
    &&& !comparing ==> t.treatment_wins == 0 && t.control_wins == 0 && t.enriched_wins == 0
        && t.ties == 0
}

/// There are no more runs than results.
proof fn lemma_run_counts(results: Seq<TaskResult>, kind: WorkspaceKind)
    ensures
        runs_in(results, kind).len() <= results.len(),
        compared(results).len() <= results.len(),
    decreases results.len(),
{
    if results.len() > 0 {
        lemma_run_counts(results.drop_last(), kind);
    }
}

/// Adds the winner of a case to totals.
fn count_winner(t: &mut E2eTotals, won: &str)
    requires
        old(t).treatment_wins < usize::MAX,
        old(t).control_wins < usize::MAX,
        old(t).enriched_wins < usize::MAX,
        old(t).ties < usize::MAX,
    ensures
        final(t).count == old(t).count,
        final(t).control == old(t).control,
        final(t).treatment == old(t).treatment,
        final(t).enriched == old(t).enriched,
        final(t).treatment_wins == old(t).treatment_wins + (if won@ == "treatment"@ {
            1int
        } else {
            0
        }),
        final(t).control_wins == old(t).control_wins + (if won@ == "control"@ {
            1int
        } else {
            0
        }),
        final(t).enriched_wins == old(t).enriched_wins + (if won@ == "enriched"@ {
            1int
        } else {
            0
        }),
        final(t).ties == old(t).ties + (if won@ != "treatment"@ && won@ != "control"@ && won@
            != "enriched"@ {
            1int
        } else {
            0
        }),
{
    proof {
        reveal_strlit("treatment");
        reveal_strlit("control");
        reveal_strlit("enriched");
        assert("treatment"@.len() == 9 && "control"@.len() == 7 && "enriched"@.len() == 8);
    }
    if text::same(won, "treatment") {
        t.treatment_wins = t.treatment_wins + 1;
    } else if text::same(won, "control") {
        t.control_wins = t.control_wins + 1;
    } else if text::same(won, "enriched") {
        t.enriched_wins = t.enriched_wins + 1;
    } else {
        t.ties = t.ties + 1;
    }
}

/// Adds up all results, or those where at least two ways were run.
fn add_up(results: &Vec<TaskResult>, compared_only: bool) -> (r: E2eTotals)
    ensures
        ({
            let used = if compared_only {
                compared(results@)
            } else {
                results@
            };
            &&& r.count == used.len()
            &&& totals_of(r.control, runs_in(used, WorkspaceKind::Control), compared_only)
            &&& totals_of(r.treatment, runs_in(used, WorkspaceKind::Treatment), compared_only)
            &&& totals_of(r.enriched, runs_in(used, WorkspaceKind::Enriched), compared_only)
            &&& compared_only ==> {
                &&& r.treatment_wins == wins_in(used, "treatment"@)
                &&& r.control_wins == wins_in(used, "control"@)
                &&& r.enriched_wins == wins_in(used, "enriched"@)
                &&& r.treatment_wins + r.control_wins + r.enriched_wins + r.ties == used.len()
            }
            &&& !compared_only ==> r.treatment_wins == 0 && r.control_wins == 0 && r.enriched_wins
                == 0 && r.ties == 0
        }),
{
    let mut t = E2eTotals {
        count: 0,
        control: no_totals(compared_only),
        treatment: no_totals(compared_only),
        enriched: no_totals(compared_only),
        treatment_wins: 0,
        control_wins: 0,
        enriched_wins: 0,
        ties: 0,
    };
    let ghost mut used: Seq<TaskResult> = Seq::empty();
    proof {
        assert(results@.take(0) =~= Seq::<TaskResult>::empty());
        reveal_strlit("treatment");
        reveal_strlit("control");
        reveal_strlit("enriched");
        assert("treatment"@.len() == 9 && "control"@.len() == 7 && "enriched"@.len() == 8);
    }
    for i in 0..results.len()
        invariant
            "treatment"@.len() == 9 && "control"@.len() == 7 && "enriched"@.len() == 8,
            used == (if compared_only {
                compared(results@.take(i as int))
            } else {
                results@.take(i as int)
            }),
            used.len() <= i,
            t.count == used.len(),
            totals_of(t.control, runs_in(used, WorkspaceKind::Control), compared_only),
            totals_of(t.treatment, runs_in(used, WorkspaceKind::Treatment), compared_only),
            totals_of(t.enriched, runs_in(used, WorkspaceKind::Enriched), compared_only),
            compared_only ==> {
                &&& t.treatment_wins == wins_in(used, "treatment"@)
                &&& t.control_wins == wins_in(used, "control"@)
                &&& t.enriched_wins == wins_in(used, "enriched"@)
                &&& t.treatment_wins + t.control_wins + t.enriched_wins + t.ties == used.len()
            },
            !compared_only ==> t.treatment_wins == 0 && t.control_wins == 0 && t.enriched_wins == 0
                && t.ties == 0,
    {
        let r = &results[i];
        proof {
            assert(results@.take(i + 1).drop_last() =~= results@.take(i as int));
            assert(results@.take(i + 1).last() == *r);
            lemma_run_counts(used, WorkspaceKind::Control);
            lemma_run_counts(used, WorkspaceKind::Treatment);
            lemma_run_counts(used, WorkspaceKind::Enriched);
        }
        if r.has_multiple_variants() || !compared_only {
            let ghost before = used;
            proof {
                used = before.push(*r);
                assert(used.drop_last() =~= before);
                if !compared_only {
                    assert(used =~= results@.take(i + 1));
                }
            }
            t.count = t.count + 1;
            accumulate(
                &mut t.control,
                &r.control,
                &r.expected,
                compared_only,
                Ghost(runs_in(before, WorkspaceKind::Control)),
            );
            accumulate(
                &mut t.treatment,
                &r.treatment,
                &r.expected,
                compared_only,
                Ghost(runs_in(before, WorkspaceKind::Treatment)),
            );
            accumulate(
                &mut t.enriched,
                &r.enriched,
                &r.expected,
                compared_only,
                Ghost(runs_in(before, WorkspaceKind::Enriched)),
            );
            if compared_only {
                let won = multi_case_winner(&r.control, &r.treatment, &r.enriched, &r.expected);
                count_winner(&mut t, won);
            }
        }
    }
    assert(results@.take(results@.len() as int) =~= results@);
    t
}

/// Adds up what came of the cases.
pub fn compute_aggregate(results: &Vec<TaskResult>) -> (r: E2eTotals)
    ensures
        aggregates(r, results@),
{
    let comparing = add_up(results, true);
    if comparing.count > 0 {
        comparing
    } else {
        add_up(results, false)
    }
}

/// Whether a case was run with summaries.
pub open spec fn any_enriched(results: Seq<TaskResult>) -> bool {
    exists|i: int| 0 <= i < results.len() && (#[trigger] results[i]).enriched is Some
}

/// Whether a case was run with summaries.
pub fn has_enriched(results: &Vec<TaskResult>) -> (r: bool)
    ensures
        r == any_enriched(results@),
{
    for i in 0..results.len()
        invariant
            forall|k: int| 0 <= k < i ==> (#[trigger] results@[k]).enriched is None,
    {
        if results[i].enriched.is_some() {
            return true;
        }
    }
    false
}

/// Whether a case was run in at least two ways.
pub open spec fn any_compared(results: Seq<TaskResult>) -> bool {
    exists|i: int| 0 <= i < results.len() && is_compared(#[trigger] results[i])
}

/// Whether a case was run in at least two ways.
pub fn has_comparison(results: &Vec<TaskResult>) -> (r: bool)
    ensures
        r == any_compared(results@),
{
    for i in 0..results.len()
        invariant
            forall|k: int| 0 <= k < i ==> !is_compared(#[trigger] results@[k]),
    {
        if results[i].has_multiple_variants() {
            return true;
        }
    }
    false
}

/// Cases are compared exactly where one was run in at least two ways.
pub proof fn law_compared(results: Seq<TaskResult>)
    ensures
        any_compared(results) == (compared(results).len() > 0),
    decreases results.len(),
{
    if results.len() > 0 {
        let rest = results.drop_last();
        law_compared(rest);
        if any_compared(rest) {
            let i = choose|i: int| 0 <= i < rest.len() && is_compared(#[trigger] rest[i]);
            assert(is_compared(results[i]));
        }
        if any_compared(results) && !is_compared(results.last()) {
            let i = choose|i: int| 0 <= i < results.len() && is_compared(#[trigger] results[i]);
            assert(is_compared(rest[i]));
        }
        if is_compared(results.last()) {
            assert(is_compared(results[results.len() - 1]));
        }
    }
}

// ---------------------------------------------------------------------------------------------
// What is told of a session
// ---------------------------------------------------------------------------------------------

/// An exit code in writing.
pub open spec fn exit_text(code: Option<i32>) -> Seq<char> {
    match code {
        Some(n) => "Some("@ + text::signed(n as int) + ")"@,
        None => "None"@,
    }
}

/// How many bytes of the errors of a session are shown.
pub const SHOWN_ERRORS: usize = 500;

/// How many bytes of a line of a session are shown.
pub const SHOWN_LINE: usize = 200;

/// How many lines of a session that failed are shown.
pub const SHOWN_LINES: usize = 5;

/// Some lines of a session, each cut off where it is long.
pub open spec fn shown_lines(label: Seq<char>, lines: Seq<Seq<char>>) -> Seq<char>
    decreases lines.len(),
{
    if lines.len() == 0 {
        Seq::empty()
    } else {
        shown_lines(label, lines.drop_last()) + "    ["@ + label + " stdout]: "@ + parser::truncated(
            lines.last(),
            SHOWN_LINE as nat,
        ) + "\n"@
    }
}

/// What a session wrote, in short.
pub open spec fn verbose_text(label: Seq<char>, raw: RawSessionOutput) -> Seq<char> {
    let lines = text::lines(raw.stdout@);
    let head = "    ["@ + label + " exit code]: "@ + exit_text(raw.exit_code) + "\n"@ + "    ["@
        + label + " stderr]: "@ + parser::truncated(raw.stderr@, SHOWN_ERRORS as nat) + "\n"@
        + "    ["@ + label + " stdout lines]: "@ + text::decimal(lines.len()) + "\n"@;
    if raw.exit_code == Some(0i32) {
        head
    } else {
        head + shown_lines(label, queries::first(lines, SHOWN_LINES as nat))
    }
}

/// An exit code in writing.
fn render_exit(code: Option<i32>) -> (r: String)
    ensures
        r@ == exit_text(code),
{
    match code {
        Some(n) => "Some(".to_string().concat(text::signed_of(n as i64).as_str()).concat(")"),
        None => "None".to_string(),
    }
}

/// What a session wrote, in short: how it ended, its errors, and, if it failed, its first lines.
pub fn verbose_report(label: &str, raw: &RawSessionOutput) -> (r: String)
    ensures
        r@ == verbose_text(label@, *raw),
{
    let lines = text::lines_of(raw.stdout.as_str());
    let ghost all = text::views(lines@);
    assert(all.len() == lines@.len());
    let mut out = "    [".to_string();
    out.append(label);
    out.append(" exit code]: ");
    out.append(render_exit(raw.exit_code).as_str());
    out.append("\n");
    out.append("    [");
    out.append(label);
    out.append(" stderr]: ");
    out.append(parser::truncate(raw.stderr.as_str(), SHOWN_ERRORS));
    out.append("\n");
    out.append("    [");
    out.append(label);
    out.append(" stdout lines]: ");
    out.append(text::decimal_of(lines.len() as u64).as_str());
    out.append("\n");
    let ok = match raw.exit_code {
        Some(n) => n == 0,
        None => false,
    };
    if ok {
        return out;
    }
    let ghost head = out@;
    let n: usize = if lines.len() < SHOWN_LINES {
        lines.len()
    } else {
        SHOWN_LINES
    };
    assert(all.take(0) =~= Seq::<Seq<char>>::empty());
    assert(out@ =~= head + shown_lines(label@, all.take(0)));
    for i in 0..n
        invariant
            all == text::views(lines@),
            n <= lines@.len(),
            out@ == head + shown_lines(label@, all.take(i as int)),
    {
        proof {
            assert(all.take(i + 1).drop_last() =~= all.take(i as int));
            assert(all.take(i + 1).last() == lines@[i as int]@);
        }
        out.append("    [");
        out.append(label);
        out.append(" stdout]: ");
        out.append(parser::truncate(lines[i].as_str(), SHOWN_LINE));
        out.append("\n");
        assert(out@ =~= head + shown_lines(label@, all.take(i + 1)));
    }
    assert(queries::first(all, SHOWN_LINES as nat) =~= all.take(n as int));
    out
}

/// The numbers of a session in writing: recall and precision in percent, tokens in thousands and
/// seconds with one digit after the point.
pub struct SessionTexts {
    pub recall: String,
    pub precision: String,
    pub input_tokens: String,
    pub output_tokens: String,
    pub seconds: String,
}

/// What is told of a session.
pub open spec fn session_text(label: Seq<char>, m: SessionView, t: SessionTexts) -> Seq<char> {
    let head = "    "@ + text::padded_right(label, 10) + " "@ + text::decimal(m.tool_calls as nat)
        + " tools, "@ + text::decimal(m.files_read.len()) + " files read, recall="@ + t.recall@
        + "% precision="@ + t.precision@ + "%, "@ + t.input_tokens@ + "k in + "@ + t.output_tokens@
        + "k out tokens, "@ + t.seconds@ + "s\n"@;
    if m.codemap_calls > 0 {
        head + "               codemap calls: "@ + text::decimal(m.codemap_calls as nat) + "\n"@
    } else {
        head
    }
}

/// What is told of a session.
pub fn session_summary(label: &str, m: &SessionMetrics, t: &SessionTexts) -> (r: String)
    ensures
        r@ == session_text(label@, m@, *t),
{
    let mut out = "    ".to_string();
    text::append_right(&mut out, label, 10);
    out.append(" ");
    out.append(text::decimal_of(m.tool_calls as u64).as_str());
    out.append(" tools, ");
    out.append(text::decimal_of(m.files_read.len() as u64).as_str());
    out.append(" files read, recall=");
    out.append(t.recall.as_str());
    out.append("% precision=");
    out.append(t.precision.as_str());
    out.append("%, ");
    out.append(t.input_tokens.as_str());
    out.append("k in + ");
    out.append(t.output_tokens.as_str());
    out.append("k out tokens, ");
    out.append(t.seconds.as_str());
    out.append("s\n");
    if m.codemap_calls > 0 {
        out.append("               codemap calls: ");
        out.append(text::decimal_of(m.codemap_calls as u64).as_str());
        out.append("\n");
    }
    out
}

// ---------------------------------------------------------------------------------------------
// Settings
// ---------------------------------------------------------------------------------------------

/// The name of a variant.
pub open spec fn variant_name(variant: Variant) -> Seq<char> {
    match variant {
        Variant::All => "All"@,
        Variant::Control => "Control"@,
        Variant::Treatment => "Treatment"@,
        Variant::Enriched => "Enriched"@,
    }
}

/// The settings of a run, for the archive.
pub open spec fn settings(
    model: Seq<char>,
    max_turns: u64,
    timeout_secs: u64,
    variant: Variant,
    enrichment: Option<Seq<char>>,
) -> JsonView {
    let o = JsonView::Object(Seq::empty());
    let o = json::with_member(o, "model"@, JsonView::Text(model));
    let o = json::with_member(o, "max_turns"@, json::whole_view(max_turns));
    let o = json::with_member(o, "timeout_secs"@, json::whole_view(timeout_secs));
    let o = json::with_member(o, "variant"@, JsonView::Text(variant_name(variant)));
    json::with_member(o, "enrichment_model"@, json::opt_text_view(enrichment))
}

/// The settings of a run, for the archive.
pub fn make_settings(
    model: &str,
    max_turns: usize,
    timeout_secs: u64,
    variant: Variant,
    enrichment: &Option<String>,
) -> (r: Json)
    ensures
        r.tree() == settings(
            model@,
            max_turns as u64,
            timeout_secs,
            variant,
            text::opt_view(*enrichment),
        ),
{
    let name = match variant {
        Variant::All => "All",
        Variant::Control => "Control",
        Variant::Treatment => "Treatment",
        Variant::Enriched => "Enriched",
    };
    let o = json::add_member(json::empty_object(), "model", json::text_value(model));
    let o = json::add_member(o, "max_turns", json::whole_value(max_turns as u64));
    let o = json::add_member(o, "timeout_secs", json::whole_value(timeout_secs));
    let o = json::add_member(o, "variant", json::text_value(name));
    json::add_member(o, "enrichment_model", json::opt_text_value(enrichment))
}

/// What is added up over runs is what each of them counts: its tool calls, its tokens of both
/// kinds, its time, its calls of codemap, and the turns until it found a file; and the runs that
/// found one are counted.
pub proof fn law_totals_add_up(
    a: Seq<RunView>,
    b: Seq<RunView>,
    run: RunView,
    runs_counted: Seq<RunView>,
)
    ensures
        tool_calls_in(a + b) == tool_calls_in(a) + tool_calls_in(b),
        tool_calls_in(seq![run]) == run.session.tool_calls as nat,
        input_tokens_in(a + b) == input_tokens_in(a) + input_tokens_in(b),
        input_tokens_in(seq![run]) == run.session.input_tokens as nat,
        output_tokens_in(a + b) == output_tokens_in(a) + output_tokens_in(b),
        output_tokens_in(seq![run]) == run.session.output_tokens as nat,
        wall_time_in(a + b) == wall_time_in(a) + wall_time_in(b),
        wall_time_in(seq![run]) == run.session.wall_clock_ms as nat,
        codemap_calls_in(a + b) == codemap_calls_in(a) + codemap_calls_in(b),
        codemap_calls_in(seq![run]) == run.session.codemap_calls as nat,
        first_turns_in(a + b) == first_turns_in(a) + first_turns_in(b),
        first_turns_in(seq![run]) == (match run.session.first_relevant {
            Some(turn) => turn as nat,
            None => 0nat,
        }),
        first_count_in(runs_counted) == runs_counted.filter(
            |r: RunView| r.session.first_relevant is Some,
        ).len(),
{
    reveal_with_fuel(tool_calls_in, 2);
    reveal_with_fuel(input_tokens_in, 2);
    reveal_with_fuel(output_tokens_in, 2);
    reveal_with_fuel(wall_time_in, 2);
    reveal_with_fuel(codemap_calls_in, 2);
    reveal_with_fuel(first_turns_in, 2);
    assert(seq![run].drop_last() =~= Seq::<RunView>::empty());
    lists::lemma_sum(
        a,
        b,
        |run: RunView| run.session.tool_calls as nat,
        |s: Seq<RunView>| tool_calls_in(s),
    );
    lists::lemma_sum(
        a,
        b,
        |run: RunView| run.session.input_tokens as nat,
        |s: Seq<RunView>| input_tokens_in(s),
    );
    lists::lemma_sum(
        a,
        b,
        |run: RunView| run.session.output_tokens as nat,
        |s: Seq<RunView>| output_tokens_in(s),
    );
    lists::lemma_sum(
        a,
        b,
        |run: RunView| run.session.wall_clock_ms as nat,
        |s: Seq<RunView>| wall_time_in(s),
    );
    lists::lemma_sum(
        a,
        b,
        |run: RunView| run.session.codemap_calls as nat,
        |s: Seq<RunView>| codemap_calls_in(s),
    );
    lists::lemma_sum(
        a,
        b,
        |run: RunView|
            match run.session.first_relevant {
                Some(turn) => turn as nat,
                None => 0nat,
            },
        |s: Seq<RunView>| first_turns_in(s),
    );
    lists::lemma_count(
        runs_counted,
        |r: RunView| r.session.first_relevant is Some,
        |s: Seq<RunView>| first_count_in(s),
    );
}

/// The run of a task in a kind of workspace.
pub open spec fn has_run(r: TaskResult, kind: WorkspaceKind) -> bool {
    match kind {
        WorkspaceKind::Control => r.control is Some,
        WorkspaceKind::Treatment => r.treatment is Some,
        WorkspaceKind::Enriched => r.enriched is Some,
    }
}

/// The tasks that are compared are those with at least two runs; the runs of a kind are those of
/// all tasks that have one, in their order, with what the task expects; and a kind wins as often as
/// its name is the winner's.
pub proof fn law_sides(results: Seq<TaskResult>, kind: WorkspaceKind, name: Seq<char>)
    ensures
        compared(results) == results.filter(
            |r: TaskResult|
                (r.control is Some && r.treatment is Some) || (r.control is Some && r.enriched
                    is Some) || (r.treatment is Some && r.enriched is Some),
        ),
        runs_in(results, kind) == results.filter(|r: TaskResult| has_run(r, kind)).map_values(
            |r: TaskResult|
                RunView {
                    session: match kind {
                        WorkspaceKind::Control => r.control->0@,
                        WorkspaceKind::Treatment => r.treatment->0@,
                        WorkspaceKind::Enriched => r.enriched->0@,
                    },
                    expected: r.expected@,
                },
        ),
        wins_in(results, name) == results.filter(|r: TaskResult| winner_in(r) == name).len(),
{
    let some = |r: TaskResult|
        (r.control is Some && r.treatment is Some) || (r.control is Some && r.enriched is Some)
            || (r.treatment is Some && r.enriched is Some);
    let same = |r: TaskResult| r;
    lists::lemma_kept(results, some, same, |s: Seq<TaskResult>| compared(s));
    assert(results.filter(some).map_values(same) =~= results.filter(some));
    lists::lemma_kept(
        results,
        |r: TaskResult| has_run(r, kind),
        |r: TaskResult|
            RunView {
                session: match kind {
                    WorkspaceKind::Control => r.control->0@,
                    WorkspaceKind::Treatment => r.treatment->0@,
                    WorkspaceKind::Enriched => r.enriched->0@,
                },
                expected: r.expected@,
            },
        |s: Seq<TaskResult>| runs_in(s, kind),
    );
    lists::lemma_count(
        results,
        |r: TaskResult| winner_in(r) == name,
        |s: Seq<TaskResult>| wins_in(s, name),
    );
}

/// Every line that is shown stands behind its label, in their order, cut to 200 bytes.
pub proof fn law_shown_lines(label: Seq<char>, lines: Seq<Seq<char>>)
    ensures
        shown_lines(label, lines) == lines.map_values(
            |l: Seq<char>|
                "    ["@ + label + " stdout]: "@ + parser::truncated(l, 200) + "\n"@,
        ).flatten(),
{
    let part = |l: Seq<char>|
        "    ["@ + label + " stdout]: "@ + parser::truncated(l, 200) + "\n"@;
    let whole = |s: Seq<Seq<char>>| shown_lines(label, s);
    assert forall|s: Seq<Seq<char>>| #[trigger]
        whole(s) == (if s.len() == 0 {
            Seq::empty()
        } else {
            whole(s.drop_last()) + part(s.last())
        }) by {
        if s.len() > 0 {
            assert(whole(s) =~= whole(s.drop_last()) + part(s.last()));
        }
    }
    lists::lemma_parts(lines, part, whole);
}

/// The files that a run found are those of its answer, where it named any there, and those that it
/// mentioned otherwise.
pub proof fn law_found_files(m: SessionView, path: Seq<char>)
    ensures
        m.files_identified.len() > 0 ==> found_files(m).contains(path)
            == m.files_identified.contains(path),
        m.files_identified.len() == 0 ==> found_files(m) == m.files_mentioned,
{
}

/// Of two runs, the one that found clearly more wins; where neither did, the one with fewer tool
/// calls; and with as many it is a tie.
pub proof fn law_two_runs(c: SessionView, t: SessionView, expected: Set<Seq<char>>)
    requires
        expected.finite(),
        expected.len() <= usize::MAX,
    ensures
        ({
            let a = expected.intersect(found_files(c)).len() as int;
            let b = expected.intersect(found_files(t)).len() as int;
            let n = expected.len() as int;
            let w = case_winner(Some(c), Some(t), None, expected);
            &&& 100 * (a - b) > n ==> w == "control"@
            &&& 100 * (b - a) > n ==> w == "treatment"@
            &&& 100 * (a - b) <= n && 100 * (b - a) <= n && c.tool_calls < t.tool_calls ==> w
                == "control"@
            &&& 100 * (a - b) <= n && 100 * (b - a) <= n && t.tool_calls < c.tool_calls ==> w
                == "treatment"@
            &&& 100 * (a - b) <= n && 100 * (b - a) <= n && t.tool_calls == c.tool_calls ==> w
                == "tie"@
        }),
{
    vstd::set_lib::lemma_len_intersect(expected, found_files(c));
    vstd::set_lib::lemma_len_intersect(expected, found_files(t));
    let one = with_candidate(Seq::empty(), "control"@, Some(c), expected);
    let both = with_candidate(one, "treatment"@, Some(t), expected);
    assert(with_candidate(both, "enriched"@, None, expected) == both);
    assert(both.len() == 2);
    assert(both[0] == candidate_for("control"@, c, expected));
    assert(both[1] == candidate_for("treatment"@, t, expected));
    assert(is_tied(both, 0) == !metrics::clearly_larger(both[1].recall, both[0].recall)) by {
        assert(is_tied(both, 0) ==> !metrics::clearly_larger(both[1].recall, both[0].recall));
    }
    assert(is_tied(both, 1) == !metrics::clearly_larger(both[0].recall, both[1].recall)) by {
        assert(is_tied(both, 1) ==> !metrics::clearly_larger(both[0].recall, both[1].recall));
    }
    let a = both[0].recall;
    let b = both[1].recall;
    if metrics::clearly_larger(a, b) || (!metrics::clearly_larger(b, a) && c.tool_calls
        < t.tool_calls) {
        assert(wins(both, 0));
        let w = choose|i: int| wins(both, i);
        if w == 1 {
            law_one_winner(both, 0, 1);
        }
    } else if metrics::clearly_larger(b, a) || (!metrics::clearly_larger(a, b) && t.tool_calls
        < c.tool_calls) {
        assert(wins(both, 1));
        let w = choose|i: int| wins(both, i);
        if w == 0 {
            law_one_winner(both, 0, 1);
        }
    } else {
        assert forall|i: int| !wins(both, i) by {
            if wins(both, i) {
                if i == 0 {
                    assert(c.tool_calls < both[1].tool_calls);
                } else {
                    assert(t.tool_calls < both[0].tool_calls);
                }
            }
        }
    }
}

/// What totals say of results: the tasks that are compared, or all where none is; of each kind the
/// sums over its runs, with a recall and a precision for each of them; and who won how often.
pub proof fn law_aggregates(t: E2eTotals, results: Seq<TaskResult>)
    requires
        aggregates(t, results),
    ensures
        ({
            let some = results.filter(
                |r: TaskResult|
                    (r.control is Some && r.treatment is Some) || (r.control is Some && r.enriched
                        is Some) || (r.treatment is Some && r.enriched is Some),
            );
            let used = if some.len() > 0 {
                some
            } else {
                results
            };
            &&& t.count == used.len()
            &&& sums_of(t.control, runs_in(used, WorkspaceKind::Control))
            &&& sums_of(t.treatment, runs_in(used, WorkspaceKind::Treatment))
            &&& sums_of(t.enriched, runs_in(used, WorkspaceKind::Enriched))
            &&& some.len() > 0 ==> {
                &&& t.control_wins == used.filter(|r: TaskResult| winner_in(r) == "control"@).len()
                &&& t.treatment_wins == used.filter(
                    |r: TaskResult| winner_in(r) == "treatment"@,
                ).len()
                &&& t.enriched_wins == used.filter(
                    |r: TaskResult| winner_in(r) == "enriched"@,
                ).len()
                &&& t.control_wins + t.treatment_wins + t.enriched_wins + t.ties == used.len()
            }
        }),
{
    law_sides(results, WorkspaceKind::Control, "control"@);
    let used = if compared(results).len() > 0 {
        compared(results)
    } else {
        results
    };
    law_sides(used, WorkspaceKind::Control, "control"@);
    law_sides(used, WorkspaceKind::Control, "treatment"@);
    law_sides(used, WorkspaceKind::Control, "enriched"@);
}

/// Whether totals hold the sums over runs, and a recall and a precision for each.
pub open spec fn sums_of(t: SideTotals, runs: Seq<RunView>) -> bool {
    &&& t.tool_calls == text::capped(tool_calls_in(runs))
    &&& t.input_tokens == text::capped(input_tokens_in(runs))
    &&& t.output_tokens == text::capped(output_tokens_in(runs))
    &&& t.wall_time_ms == text::capped(wall_time_in(runs))
    &&& t.codemap_calls == text::capped(codemap_calls_in(runs))
    &&& t.recall@.len() == runs.len()
    &&& t.precision@.len() == runs.len()
    &&& forall|i: int|
        0 <= i < runs.len() ==> (#[trigger] t.recall@[i]).total == runs[i].expected.len()
            && t.recall@[i].hits == runs[i].expected.intersect(found_files(runs[i].session)).len()
    &&& forall|i: int|
        0 <= i < runs.len() ==> (#[trigger] t.precision@[i]).total
            == runs[i].session.files_identified.len() && t.precision@[i].hits
            == metrics::hits_in(runs[i].session.files_identified, runs[i].expected)
}

/// What is told of a run is its tool calls, the files that it read, its recall and precision, its
/// tokens, its time, and its calls of codemap where it made any.
pub proof fn law_session_text(label: Seq<char>, m: SessionView, t: SessionTexts)
    ensures
        ({
            let head = "    "@ + text::padded_right(label, 10) + " "@ + text::decimal(
                m.tool_calls as nat,
            ) + " tools, "@ + text::decimal(m.files_read.len()) + " files read, recall="@ + t.recall@
                + "% precision="@ + t.precision@ + "%, "@ + t.input_tokens@ + "k in + "@
                + t.output_tokens@ + "k out tokens, "@ + t.seconds@ + "s\n"@;
            &&& m.codemap_calls == 0 ==> session_text(label, m, t) == head
            &&& m.codemap_calls > 0 ==> session_text(label, m, t) == head
                + "               codemap calls: "@ + text::decimal(m.codemap_calls as nat) + "\n"@
        }),
{
}

/// The first five lines of output are shown where a run did not end well, and none where it did.
pub proof fn law_verbose_text(label: Seq<char>, raw: RawSessionOutput)
    ensures
        ({
            let lines = text::lines(raw.stdout@);
            let shown = if lines.len() > 5 {
                lines.take(5)
            } else {
                lines
            };
            let head = "    ["@ + label + " exit code]: "@ + (match raw.exit_code {
                Some(n) => "Some("@ + text::signed(n as int) + ")"@,
                None => "None"@,
            }) + "\n"@ + "    ["@ + label + " stderr]: "@ + parser::truncated(raw.stderr@, 500)
                + "\n"@ + "    ["@ + label + " stdout lines]: "@ + text::decimal(lines.len())
                + "\n"@;
            &&& raw.exit_code == Some(0i32) ==> verbose_text(label, raw) == head
            &&& raw.exit_code != Some(0i32) ==> verbose_text(label, raw) == head + shown_lines(
                label,
                shown,
            )
        }),
{
}

/// The settings of a run are kept by their names.
pub proof fn law_settings(
    model: Seq<char>,
    max_turns: u64,
    timeout_secs: u64,
    variant: Variant,
    enrichment: Option<Seq<char>>,
)
    ensures
        ({
            let o = settings(model, max_turns, timeout_secs, variant, enrichment);
            &&& json::opt_text(json::field(o, "model"@)) == Some(model)
            &&& json::opt_whole(json::field(o, "max_turns"@)) == Some(max_turns)
            &&& json::opt_whole(json::field(o, "timeout_secs"@)) == Some(timeout_secs)
            &&& json::opt_text(json::field(o, "variant"@)) == Some(
                match variant {
                    Variant::All => "All"@,
                    Variant::Control => "Control"@,
                    Variant::Treatment => "Treatment"@,
                    Variant::Enriched => "Enriched"@,
                },
            )
            &&& json::opt_text(json::field(o, "enrichment_model"@)) == enrichment
        }),
{
    reveal_with_fuel(json::member, 6);
    reveal_strlit("model");
    reveal_strlit("max_turns");
    reveal_strlit("timeout_secs");
    reveal_strlit("variant");
    reveal_strlit("enrichment_model");
    assert("model"@.len() == 5 && "max_turns"@.len() == 9 && "timeout_secs"@.len() == 12
        && "variant"@.len() == 7 && "enrichment_model"@.len() == 16);
    let members = settings(model, max_turns, timeout_secs, variant, enrichment)->Object_0;
    assert(members.len() == 5);
    let one = members.drop_first();
    let two = one.drop_first();
    let three = two.drop_first();
    let four = three.drop_first();
    assert(one[0] == members[1] && two[0] == members[2] && three[0] == members[3] && four[0]
        == members[4]);
}

}
