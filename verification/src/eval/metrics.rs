//! How well a list of files answers a query.
use vstd::prelude::*;

use super::dataset;
use super::dataset::EvalCase;
use super::names;
use super::names::{FileSet, NameMap};
use crate::db::{Index, IndexView};
use crate::lists;
use crate::queries;
use crate::queries::{FileWithExportsAndEnrichment, ListedFile};
use crate::scorer;
use crate::scorer::{ScoredFile, ScoredView, WeightedView};
use crate::text;
use crate::text::CharClass;

verus! {

/// `hits` out of `total`; nothing out of nothing counts as none.
#[derive(Clone, Copy, Debug, PartialEq, Eq, Structural)]
pub struct Share {
    pub hits: usize,
    pub total: usize,
}

/// How many names stand in a set.
pub open spec fn hits_in(list: Seq<Seq<char>>, set: Set<Seq<char>>) -> nat
    decreases list.len(),
{
    if list.len() == 0 {
        0
    } else {
        hits_in(list.drop_last(), set) + (if set.contains(list.last()) {
            1nat
        } else {
            0nat
        })
    }
}

/// How many of the first `n` names stand in a set.
fn count_hits(list: &Vec<String>, set: &FileSet, n: usize) -> (r: usize)
    requires
        n <= list@.len(),
    ensures
        r == hits_in(text::views(list@).take(n as int), set@),
        r <= n,
{
    let ghost all = text::views(list@);
    let mut hits: usize = 0;
    assert(all.take(0) =~= Seq::<Seq<char>>::empty());
    for i in 0..n
        invariant
            all == text::views(list@),
            n <= list@.len(),
            hits <= i,
            hits == hits_in(all.take(i as int), set@),
    {
        proof {
            assert(all.take(i + 1).drop_last() =~= all.take(i as int));
            assert(all.take(i + 1).last() == list@[i as int]@);
        }
        if set.contains(list[i].as_str()) {
            hits += 1;
        }
    }
    hits
}

/// The smaller of two numbers.
fn smaller(a: usize, b: usize) -> (r: usize)
    ensures
        r == (if a < b {
            a
        } else {
            b
        }),
{
    if a < b {
        a
    } else {
        b
    }
}

/// Precision: how many of the first `k` results are relevant.
pub fn precision_at_k(returned: &Vec<String>, relevant: &FileSet, k: usize) -> (r: Share)
    ensures
        r.total == queries::first(text::views(returned@), k as nat).len(),
        r.hits == hits_in(queries::first(text::views(returned@), k as nat), relevant@),
{
    let n: usize = smaller(returned.len(), k);
    assert(queries::first(text::views(returned@), k as nat) =~= text::views(returned@).take(
        n as int,
    ));
    Share { hits: count_hits(returned, relevant, n), total: n }
}

/// Recall: how many of the relevant files are among the first `k` results.
pub fn recall_at_k(returned: &Vec<String>, relevant: &FileSet, k: usize) -> (r: Share)
    ensures
        r.total == relevant@.len(),
        r.hits == relevant@.intersect(
            queries::first(text::views(returned@), k as nat).to_set(),
        ).len(),
{
    let ghost all = text::views(returned@);
    let n: usize = smaller(returned.len(), k);
    let mut top = FileSet::new();
    assert(all.take(0).to_set() =~= Set::<Seq<char>>::empty());
    for i in 0..n
        invariant
            all == text::views(returned@),
            n <= returned@.len(),
            top@ == all.take(i as int).to_set(),
    {
        proof {
            assert(all.take(i + 1) =~= all.take(i as int).push(all[i as int]));
            all.take(i as int).lemma_push_to_set_commute(all[i as int]);
        }
        top.insert(returned[i].as_str());
    }
    assert(queries::first(all, k as nat) =~= all.take(n as int));
    Share { hits: relevant.common(&top), total: relevant.len() }
}

/// The position from 1 of the first name that stands in a set.
pub open spec fn first_hit(list: Seq<Seq<char>>, set: Set<Seq<char>>) -> Option<nat>
    decreases list.len(),
{
    if list.len() == 0 {
        None
    } else {
        match first_hit(list.drop_last(), set) {
            Some(n) => Some(n),
            None => if set.contains(list.last()) {
                Some(list.len())
            } else {
                None
            },
        }
    }
}

/// The first name that stands in a set stays the first, whatever follows.
proof fn lemma_first_hit_stays(list: Seq<Seq<char>>, set: Set<Seq<char>>, n: int)
    requires
        0 <= n <= list.len(),
        first_hit(list.take(n), set) is Some,
    ensures
        first_hit(list, set) == first_hit(list.take(n), set),
    decreases list.len(),
{
    if n < list.len() {
        assert(list.drop_last().take(n) =~= list.take(n));
        lemma_first_hit_stays(list.drop_last(), set, n);
    } else {
        assert(list.take(n) =~= list);
    }
}

/// Reciprocal rank: the position from 1 of the first relevant result, of which the rank is the
/// reciprocal. Without such a result the rank is none.
pub fn reciprocal_rank(returned: &Vec<String>, relevant: &FileSet) -> (r: Option<usize>)
    ensures
        match r {
            Some(n) => first_hit(text::views(returned@), relevant@) == Some(n as nat),
            None => first_hit(text::views(returned@), relevant@) is None,
        },
{
    let ghost all = text::views(returned@);
    assert(all.take(0) =~= Seq::<Seq<char>>::empty());
    for i in 0..returned.len()
        invariant
            all == text::views(returned@),
            first_hit(all.take(i as int), relevant@) is None,
    {
        proof {
            assert(all.take(i + 1).drop_last() =~= all.take(i as int));
            assert(all.take(i + 1).last() == returned@[i as int]@);
        }
        if relevant.contains(returned[i].as_str()) {
            proof {
                lemma_first_hit_stays(all, relevant@, i + 1);
            }
            return Some(i + 1);
        }
    }
    assert(all.take(all.len() as int) =~= all);
    None
}

/// Whether a share is the recall of the files that were found.
pub open spec fn is_recall_of(s: Share, found: Set<Seq<char>>, expected: Set<Seq<char>>) -> bool {
    s.total == expected.len() && s.hits == expected.intersect(found).len()
}

/// Recall: how many of the expected files were found.
pub fn recall(found: &FileSet, expected: &FileSet) -> (r: Share)
    ensures
        is_recall_of(r, found@, expected@),
        expected@.finite(),
{
    Share { hits: expected.common(found), total: expected.len() }
}

/// Whether one share is larger than another by more than a hundredth.
pub open spec fn clearly_larger(a: Share, b: Share) -> bool {
    100 * a.hits > 100 * b.hits + a.total
}

/// Whether one of two shares of the same whole is larger than the other by more than a hundredth.
pub fn is_clearly_larger(a: Share, b: Share) -> (r: bool)
    ensures
        r == clearly_larger(a, b),
{
    100 * a.hits as u128 > 100 * b.hits as u128 + a.total as u128
}

// ---------------------------------------------------------------------------------------------
// Graded relevance
// ---------------------------------------------------------------------------------------------

/// The grade of a file, 0 where it has none.
pub open spec fn grade_of(grades: Map<Seq<char>, u8>, name: Seq<char>) -> u8 {
    if grades.dom().contains(name) {
        grades[name]
    } else {
        0
    }
}

/// The grades of some files.
pub open spec fn grades_of(list: Seq<Seq<char>>, grades: Map<Seq<char>, u8>) -> Seq<u8> {
    list.map_values(|name: Seq<char>| grade_of(grades, name))
}

/// The grades of the first `k` results.
pub fn gains_at_k(returned: &Vec<String>, grades: &NameMap<u8>, k: usize) -> (r: Vec<u8>)
    ensures
        r@ == grades_of(queries::first(text::views(returned@), k as nat), grades@),
{
    let ghost all = text::views(returned@);
    let n: usize = smaller(returned.len(), k);
    let mut out: Vec<u8> = Vec::new();
    for i in 0..n
        invariant
            all == text::views(returned@),
            n <= returned@.len(),
            out@ == grades_of(all.take(i as int), grades@),
    {
        let grade: u8 = match grades.get(returned[i].as_str()) {
            Some(g) => g,
            None => 0,
        };
        out.push(grade);
        assert(out@ =~= grades_of(all.take(i + 1), grades@));
    }
    assert(queries::first(all, k as nat) =~= all.take(n as int));
    out
}

/// Some grades, the largest first.
pub open spec fn descending(values: Seq<u8>) -> Seq<u8> {
    values.sort_by(|a: u8, b: u8| a >= b)
}

/// Whether some grades are the `k` best of a map, the largest first.
pub open spec fn are_best(best: Seq<u8>, grades: Map<Seq<char>, u8>, k: nat) -> bool {
    exists|values: Seq<u8>| #[trigger]
        names::lists_values(values, grades) && best == queries::first(descending(values), k)
}

/// Puts a grade into a list behind all that are at least as large.
fn insert_grade(list: &mut Vec<u8>, grade: u8)
    requires
        forall|i: int, j: int| 0 <= i < j < old(list)@.len() ==> old(list)@[i] >= old(list)@[j],
    ensures
        forall|i: int, j: int|
            0 <= i < j < final(list)@.len() ==> final(list)@[i] >= final(list)@[j],
        final(list)@.to_multiset() == old(list)@.to_multiset().insert(grade),
{
    let ghost before = list@;
    let mut at: usize = list.len();
    while at > 0 && list[at - 1] < grade
        invariant
            list@ == before,
            at <= list@.len(),
            forall|k: int| at <= k < list@.len() ==> list@[k] < grade,
            forall|i: int, j: int| 0 <= i < j < list@.len() ==> list@[i] >= list@[j],
        decreases at,
    {
        at -= 1;
    }
    list.insert(at, grade);
    proof {
        vstd::seq_lib::to_multiset_insert(before, at as int, grade);
        assert(list@ =~= before.insert(at as int, grade));
    }
}

/// The `k` best grades, the largest first.
pub fn ideal_gains(grades: &NameMap<u8>, k: usize) -> (r: Vec<u8>)
    ensures
        are_best(r@, grades@, k as nat),
{
    let values = grades.values();
    let mut sorted: Vec<u8> = Vec::new();
    assert(values@.take(0) =~= sorted@);
    for i in 0..values.len()
        invariant
            forall|a: int, b: int| 0 <= a < b < sorted@.len() ==> sorted@[a] >= sorted@[b],
            sorted@.to_multiset() == values@.take(i as int).to_multiset(),
    {
        proof {
            vstd::seq_lib::to_multiset_build(values@.take(i as int), values@[i as int]);
            assert(values@.take(i + 1) =~= values@.take(i as int).push(values@[i as int]));
        }
        insert_grade(&mut sorted, values[i]);
    }
    let ghost all = sorted@;
    proof {
        let leq = |a: u8, b: u8| a >= b;
        assert(values@.take(values@.len() as int) =~= values@);
        assert(vstd::relations::total_ordering(leq));
        values@.lemma_sort_by_ensures(leq);
        assert(vstd::relations::sorted_by(all, leq));
        vstd::seq_lib::lemma_sorted_unique(all, values@.sort_by(leq), leq);
        assert(all == descending(values@));
    }
    let n: usize = smaller(sorted.len(), k);
    sorted.truncate(n);
    assert(sorted@ =~= queries::first(all, k as nat));
    sorted
}

// ---------------------------------------------------------------------------------------------
// Cases
// ---------------------------------------------------------------------------------------------

/// How well one query was answered. The discounted gain of an answer is reckoned from
/// `gains_at_10`, and its largest possible value from `ideal_at_10`.
pub struct CaseMetrics {
    pub case_id: String,
    pub query: String,
    pub precision_at_5: Share,
    pub precision_at_10: Share,
    pub recall_at_5: Share,
    pub recall_at_10: Share,
    pub first_relevant: Option<usize>,
    pub gains_at_10: Vec<u8>,
    pub ideal_at_10: Vec<u8>,
    pub returned_count: usize,
    pub relevant_count: usize,
    pub hits_at_10: usize,
}

/// Whether a share is the precision of the first `k` results.
pub open spec fn is_precision(
    s: Share,
    returned: Seq<Seq<char>>,
    relevant: Set<Seq<char>>,
    k: nat,
) -> bool {
    let top = queries::first(returned, k);
    s.total == top.len() && s.hits == hits_in(top, relevant)
}

/// Whether a share is the recall of the first `k` results.
pub open spec fn is_recall(
    s: Share,
    returned: Seq<Seq<char>>,
    relevant: Set<Seq<char>>,
    k: nat,
) -> bool {
    s.total == relevant.len() && s.hits == relevant.intersect(
        queries::first(returned, k).to_set(),
    ).len()
}

impl CaseMetrics {
    /// Whether these are the metrics of an answer to a query.
    pub open spec fn measures(
        &self,
        case_id: Seq<char>,
        query: Seq<char>,
        returned: Seq<Seq<char>>,
        grades: Map<Seq<char>, u8>,
    ) -> bool {
        let relevant = grades.dom();
        &&& self.case_id@ == case_id
        &&& self.query@ == query
        &&& is_precision(self.precision_at_5, returned, relevant, 5)
        &&& is_precision(self.precision_at_10, returned, relevant, 10)
        &&& is_recall(self.recall_at_5, returned, relevant, 5)
        &&& is_recall(self.recall_at_10, returned, relevant, 10)
        &&& match self.first_relevant {
            Some(n) => first_hit(returned, relevant) == Some(n as nat),
            None => first_hit(returned, relevant) is None,
        }
        &&& self.gains_at_10@ == grades_of(queries::first(returned, 10), grades)
        &&& are_best(self.ideal_at_10@, grades, 10)
        &&& self.returned_count == returned.len()
        &&& self.relevant_count == relevant.len()
        &&& self.hits_at_10 == hits_in(queries::first(returned, 10), relevant)
    }

    /// Measures an answer to a query.
    pub fn compute(
        case_id: &str,
        query: &str,
        returned: &Vec<String>,
        grades: &NameMap<u8>,
    ) -> (r: CaseMetrics)
        ensures
            r.measures(case_id@, query@, text::views(returned@), grades@),
    {
        let relevant = grades.keys();
        let precision_at_10 = precision_at_k(returned, &relevant, 10);
        CaseMetrics {
            case_id: case_id.to_string(),
            query: query.to_string(),
            precision_at_5: precision_at_k(returned, &relevant, 5),
            precision_at_10,
            recall_at_5: recall_at_k(returned, &relevant, 5),
            recall_at_10: recall_at_k(returned, &relevant, 10),
            first_relevant: reciprocal_rank(returned, &relevant),
            gains_at_10: gains_at_k(returned, grades, 10),
            ideal_at_10: ideal_gains(grades, 10),
            returned_count: returned.len(),
            relevant_count: relevant.len(),
            hits_at_10: precision_at_10.hits,
        }
    }
}

/// The keywords of a query.
pub open spec fn query_keywords(query: Seq<char>) -> Seq<Seq<char>> {
    scorer::keywords_of(text::pieces(query, CharClass::Space))
}

/// The cases whose query has keywords.
pub open spec fn scorable(cases: Seq<EvalCase>) -> Seq<EvalCase>
    decreases cases.len(),
{
    if cases.len() == 0 {
        Seq::empty()
    } else if query_keywords(cases.last().query@).len() > 0 {
        scorable(cases.drop_last()).push(cases.last())
    } else {
        scorable(cases.drop_last())
    }
}

/// The paths of some scored files.
pub open spec fn scored_paths(scored: Seq<ScoredView>) -> Seq<Seq<char>> {
    scored.map_values(|s: ScoredView| s.path)
}

/// Whether metrics are those of what the scorer answers to a case.
pub open spec fn scores_case<F: Fn(u128, u64) -> u64, G: Fn(u64) -> u64>(
    m: CaseMetrics,
    case: EvalCase,
    files: Seq<ListedFile>,
    v: IndexView,
    weigh: F,
    damp: G,
) -> bool {
    exists|weighted: Seq<WeightedView>| #[trigger]
        scorer::weighted_by(
            scorer::matches_of(query_keywords(case.query@), files),
            weighted,
            weigh,
            damp,
        ) && m.measures(
            case.id@,
            case.query@,
            scored_paths(scorer::ranking(v, files, weighted)),
            dataset::expected_grades(case.expected_files@),
        )
}

/// The paths of some scored files.
fn collect_paths(scored: &Vec<ScoredFile>) -> (r: Vec<String>)
    ensures
        text::views(r@) == scored_paths(scorer::scored_views(scored@)),
{
    let ghost all = scored_paths(scorer::scored_views(scored@));
    let mut out: Vec<String> = Vec::new();
    assert(text::views(out@) =~= all.take(0));
    for i in 0..scored.len()
        invariant
            all == scored_paths(scorer::scored_views(scored@)),
            text::views(out@) == all.take(i as int),
    {
        let ghost before = text::views(out@);
        out.push(scored[i].path.clone());
        proof {
            assert(text::views(out@) =~= before.push(scored@[i as int].path@));
            assert(text::views(out@) =~= all.take(i + 1));
        }
    }
    assert(all.take(all.len() as int) =~= all);
    out
}

/// Scores the cases of a dataset; those whose query has no keywords are left out.
pub fn score_dataset<F: Fn(u128, u64) -> u64 + Copy, G: Fn(u64) -> u64 + Copy>(
    cases: &Vec<EvalCase>,
    files: &Vec<FileWithExportsAndEnrichment>,
    index: &Index,
    weigh: F,
    damp: G,
) -> (r: Vec<CaseMetrics>)
    requires
        index.wf(),
        forall|points: u128, rank: u64| call_requires(weigh, (points, rank)),
        forall|score: u64| call_requires(damp, (score,)),
    ensures
        r@.len() == scorable(cases@).len(),
        forall|k: int|
            0 <= k < r@.len() ==> scores_case(
                #[trigger] r@[k],
                scorable(cases@)[k],
                queries::listed_views(files@),
                index@,
                weigh,
                damp,
            ),
{
    let ghost listed = queries::listed_views(files@);
    let mut out: Vec<CaseMetrics> = Vec::new();
    assert(cases@.take(0) =~= Seq::<EvalCase>::empty());
    for i in 0..cases.len()
        invariant
            index.wf(),
            listed == queries::listed_views(files@),
            forall|points: u128, rank: u64| call_requires(weigh, (points, rank)),
            forall|score: u64| call_requires(damp, (score,)),
            out@.len() == scorable(cases@.take(i as int)).len(),
            forall|k: int|
                0 <= k < out@.len() ==> scores_case(
                    #[trigger] out@[k],
                    scorable(cases@.take(i as int))[k],
                    listed,
                    index@,
                    weigh,
                    damp,
                ),
    {
        assert(cases@.take(i + 1).drop_last() =~= cases@.take(i as int));
        assert(cases@.take(i + 1).last() == cases@[i as int]);
        let case = &cases[i];
        let keywords = scorer::tokenize_query(case.query.as_str());
        assert(text::views(keywords@).len() == keywords@.len());
        if keywords.len() > 0 {
            let scored = scorer::score_files(&keywords, files, index, weigh, damp);
            let returned = collect_paths(&scored);
            let grades = dataset::grades_for(&case.expected_files);
            let m = CaseMetrics::compute(
                case.id.as_str(),
                case.query.as_str(),
                &returned,
                &grades,
            );
            proof {
                let matches = scorer::matches_of(query_keywords(case.query@), listed);
                let weighted = choose|weighted: Seq<WeightedView>| #[trigger]
                    scorer::weighted_by(matches, weighted, weigh, damp) && scorer::scored_views(
                        scored@,
                    ) == scorer::ranking(index@, listed, weighted);
                assert(scorer::weighted_by(matches, weighted, weigh, damp));
                assert(scores_case(m, *case, listed, index@, weigh, damp));
            }
            out.push(m);
        }
    }
    assert(cases@.take(cases@.len() as int) =~= cases@);
    out
}

// ---------------------------------------------------------------------------------------------
// Laws
// ---------------------------------------------------------------------------------------------

/// There are no more hits than names.
proof fn lemma_hits_bound(list: Seq<Seq<char>>, set: Set<Seq<char>>)
    ensures
        hits_in(list, set) <= list.len(),
    decreases list.len(),
{
    if list.len() > 0 {
        lemma_hits_bound(list.drop_last(), set);
    }
}

/// Precision and recall lie between none and all.
pub proof fn law_shares(m: CaseMetrics, returned: Seq<Seq<char>>, grades: Map<Seq<char>, u8>)
    requires
        m.measures(m.case_id@, m.query@, returned, grades),
        grades.dom().finite(),
    ensures
        m.precision_at_5.hits <= m.precision_at_5.total <= 5,
        m.precision_at_10.hits <= m.precision_at_10.total <= 10,
        m.recall_at_5.hits <= m.recall_at_5.total,
        m.recall_at_10.hits <= m.recall_at_10.total,
        m.recall_at_10.total == m.relevant_count,
{
    lemma_hits_bound(queries::first(returned, 5), grades.dom());
    lemma_hits_bound(queries::first(returned, 10), grades.dom());
    vstd::set_lib::lemma_len_intersect(grades.dom(), queries::first(returned, 5).to_set());
    vstd::set_lib::lemma_len_intersect(grades.dom(), queries::first(returned, 10).to_set());
}

/// As many results are hits as are among what is relevant.
pub proof fn law_hits(list: Seq<Seq<char>>, set: Set<Seq<char>>)
    ensures
        hits_in(list, set) == list.filter(|s: Seq<char>| set.contains(s)).len(),
{
    lists::lemma_count(
        list,
        |s: Seq<char>| set.contains(s),
        |l: Seq<Seq<char>>| hits_in(l, set),
    );
}

/// The first hit is the place of the first relevant result, counted from one; there is none where
/// no result is relevant.
pub proof fn law_first_hit(list: Seq<Seq<char>>, set: Set<Seq<char>>)
    ensures
        match first_hit(list, set) {
            Some(n) => 1 <= n <= list.len() && set.contains(list[n - 1]) && forall|i: int|
                0 <= i < n - 1 ==> !set.contains(#[trigger] list[i]),
            None => forall|i: int| 0 <= i < list.len() ==> !set.contains(#[trigger] list[i]),
        },
    decreases list.len(),
{
    if list.len() > 0 {
        let rest = list.drop_last();
        law_first_hit(rest, set);
        assert forall|i: int| 0 <= i < rest.len() implies rest[i] == #[trigger] list[i] by {
        }
        if first_hit(rest, set) is Some {
            let n = first_hit(rest, set)->0;
            assert(rest[n - 1] == list[n - 1]);
        }
    }
}

/// The cases that are scored are all whose query has a keyword, in their order.
pub proof fn law_scorable(cases: Seq<EvalCase>)
    ensures
        scorable(cases) == cases.filter(|c: EvalCase| query_keywords(c.query@).len() > 0),
{
    let keep = |c: EvalCase| query_keywords(c.query@).len() > 0;
    let same = |c: EvalCase| c;
    lists::lemma_kept(cases, keep, same, |s: Seq<EvalCase>| scorable(s));
    assert(cases.filter(keep).map_values(same) =~= cases.filter(keep));
}

/// The best order of grades has the larger first, and the same grades.
pub proof fn law_descending(values: Seq<u8>)
    ensures
        descending(values).to_multiset() == values.to_multiset(),
        forall|i: int, j: int|
            0 <= i < j < descending(values).len() ==> (#[trigger] descending(values)[i]) >= (
            #[trigger] descending(values)[j]),
{
    let leq = |a: u8, b: u8| a >= b;
    values.lemma_sort_by_ensures(leq);
    let r = descending(values);
    assert forall|i: int, j: int| 0 <= i < j < r.len() implies (#[trigger] r[i]) >= (
    #[trigger] r[j]) by {
        assert(leq(r[i], r[j]));
    }
}

/// One share is clearly larger than another of the same total if and only if it is by more than one
/// hundredth.
pub proof fn law_clearly_larger(a: Share, b: Share)
    requires
        a.total == b.total,
    ensures
        clearly_larger(a, b) == (100 * (a.hits - b.hits) > a.total),
        !(clearly_larger(a, b) && clearly_larger(b, a)),
{
}

/// What the measures of a case count: of the first five and the first ten results, how many are
/// relevant, and how many of the relevant files are among them; the place of the first; the grades
/// of the first ten; and how many results and relevant files there are.
pub proof fn law_measures(
    m: CaseMetrics,
    returned: Seq<Seq<char>>,
    grades: Map<Seq<char>, u8>,
)
    requires
        m.measures(m.case_id@, m.query@, returned, grades),
        returned.len() >= 10,
    ensures
        ({
            let relevant = grades.dom();
            let five = returned.take(5);
            let ten = returned.take(10);
            &&& m.precision_at_5.total == 5 && m.precision_at_5.hits == five.filter(
                |s: Seq<char>| relevant.contains(s),
            ).len()
            &&& m.precision_at_10.total == 10 && m.precision_at_10.hits == ten.filter(
                |s: Seq<char>| relevant.contains(s),
            ).len()
            &&& m.recall_at_5.total == relevant.len() && m.recall_at_5.hits == relevant.intersect(
                five.to_set(),
            ).len()
            &&& m.recall_at_10.total == relevant.len() && m.recall_at_10.hits == relevant.intersect(
                ten.to_set(),
            ).len()
            &&& m.gains_at_10@.len() == 10
            &&& forall|i: int|
                0 <= i < 10 ==> (#[trigger] m.gains_at_10@[i]) == (if relevant.contains(
                    returned[i],
                ) {
                    grades[returned[i]]
                } else {
                    0
                })
            &&& m.returned_count == returned.len()
            &&& m.relevant_count == relevant.len()
            &&& m.hits_at_10 == m.precision_at_10.hits
            &&& m.first_relevant matches Some(n) ==> 1 <= n <= returned.len() && relevant.contains(
                returned[n - 1],
            ) && forall|i: int| 0 <= i < n - 1 ==> !relevant.contains(#[trigger] returned[i])
            &&& m.first_relevant is None ==> forall|i: int|
                0 <= i < returned.len() ==> !relevant.contains(#[trigger] returned[i])
        }),
{
    let relevant = grades.dom();
    law_hits(returned.take(5), relevant);
    law_hits(returned.take(10), relevant);
    law_first_hit(returned, relevant);
    assert(queries::first(returned, 5) =~= returned.take(5));
    assert(queries::first(returned, 10) =~= returned.take(10));
}

/// A case is measured by the keywords by which files are suggested.
pub proof fn law_same_keywords(query: Seq<char>)
    ensures
        query_keywords(query) == scorer::query_keywords(query),
{
}

/// The best grades stand in order, the larger first, and are as many as are asked for, or all where
/// there are fewer.
pub proof fn law_best(best: Seq<u8>, grades: Map<Seq<char>, u8>, k: nat)
    requires
        are_best(best, grades, k),
    ensures
        best.len() == vstd::math::min(k as int, grades.dom().len() as int),
        forall|i: int, j: int|
            0 <= i < j < best.len() ==> (#[trigger] best[i]) >= (#[trigger] best[j]),
{
    let values = choose|values: Seq<u8>| #[trigger]
        names::lists_values(values, grades) && best == queries::first(descending(values), k);
    let keys = choose|keys: Seq<Seq<char>>| #[trigger]
        keys.no_duplicates() && keys.to_set() == grades.dom() && values.len() == keys.len()
            && forall|i: int| 0 <= i < keys.len() ==> #[trigger] values[i] == grades[keys[i]];
    keys.unique_seq_to_set();
    law_descending(values);
    values.to_multiset_ensures();
    descending(values).to_multiset_ensures();
    let all = descending(values);
    assert(all.len() == values.len());
    assert forall|i: int, j: int| 0 <= i < j < best.len() implies (#[trigger] best[i]) >= (
    #[trigger] best[j]) by {
        assert(best[i] == all[i] && best[j] == all[j]);
    }
}

}
