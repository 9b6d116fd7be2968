//! Datasets: queries with the files that they should find.
use vstd::prelude::*;

use super::names::{FileSet, NameMap};
use crate::text;
use crate::text::CharClass;

verus! {

/// A file that a query should find, and how relevant it is.
pub struct ExpectedFile {
    pub path: String,
    pub relevance: u8,
}

/// A query with the files that it should find.
pub struct EvalCase {
    pub id: String,
    pub query: String,
    pub expected_files: Vec<ExpectedFile>,
}

/// The cases for a repository, and where its index is.
pub struct EvalDataset {
    pub repo: String,
    pub repo_url: String,
    pub language: String,
    pub commit: String,
    pub index_db: String,
    pub cases: Vec<EvalCase>,
}

/// The language of a dataset that names none.
pub fn default_language() -> (r: String)
    ensures
        r@ == "js/ts"@,
{
    "js/ts".to_string()
}

/// The grades of the files that a query should find; of two grades for a file the later one counts.
pub open spec fn expected_grades(files: Seq<ExpectedFile>) -> Map<Seq<char>, u8>
    decreases files.len(),
{
    if files.len() == 0 {
        Map::empty()
    } else {
        expected_grades(files.drop_last()).insert(files.last().path@, files.last().relevance)
    }
}

/// The grades of the files that a query should find.
pub fn grades_for(files: &Vec<ExpectedFile>) -> (r: NameMap<u8>)
    ensures
        r@ == expected_grades(files@),
{
    let mut out: NameMap<u8> = NameMap::new();
    assert(files@.take(0) =~= Seq::<ExpectedFile>::empty());
    for i in 0..files.len()
        invariant
            out@ == expected_grades(files@.take(i as int)),
    {
        assert(files@.take(i + 1).drop_last() =~= files@.take(i as int));
        out.set(files[i].path.as_str(), files[i].relevance);
    }
    assert(files@.take(files@.len() as int) =~= files@);
    out
}

/// The paths of the files that a query should find.
pub open spec fn expected_paths(files: Seq<ExpectedFile>) -> Set<Seq<char>> {
    files.map_values(|f: ExpectedFile| f.path@).to_set()
}

/// The paths of the files that a query should find.
pub fn paths_for(files: &Vec<ExpectedFile>) -> (r: FileSet)
    ensures
        r@ == expected_paths(files@),
{
    let ghost all = files@.map_values(|f: ExpectedFile| f.path@);
    let mut out = FileSet::new();
    assert(all.take(0).to_set() =~= Set::<Seq<char>>::empty());
    for i in 0..files.len()
        invariant
            all == files@.map_values(|f: ExpectedFile| f.path@),
            out@ == all.take(i as int).to_set(),
    {
        proof {
            assert(all.take(i + 1) =~= all.take(i as int).push(all[i as int]));
            all.take(i as int).lemma_push_to_set_commute(all[i as int]);
        }
        out.insert(files[i].path.as_str());
    }
    assert(all.take(all.len() as int) =~= all);
    out
}

// ---------------------------------------------------------------------------------------------
// Selection
// ---------------------------------------------------------------------------------------------

/// The cases that a list with commas names.
pub open spec fn selected(filter: Seq<char>) -> Set<Seq<char>> {
    text::split_by(filter, CharClass::Is(',')).map_values(
        |part: Seq<char>| text::trim_by(part, CharClass::Space),
    ).to_set()
}

/// The cases that a list with commas names.
pub fn parse_filter(filter: &str) -> (r: FileSet)
    ensures
        r@ == selected(filter@),
{
    let parts = text::split(filter, CharClass::Is(','));
    let ghost all = text::split_by(filter@, CharClass::Is(',')).map_values(
        |part: Seq<char>| text::trim_by(part, CharClass::Space),
    );
    let mut out = FileSet::new();
    assert(text::views(parts@).len() == parts@.len());
    assert(all.take(0).to_set() =~= Set::<Seq<char>>::empty());
    for i in 0..parts.len()
        invariant
            text::views(parts@) == text::split_by(filter@, CharClass::Is(',')),
            all == text::split_by(filter@, CharClass::Is(',')).map_values(
                |part: Seq<char>| text::trim_by(part, CharClass::Space),
            ),
            out@ == all.take(i as int).to_set(),
    {
        proof {
            assert(text::views(parts@)[i as int] == parts@[i as int]@);
            assert(all.take(i + 1) =~= all.take(i as int).push(all[i as int]));
            all.take(i as int).lemma_push_to_set_commute(all[i as int]);
        }
        let name = text::trim(parts[i].as_str(), CharClass::Space);
        out.insert(name.as_str());
    }
    assert(all.take(parts@.len() as int) =~= all);
    out
}

/// Whether a case is to be run: it is named, or all are.
pub fn is_selected(filter: &Option<FileSet>, case_id: &str) -> (r: bool)
    ensures
        r == (match filter {
            Some(ids) => ids@.contains(case_id@),
            None => true,
        }),
{
    match filter {
        Some(ids) => ids.contains(case_id),
        None => true,
    }
}

/// The positions of the cases that are to be run.
pub open spec fn selected_positions(cases: Seq<EvalCase>, filter: Option<Set<Seq<char>>>) -> Seq<int>
    decreases cases.len(),
{
    if cases.len() == 0 {
        Seq::empty()
    } else {
        let before = selected_positions(cases.drop_last(), filter);
        if filter is None || filter->0.contains(cases.last().id@) {
            before.push(cases.len() - 1)
        } else {
            before
        }
    }
}

/// The names of a filter, where there is one.
pub open spec fn opt_set(filter: Option<FileSet>) -> Option<Set<Seq<char>>> {
    match filter {
        Some(ids) => Some(ids@),
        None => None,
    }
}

/// The positions of the cases that are to be run.
pub fn selected_cases(cases: &Vec<EvalCase>, filter: &Option<FileSet>) -> (r: Vec<usize>)
    ensures
        r@.map_values(|i: usize| i as int) == selected_positions(cases@, opt_set(*filter)),
        forall|k: int| 0 <= k < r@.len() ==> (#[trigger] r@[k]) < cases@.len(),
{
    let ghost f = |i: usize| i as int;
    let mut out: Vec<usize> = Vec::new();
    assert(cases@.take(0) =~= Seq::<EvalCase>::empty());
    assert(out@.map_values(f) =~= selected_positions(cases@.take(0), opt_set(*filter)));
    for i in 0..cases.len()
        invariant
            f == (|i: usize| i as int),
            out@.map_values(f) == selected_positions(cases@.take(i as int), opt_set(*filter)),
            forall|k: int| 0 <= k < out@.len() ==> (#[trigger] out@[k]) < i,
    {
        let ghost before = out@.map_values(f);
        proof {
            assert(cases@.take(i + 1).drop_last() =~= cases@.take(i as int));
            assert(cases@.take(i + 1).last() == cases@[i as int]);
        }
        if is_selected(filter, cases[i].id.as_str()) {
            out.push(i);
            assert(out@.map_values(f) =~= before.push(i as int));
        }
    }
    assert(cases@.take(cases@.len() as int) =~= cases@);
    out
}

/// What is told before the cases of a dataset are run.
pub open spec fn heading_text(
    kind: Seq<char>,
    repo: Seq<char>,
    cases: nat,
    model: Seq<char>,
) -> Seq<char> {
    "\n"@ + kind + " Eval: "@ + repo + " ("@ + text::decimal(cases) + " cases, model: "@ + model
        + ")\n"@ + text::repeated('-', 60) + "\n"@
}

/// What is told before the cases of a dataset are run.
pub fn heading(kind: &str, repo: &str, cases: usize, model: &str) -> (r: String)
    ensures
        r@ == heading_text(kind@, repo@, cases as nat, model@),
{
    let mut out = "\n".to_string();
    out.append(kind);
    out.append(" Eval: ");
    out.append(repo);
    out.append(" (");
    out.append(text::decimal_of(cases as u64).as_str());
    out.append(" cases, model: ");
    out.append(model);
    out.append(")\n");
    out.append(text::repeat('-', 60).as_str());
    out.append("\n");
    out
}

/// Every file that is expected has a grade, the last one that it is given, and no other file has
/// one.
pub proof fn law_expected_grades(files: Seq<ExpectedFile>, path: Seq<char>)
    ensures
        expected_grades(files).dom().contains(path) == exists|k: int|
            0 <= k < files.len() && (#[trigger] files[k]).path@ == path,
        forall|k: int|
            0 <= k < files.len() && (#[trigger] files[k]).path@ == path && (forall|j: int|
                k < j < files.len() ==> (#[trigger] files[j]).path@ != path) ==> expected_grades(
                files,
            )[path] == files[k].relevance,
    decreases files.len(),
{
    if files.len() > 0 {
        let rest = files.drop_last();
        law_expected_grades(rest, path);
        let n = files.len() - 1;
        assert(files[n] == files.last());
        if exists|k: int| 0 <= k < rest.len() && (#[trigger] rest[k]).path@ == path {
            let k = choose|k: int| 0 <= k < rest.len() && (#[trigger] rest[k]).path@ == path;
            assert(files[k].path@ == path);
        }
        if exists|k: int| 0 <= k < files.len() && (#[trigger] files[k]).path@ == path {
            let k = choose|k: int| 0 <= k < files.len() && (#[trigger] files[k]).path@ == path;
            if k < n {
                assert(rest[k].path@ == path);
            }
        }
        assert forall|k: int|
            0 <= k < files.len() && (#[trigger] files[k]).path@ == path && (forall|j: int|
                k < j < files.len() ==> (#[trigger] files[j]).path@ != path) implies expected_grades(
            files,
        )[path] == files[k].relevance by {
            if k < n {
                assert(files[n].path@ != path);
                assert(rest[k] == files[k]);
                assert forall|j: int| k < j < rest.len() implies (#[trigger] rest[j]).path@
                    != path by {
                    assert(files[j].path@ != path);
                }
            }
        }
    }
}

/// The cases that are chosen are all whose name is asked for, each once and in their order; without
/// names they are all.
pub proof fn law_selected_positions(
    cases: Seq<EvalCase>,
    filter: Option<Set<Seq<char>>>,
    i: int,
)
    ensures
        selected_positions(cases, filter).contains(i) == (0 <= i < cases.len() && (filter is None
            || filter->0.contains(cases[i].id@))),
        forall|a: int, b: int|
            0 <= a < b < selected_positions(cases, filter).len() ==> (#[trigger] selected_positions(
                cases,
                filter,
            )[a]) < (#[trigger] selected_positions(cases, filter)[b]),
    decreases cases.len(),
{
    let all = selected_positions(cases, filter);
    if cases.len() > 0 {
        let rest = cases.drop_last();
        law_selected_positions(rest, filter, i);
        let before = selected_positions(rest, filter);
        let n = cases.len() - 1;
        assert(cases[n] == cases.last());
        if before.contains(i) {
            let k = choose|k: int| 0 <= k < before.len() && before[k] == i;
            assert(all[k] == i);
            assert(rest[i] == cases[i]);
        }
        if all.contains(i) {
            let k = choose|k: int| 0 <= k < all.len() && all[k] == i;
            if k < before.len() {
                assert(before[k] == i);
            }
        }
        if 0 <= i < n && (filter is None || filter->0.contains(cases[i].id@)) {
            assert(rest[i] == cases[i]);
        }
        if filter is None || filter->0.contains(cases.last().id@) {
            assert(all[before.len() as int] == n);
        }
        assert forall|a: int, b: int| 0 <= a < b < all.len() implies (#[trigger] all[a]) < (
        #[trigger] all[b]) by {
            if b == before.len() {
                law_selected_positions(rest, filter, before[a]);
                assert(before.contains(before[a]));
            }
        }
    }
}

/// The names in a list are those on both sides of each comma, without the space around them.
pub proof fn law_selected(a: Seq<char>, b: Seq<char>)
    ensures
        selected(a.push(',') + b) == selected(a).union(selected(b)),
        !a.contains(',') ==> selected(a) == set![text::trim_by(a, CharClass::Space)],
{
    let class = CharClass::Is(',');
    let trim = |part: Seq<char>| text::trim_by(part, CharClass::Space);
    text::lemma_split_joined(a, ',', b, class);
    let x = text::split_by(a, class).map_values(trim);
    let y = text::split_by(b, class).map_values(trim);
    let both = text::split_by(a.push(',') + b, class).map_values(trim);
    assert(both =~= x + y);
    assert forall|s: Seq<char>| both.to_set().contains(s) == (x.to_set().contains(s)
        || y.to_set().contains(s)) by {
        if both.contains(s) {
            let i = choose|i: int| 0 <= i < both.len() && both[i] == s;
            if i < x.len() {
                assert(x[i] == s);
            } else {
                assert(y[i - x.len()] == s);
            }
        }
        if x.contains(s) {
            let i = choose|i: int| 0 <= i < x.len() && x[i] == s;
            assert(both[i] == s);
        }
        if y.contains(s) {
            let i = choose|i: int| 0 <= i < y.len() && y[i] == s;
            assert(both[x.len() + i] == s);
        }
    }
    assert(selected(a.push(',') + b) =~= selected(a).union(selected(b)));
    if !a.contains(',') {
        assert forall|k: int| 0 <= k < a.len() implies !class.has(#[trigger] a[k]) by {
            assert(a.contains(a[k]));
        }
        text::lemma_one_piece(a, class);
        assert(x =~= seq![trim(a)]);
        assert forall|s: Seq<char>| x.to_set().contains(s) == (s == trim(a)) by {
            assert(x[0] == trim(a));
        }
        assert(selected(a) =~= set![text::trim_by(a, CharClass::Space)]);
    }
}

/// The files that a case expects are those that it lists.
pub proof fn law_expected_paths(files: Seq<ExpectedFile>, path: Seq<char>)
    ensures
        expected_paths(files).contains(path) == exists|k: int|
            0 <= k < files.len() && (#[trigger] files[k]).path@ == path,
{
    let paths = files.map_values(|f: ExpectedFile| f.path@);
    if paths.contains(path) {
        let k = choose|k: int| 0 <= k < paths.len() && paths[k] == path;
        assert(files[k].path@ == path);
    }
    if exists|k: int| 0 <= k < files.len() && (#[trigger] files[k]).path@ == path {
        let k = choose|k: int| 0 <= k < files.len() && (#[trigger] files[k]).path@ == path;
        assert(paths[k] == path);
    }
}

}
