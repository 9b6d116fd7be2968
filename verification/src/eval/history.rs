//! The archive of evaluations.
use vstd::prelude::*;

use crate::json;
use crate::json::{Json, JsonView};
use crate::lists;
use crate::queries;
use crate::text;

verus! {

/// A row of the archive.
pub struct RunRow {
    pub id: i64,
    pub git_commit: String,
    pub git_dirty: bool,
    pub timestamp: String,
    pub layer: String,
    pub dataset: String,
    pub language: String,
    pub metrics: String,
    pub config: Option<String>,
}

/// What a row of the archive says.
#[verifier::ext_equal]
pub struct RowView {
    pub id: i64,
    pub git_commit: Seq<char>,
    pub git_dirty: bool,
    pub timestamp: Seq<char>,
    pub layer: Seq<char>,
    pub dataset: Seq<char>,
    pub language: Seq<char>,
    pub metrics: Seq<char>,
    pub config: Option<Seq<char>>,
}

impl View for RunRow {
    type V = RowView;

    open spec fn view(&self) -> RowView {
        RowView {
            id: self.id,
            git_commit: self.git_commit@,
            git_dirty: self.git_dirty,
            timestamp: self.timestamp@,
            layer: self.layer@,
            dataset: self.dataset@,
            language: self.language@,
            metrics: self.metrics@,
            config: text::opt_view(self.config),
        }
    }
}

/// What the rows of the archive say.
pub open spec fn row_views(rows: Seq<RunRow>) -> Seq<RowView> {
    rows.map_values(|r: RunRow| r@)
}

/// The archive.
pub struct History {
    pub runs: Vec<RunRow>,
}

/// Whether runs are numbered upwards from 1.
pub open spec fn runs_wf(runs: Seq<RowView>) -> bool {
    &&& forall|i: int| 0 <= i < runs.len() ==> (#[trigger] runs[i]).id >= 1
    &&& forall|i: int, j: int|
        0 <= i < j < runs.len() ==> (#[trigger] runs[i]).id < (#[trigger] runs[j]).id
}

impl View for History {
    type V = Seq<RowView>;

    open spec fn view(&self) -> Seq<RowView> {
        row_views(self.runs@)
    }
}

impl History {
    /// Whether the archive keeps its rule: runs are numbered upwards from 1.
    pub open spec fn wf(&self) -> bool {
        runs_wf(self@)
    }
}

/// A run of the archive with its metrics.
pub struct HistoricRun {
    pub id: i64,
    pub git_commit: String,
    pub git_dirty: bool,
    pub timestamp: String,
    pub dataset: String,
    pub language: String,
    pub metrics: Json,
}

/// A run of the archive with its metrics.
#[verifier::ext_equal]
pub struct HistoricView {
    pub id: i64,
    pub git_commit: Seq<char>,
    pub git_dirty: bool,
    pub timestamp: Seq<char>,
    pub dataset: Seq<char>,
    pub language: Seq<char>,
    pub metrics: JsonView,
}

impl View for HistoricRun {
    type V = HistoricView;

    open spec fn view(&self) -> HistoricView {
        HistoricView {
            id: self.id,
            git_commit: self.git_commit@,
            git_dirty: self.git_dirty,
            timestamp: self.timestamp@,
            dataset: self.dataset@,
            language: self.language@,
            metrics: self.metrics.tree(),
        }
    }
}

/// Some runs of the archive with their metrics.
pub open spec fn historic_views(runs: Seq<HistoricRun>) -> Seq<HistoricView> {
    runs.map_values(|r: HistoricRun| r@)
}

/// An archive of some rows, if they are numbered upwards from 1.
pub fn from_rows(rows: Vec<RunRow>) -> (r: Option<History>)
    ensures
        match r {
            Some(h) => h.wf() && h@ == row_views(rows@),
            None => !runs_wf(row_views(rows@)),
        },
{
    let ghost all = row_views(rows@);
    let n: usize = rows.len();
    let mut last: i64 = 0;
    for i in 0..n
        invariant
            n == rows@.len(),
            all == row_views(rows@),
            last >= 0,
            i == 0 ==> last == 0,
            i > 0 ==> last == all[i - 1].id,
            forall|k: int| 0 <= k < i ==> 1 <= (#[trigger] all[k]).id <= last,
            forall|j: int, k: int|
                0 <= j < k < i ==> (#[trigger] all[j]).id < (#[trigger] all[k]).id,
    {
        let id: i64 = rows[i].id;
        assert(all[i as int].id == id);
        if id <= last {
            return None;
        }
        last = id;
    }
    Some(History { runs: rows })
}

/// The number of the last run.
pub open spec fn last_id(runs: Seq<RowView>) -> int {
    if runs.len() == 0 {
        0
    } else {
        runs.last().id as int
    }
}

/// The text of a value that may be missing.
pub open spec fn opt_compact(v: Option<JsonView>) -> Option<Seq<char>> {
    match v {
        Some(v) => Some(json::compact(v)),
        None => None,
    }
}

/// Keeps a run. Returns its number; there is none when every number is taken.
pub fn save_run(
    history: &mut History,
    git_commit: &str,
    git_dirty: bool,
    timestamp: &str,
    layer: &str,
    dataset: &str,
    language: &str,
    metrics: &Json,
    config: Option<&Json>,
) -> (r: Option<i64>)
    requires
        old(history).wf(),
    ensures
        final(history).wf(),
        match r {
            None => last_id(old(history)@) == i64::MAX && final(history)@ == old(history)@,
            Some(id) => id == last_id(old(history)@) + 1 && final(history)@ == old(history)@.push(
                RowView {
                    id,
                    git_commit: git_commit@,
                    git_dirty,
                    timestamp: timestamp@,
                    layer: layer@,
                    dataset: dataset@,
                    language: language@,
                    metrics: json::compact(metrics.tree()),
                    config: opt_compact(json::opt_tree(config)),
                },
            ),
        },
{
    let ghost before = history@;
    let n: usize = history.runs.len();
    assert(before.len() == n);
    let last: i64 = if n == 0 {
        0
    } else {
        assert(before[n - 1] == history.runs@[n - 1]@);
        history.runs[n - 1].id
    };
    assert(last == last_id(before));
    if last == i64::MAX {
        return None;
    }
    let id: i64 = last + 1;
    let row = RunRow {
        id,
        git_commit: git_commit.to_string(),
        git_dirty,
        timestamp: timestamp.to_string(),
        layer: layer.to_string(),
        dataset: dataset.to_string(),
        language: language.to_string(),
        metrics: json::to_compact(metrics),
        config: match config {
            Some(c) => Some(json::to_compact(c)),
            None => None,
        },
    };
    let ghost shown = row@;
    history.runs.push(row);
    proof {
        assert(history@ =~= before.push(shown));
        assert forall|i: int, j: int| 0 <= i < j < history@.len() implies (
        #[trigger] history@[i]).id < (#[trigger] history@[j]).id by {
            if j == n && i < n - 1 {
                assert(before[i].id < before[n - 1].id);
            }
        }
        assert forall|i: int| 0 <= i < history@.len() implies (#[trigger] history@[i]).id >= 1 by {
            if i < n {
                assert(before[i].id >= 1);
            } else if n > 0 {
                assert(before[n - 1].id >= 1);
            }
        }
    }
    Some(id)
}

/// What the metrics of a row are, once they have been read: nothing if they are no JSON.
pub open spec fn metrics_value(value: Result<JsonView, Seq<char>>) -> JsonView {
    match value {
        Ok(v) => v,
        Err(_) => JsonView::Null,
    }
}

/// What the metrics of a row are, once they have been read.
pub fn read_metrics(value: Result<Json, String>) -> (r: Json)
    ensures
        r.tree() == metrics_value(
            match value {
                Ok(j) => Ok(j.tree()),
                Err(e) => Err(e@),
            },
        ),
{
    match value {
        Ok(v) => v,
        Err(_) => Json::Null,
    }
}

/// The run of a row.
pub open spec fn historic(row: RowView) -> HistoricView {
    HistoricView {
        id: row.id,
        git_commit: row.git_commit,
        git_dirty: row.git_dirty,
        timestamp: row.timestamp,
        dataset: row.dataset,
        language: row.language,
        metrics: metrics_value(json::parsed(row.metrics)),
    }
}

/// The run of a row.
pub fn row_to_historic_run(row: &RunRow) -> (r: HistoricRun)
    ensures
        r@ == historic(row@),
{
    HistoricRun {
        id: row.id,
        git_commit: row.git_commit.clone(),
        git_dirty: row.git_dirty,
        timestamp: row.timestamp.clone(),
        dataset: row.dataset.clone(),
        language: row.language.clone(),
        metrics: read_metrics(json::parse(row.metrics.as_str())),
    }
}

/// Whether a row is a run of the scorer for a dataset, or any if none is named.
pub open spec fn is_run_for(row: RowView, dataset: Option<Seq<char>>) -> bool {
    row.layer == "relevance"@ && (dataset is None || row.dataset == dataset->0)
}

/// Whether the commit of a row begins as asked for.
pub open spec fn is_at(row: RowView, commit: Option<Seq<char>>) -> bool {
    commit is None || queries::like(commit->0 + "%"@, row.git_commit)
}

/// Whether a row is a run of the scorer for a dataset, or any if none is named.
fn test_run_for(row: &RunRow, dataset: Option<&str>) -> (r: bool)
    ensures
        r == is_run_for(row@, json::opt_str(dataset)),
{
    text::same(row.layer.as_str(), "relevance") && match dataset {
        Some(d) => text::same(row.dataset.as_str(), d),
        None => true,
    }
}

/// Whether a row is the most recent run for a dataset at a commit.
pub open spec fn is_latest(
    runs: Seq<RowView>,
    i: int,
    dataset: Seq<char>,
    commit: Option<Seq<char>>,
) -> bool {
    &&& 0 <= i < runs.len()
    &&& is_run_for(runs[i], Some(dataset)) && is_at(runs[i], commit)
    &&& forall|j: int|
        i < j < runs.len() ==> !(is_run_for(#[trigger] runs[j], Some(dataset)) && is_at(
            runs[j],
            commit,
        ))
}

/// The most recent run for a dataset, at a commit that begins as asked for.
pub fn get_run(history: &History, dataset: &str, commit: Option<&str>) -> (r: Option<HistoricRun>)
    ensures
        match r {
            Some(run) => exists|i: int| #[trigger]
                is_latest(history@, i, dataset@, json::opt_str(commit)) && run@ == historic(
                    history@[i],
                ),
            None => forall|i: int|
                0 <= i < history@.len() ==> !(is_run_for(
                    #[trigger] history@[i],
                    Some(dataset@),
                ) && is_at(history@[i], json::opt_str(commit))),
        },
{
    let ghost all = history@;
    let mut i: usize = history.runs.len();
    while i > 0
        invariant
            all == history@,
            i <= all.len(),
            all.len() == history.runs@.len(),
            forall|j: int|
                i <= j < all.len() ==> !(is_run_for(#[trigger] all[j], Some(dataset@)) && is_at(
                    all[j],
                    json::opt_str(commit),
                )),
        decreases i,
    {
        i -= 1;
        let row = &history.runs[i];
        assert(all[i as int] == row@);
        let at = match commit {
            Some(c) => {
                let pattern = c.to_string().concat("%");
                queries::is_like(pattern.as_str(), row.git_commit.as_str())
            },
            None => true,
        };
        if at && test_run_for(row, Some(dataset)) {
            assert(is_latest(all, i as int, dataset@, json::opt_str(commit)));
            return Some(row_to_historic_run(row));
        }
    }
    None
}

/// The runs for a dataset, or all if none is named, the most recent first.
pub open spec fn recent_runs(runs: Seq<RowView>, dataset: Option<Seq<char>>) -> Seq<HistoricView>
    decreases runs.len(),
{
    if runs.len() == 0 {
        Seq::empty()
    } else if is_run_for(runs.last(), dataset) {
        seq![historic(runs.last())] + recent_runs(runs.drop_last(), dataset)
    } else {
        recent_runs(runs.drop_last(), dataset)
    }
}

/// The runs for a dataset, or all if none is named, the most recent first and at most `limit`.
pub fn list_runs(history: &History, dataset: Option<&str>, limit: usize) -> (r: Vec<HistoricRun>)
    ensures
        historic_views(r@) == queries::first(
            recent_runs(history@, json::opt_str(dataset)),
            limit as nat,
        ),
{
    let ghost all = history@;
    let ghost wanted = recent_runs(all, json::opt_str(dataset));
    let mut out: Vec<HistoricRun> = Vec::new();
    let mut i: usize = history.runs.len();
    proof {
        assert(all.take(all.len() as int) =~= all);
        assert(historic_views(out@) =~= Seq::<HistoricView>::empty());
        assert(historic_views(out@) + wanted =~= wanted);
    }
    while i > 0 && out.len() < limit
        invariant
            all == history@,
            all.len() == history.runs@.len(),
            i <= all.len(),
            out@.len() <= limit,
            wanted == recent_runs(all, json::opt_str(dataset)),
            historic_views(out@) + recent_runs(all.take(i as int), json::opt_str(dataset))
                == wanted,
        decreases i,
    {
        let ghost before = historic_views(out@);
        let ghost rest = recent_runs(all.take(i - 1), json::opt_str(dataset));
        let row = &history.runs[i - 1];
        proof {
            assert(all[i - 1] == row@);
            assert(all.take(i as int).drop_last() =~= all.take(i - 1));
            assert(all.take(i as int).last() == row@);
        }
        if test_run_for(row, dataset) {
            let run = row_to_historic_run(row);
            let ghost shown = run@;
            out.push(run);
            proof {
                assert(historic_views(out@) =~= before.push(shown));
                assert(before.push(shown) + rest =~= before + (seq![shown] + rest));
            }
        }
        i -= 1;
    }
    proof {
        assert(historic_views(out@).len() == out@.len());
        if i == 0 {
            assert(all.take(0) =~= Seq::<RowView>::empty());
            assert(historic_views(out@) =~= wanted);
        }
        assert(historic_views(out@) =~= queries::first(wanted, limit as nat));
    }
    out
}

/// The run of the scorer that was kept last for a dataset is the most recent one, and stands first
/// in the list.
pub proof fn law_saved_run_found(runs: Seq<RowView>, row: RowView)
    requires
        row.layer == "relevance"@,
    ensures
        is_latest(runs.push(row), runs.len() as int, row.dataset, None),
        recent_runs(runs.push(row), Some(row.dataset)).len() > 0,
        recent_runs(runs.push(row), Some(row.dataset))[0] == historic(row),
{
    assert(runs.push(row).last() == row);
}

/// The metrics of the run that was kept last are read back as they were, where the text of their
/// JSON is read as what it was written for. (Numbers with a fraction may lose their last digit
/// there.)
pub proof fn law_metrics_read_back(runs: Seq<RowView>, row: RowView, metrics: JsonView)
    requires
        row.layer == "relevance"@,
        row.metrics == json::compact(metrics),
        json::parsed(json::compact(metrics)) == Ok::<JsonView, Seq<char>>(metrics),
    ensures
        recent_runs(runs.push(row), Some(row.dataset)).len() > 0,
        recent_runs(runs.push(row), Some(row.dataset))[0].metrics == metrics,
{
    law_saved_run_found(runs, row);
}

/// A run that is kept leaves the runs of other datasets as they were.
pub proof fn law_other_runs_stay(runs: Seq<RowView>, row: RowView, dataset: Seq<char>)
    requires
        row.dataset != dataset,
    ensures
        recent_runs(runs.push(row), Some(dataset)) == recent_runs(runs, Some(dataset)),
{
    assert(runs.push(row).drop_last() =~= runs);
}

/// The runs that are shown are all of the relevance measurements, and of the dataset where one is
/// asked for, the latest first.
pub proof fn law_recent_runs(runs: Seq<RowView>, dataset: Option<Seq<char>>)
    ensures
        recent_runs(runs, dataset) == runs.filter(
            |r: RowView| r.layer == "relevance"@ && (dataset is None || r.dataset == dataset->0),
        ).map_values(|r: RowView| historic(r)).reverse(),
    decreases runs.len(),
{
    reveal(Seq::filter);
    let keep = |r: RowView|
        r.layer == "relevance"@ && (dataset is None || r.dataset == dataset->0);
    let show = |r: RowView| historic(r);
    if runs.len() > 0 {
        let rest = runs.drop_last();
        law_recent_runs(rest, dataset);
        let before = rest.filter(keep);
        if keep(runs.last()) {
            assert(before.push(runs.last()).map_values(show).reverse() =~= seq![show(runs.last())]
                + before.map_values(show).reverse());
        }
    }
    assert(recent_runs(runs, dataset) =~= runs.filter(keep).map_values(show).reverse());
}

/// A run that is shown is the one that was kept: by its number, its commit, its time, its dataset,
/// and what its measures are read as.
pub proof fn law_historic(row: RowView)
    ensures
        historic(row).id == row.id,
        historic(row).git_commit == row.git_commit,
        historic(row).git_dirty == row.git_dirty,
        historic(row).timestamp == row.timestamp,
        historic(row).dataset == row.dataset,
        historic(row).language == row.language,
        json::parsed(row.metrics) matches Ok(v) ==> historic(row).metrics == v,
{
}

/// The run that is looked for is of the relevance measurements, of the dataset, and of the commit
/// where one is asked for; and there is none later.
pub proof fn law_latest(
    runs: Seq<RowView>,
    i: int,
    j: int,
    dataset: Seq<char>,
    commit: Option<Seq<char>>,
)
    requires
        is_latest(runs, i, dataset, commit),
        i < j < runs.len(),
        runs[j].layer == "relevance"@,
        runs[j].dataset == dataset,
    ensures
        runs[i].layer == "relevance"@,
        runs[i].dataset == dataset,
        commit is Some,
        !queries::like(commit->0 + "%"@, runs[j].git_commit),
        queries::like(commit->0 + "%"@, runs[i].git_commit),
{
    assert(!(is_run_for(runs[j], Some(dataset)) && is_at(runs[j], commit)));
}

}
