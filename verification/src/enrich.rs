//! Summaries of files: what is asked for, what is shown, and what is kept.
use vstd::prelude::*;

use crate::api;
use crate::api::{ApiError, EnrichmentRequest, EnrichmentResult, Provider, Surroundings};
use crate::db;
use crate::db::{FileView, Index, IndexError, IndexView};
use crate::json;
use crate::json::{Json, JsonView};
use crate::lists;
use crate::output::{Output, OutputView};
use crate::queries;
use crate::queries::{FileWithExports, ListedFile};
use crate::text;

verus! {

/// What was asked for.
pub struct EnrichOpts<'a> {
    pub list: bool,
    pub set: Option<&'a str>,
    pub summary: Option<&'a str>,
    pub when_to_use: Option<&'a str>,
    pub clear: Option<&'a str>,
    pub clear_all: bool,
    pub stats: bool,
    pub api: bool,
    pub api_key: Option<&'a str>,
    pub provider: &'a str,
    pub model: Option<&'a str>,
    pub top: Option<usize>,
    pub force: bool,
    pub dry_run: bool,
    pub concurrency: usize,
    pub json: bool,
    pub if_available: bool,
}

/// Why nothing was done.
#[derive(Debug)]
pub enum EnrichError {
    SummaryMissing,
    WhenToUseMissing,
    Index(IndexError),
    Api(ApiError),
}

impl EnrichError {
    /// The text of the error.
    pub open spec fn message_text(&self) -> Seq<char> {
        match self {
            EnrichError::SummaryMissing => "--summary is required with --set"@,
            EnrichError::WhenToUseMissing => "--when-to-use is required with --set"@,
            EnrichError::Index(e) => e.message_text(),
            EnrichError::Api(e) => e.message_text(),
        }
    }

    /// The error in words.
    pub fn message(&self) -> (r: String)
        ensures
            r@ == self.message_text(),
    {
        match self {
            EnrichError::SummaryMissing => "--summary is required with --set".to_string(),
            EnrichError::WhenToUseMissing => "--when-to-use is required with --set".to_string(),
            EnrichError::Index(e) => e.message(),
            EnrichError::Api(e) => e.message(),
        }
    }
}

// ---------------------------------------------------------------------------------------------
// The command
// ---------------------------------------------------------------------------------------------

/// What remains to be done for a command.
#[derive(Debug)]
pub enum EnrichStep {
    /// Nothing.
    Silent,
    /// This is to be said.
    Said(Output),
    /// The counts are to be shown.
    ShowStats,
    /// The files without a summary are to be shown.
    ShowList,
    /// A service is to be asked.
    Ask(Provider),
}

/// What remains to be done for a command.
#[verifier::ext_equal]
pub enum EnrichStepView {
    Silent,
    Said(OutputView),
    ShowStats,
    ShowList,
    Ask { name: Seq<char>, settings: (Seq<char>, Seq<char>) },
}

impl View for EnrichStep {
    type V = EnrichStepView;

    open spec fn view(&self) -> EnrichStepView {
        match self {
            EnrichStep::Silent => EnrichStepView::Silent,
            EnrichStep::Said(o) => EnrichStepView::Said(o@),
            EnrichStep::ShowStats => EnrichStepView::ShowStats,
            EnrichStep::ShowList => EnrichStepView::ShowList,
            EnrichStep::Ask(p) => EnrichStepView::Ask {
                name: p.name_text(),
                settings: p.settings(),
            },
        }
    }
}

/// The service that was asked for.
pub open spec fn wanted_provider(opts: EnrichOpts, held: Surroundings) -> Result<
    (Seq<char>, (Seq<char>, Seq<char>)),
    Seq<char>,
> {
    api::provider_for(
        opts.provider@,
        json::opt_str(opts.api_key),
        json::opt_str(opts.model),
        held,
    )
}

/// Whether there is nothing to do because a service is to be asked only where there is one.
pub open spec fn is_skipped(opts: EnrichOpts, held: Surroundings) -> bool {
    opts.api && opts.if_available && wanted_provider(opts, held) is Err
}

/// The index after a command. The first of these that was asked for is done: the counts, to clear
/// all, to clear one, to set one.
pub open spec fn index_after(v: IndexView, opts: EnrichOpts, held: Surroundings, now: i64) -> IndexView {
    if is_skipped(opts, held) || opts.stats {
        v
    } else if opts.clear_all {
        IndexView { files: db::all_plain(v.files), ..v }
    } else if opts.clear is Some {
        db::without_enrichment(v, opts.clear->0@)
    } else if opts.set is Some && opts.summary is Some && opts.when_to_use is Some {
        db::with_enrichment(v, opts.set->0@, opts.summary->0@, opts.when_to_use->0@, now)
    } else {
        v
    }
}

/// What is told of one file, if the index holds it.
pub open spec fn told(v: IndexView, note: Seq<char>, path: Seq<char>) -> Result<
    EnrichStepView,
    Seq<char>,
> {
    if db::has_path(v.files, path) {
        Ok(EnrichStepView::Said(OutputView::Stderr(note + path + "\n"@)))
    } else {
        Err("File not found in index: "@ + path)
    }
}

/// What remains to be done for a command, or why nothing was done.
pub open spec fn step_for(v: IndexView, opts: EnrichOpts, held: Surroundings) -> Result<
    EnrichStepView,
    Seq<char>,
> {
    if is_skipped(opts, held) {
        Ok(EnrichStepView::Silent)
    } else if opts.stats {
        Ok(EnrichStepView::ShowStats)
    } else if opts.clear_all {
        Ok(
            EnrichStepView::Said(
                OutputView::Stderr(
                    "codemap: cleared enrichment for "@ + text::decimal(
                        db::count_enriched(v.files),
                    ) + " files\n"@,
                ),
            ),
        )
    } else if opts.clear is Some {
        told(v, "codemap: cleared enrichment for "@, opts.clear->0@)
    } else if opts.set is Some {
        if opts.summary is None {
            Err("--summary is required with --set"@)
        } else if opts.when_to_use is None {
            Err("--when-to-use is required with --set"@)
        } else {
            told(v, "codemap: enriched "@, opts.set->0@)
        }
    } else if opts.list {
        Ok(EnrichStepView::ShowList)
    } else if opts.api {
        match wanted_provider(opts, held) {
            Ok((name, settings)) => Ok(EnrichStepView::Ask { name, settings }),
            Err(e) => Err(e),
        }
    } else {
        Ok(EnrichStepView::ShowStats)
    }
}

/// What came of a command.
pub open spec fn step_view(r: Result<EnrichStep, EnrichError>) -> Result<
    EnrichStepView,
    Seq<char>,
> {
    match r {
        Ok(step) => Ok(step@),
        Err(e) => Err(e.message_text()),
    }
}

/// A note on one file.
fn note(what: &str, path: &str) -> (r: EnrichStep)
    ensures
        r@ == EnrichStepView::Said(OutputView::Stderr(what@ + path@ + "\n"@)),
{
    EnrichStep::Said(Output::Stderr(what.to_string().concat(path).concat("\n")))
}

/// Does what was asked for, as far as it needs nothing from outside.
pub fn run_enrich(index: &mut Index, opts: &EnrichOpts<'_>, held: &Surroundings, now: i64) -> (r: Result<
    EnrichStep,
    EnrichError,
>)
    requires
        old(index).wf(),
    ensures
        final(index).wf(),
        final(index)@ == index_after(old(index)@, *opts, *held, now),
        step_view(r) == step_for(old(index)@, *opts, *held),
{
    let provider = api::resolve_provider(opts.provider, opts.api_key, opts.model, held);
    if opts.api && opts.if_available && provider.is_err() {
        return Ok(EnrichStep::Silent);
    }
    if opts.stats {
        return Ok(EnrichStep::ShowStats);
    }
    if opts.clear_all {
        let count: usize = db::clear_all_enrichments(index);
        let text = "codemap: cleared enrichment for ".to_string().concat(
            text::decimal_of(count as u64).as_str(),
        ).concat(" files\n");
        return Ok(EnrichStep::Said(Output::Stderr(text)));
    }
    if let Some(path) = opts.clear {
        return match db::clear_enrichment(index, path) {
            Ok(_) => Ok(note("codemap: cleared enrichment for ", path)),
            Err(e) => Err(EnrichError::Index(e)),
        };
    }
    if let Some(path) = opts.set {
        return match opts.summary {
            None => Err(EnrichError::SummaryMissing),
            Some(summary) => match opts.when_to_use {
                None => Err(EnrichError::WhenToUseMissing),
                Some(when_to_use) => match db::set_enrichment(
                    index,
                    path,
                    summary,
                    when_to_use,
                    now,
                ) {
                    Ok(_) => Ok(note("codemap: enriched ", path)),
                    Err(e) => Err(EnrichError::Index(e)),
                },
            },
        };
    }
    if opts.list {
        return Ok(EnrichStep::ShowList);
    }
    if opts.api {
        return match provider {
            Ok(p) => Ok(EnrichStep::Ask(p)),
            Err(e) => Err(EnrichError::Api(e)),
        };
    }
    Ok(EnrichStep::ShowStats)
}

// ---------------------------------------------------------------------------------------------
// Counts
// ---------------------------------------------------------------------------------------------

/// The counts as an object.
pub open spec fn stats_object(total: u64, enriched: u64) -> JsonView {
    let object = JsonView::Object(Seq::empty());
    let object = json::with_member(object, "total_files"@, json::whole_view(total));
    let object = json::with_member(object, "enriched_files"@, json::whole_view(enriched));
    json::with_member(object, "unenriched_files"@, json::whole_view((total - enriched) as u64))
}

/// The counts in words; `percent` is the share of the files with a summary.
pub open spec fn stats_text(total: nat, enriched: nat, percent: Seq<char>) -> Seq<char> {
    "Enrichment: "@ + text::decimal(enriched) + "/"@ + text::decimal(total) + " files ("@ + percent
        + "%)\n"@ + (if total > enriched {
        text::decimal((total - enriched) as nat)
            + " files need enrichment. Run `codemap enrich --api` or `codemap enrich --list`.\n"@
    } else {
        Seq::empty()
    })
}

/// The first line of the counts.
fn stats_line(total: u64, enriched: u64, percent: &str) -> (r: String)
    ensures
        r@ == "Enrichment: "@ + text::decimal(enriched as nat) + "/"@ + text::decimal(total as nat)
            + " files ("@ + percent@ + "%)\n"@,
{
    "Enrichment: ".to_string().concat(text::decimal_of(enriched).as_str()).concat("/").concat(
        text::decimal_of(total).as_str(),
    ).concat(" files (").concat(percent).concat("%)\n")
}

/// The counts of the files with and without a summary; `percent` is the share of the files with
/// one, without digits after the point.
pub fn print_stats(index: &Index, percent: &str, as_json: bool) -> (r: String)
    requires
        index.wf(),
    ensures
        ({
            let total = index@.files.len();
            let enriched = db::count_enriched(index@.files);
            r@ == (if as_json {
                json::pretty(stats_object(total as u64, enriched as u64)) + "\n"@
            } else {
                stats_text(total, enriched, percent@)
            })
        }),
{
    let stats = db::get_enrichment_stats(index);
    proof {
        db::lemma_count_enriched(index@.files);
    }
    let total: u64 = stats.total_files as u64;
    let enriched: u64 = stats.enriched_files as u64;
    if as_json {
        let object = json::add_member(
            json::empty_object(),
            "total_files",
            json::whole_value(total),
        );
        let object = json::add_member(object, "enriched_files", json::whole_value(enriched));
        let object = json::add_member(
            object,
            "unenriched_files",
            json::whole_value(total - enriched),
        );
        return json::to_pretty(&object).concat("\n");
    }
    let mut out = stats_line(total, enriched, percent);
    if total > enriched {
        let rest = text::decimal_of(total - enriched).concat(
            " files need enrichment. Run `codemap enrich --api` or `codemap enrich --list`.\n",
        );
        out.append(rest.as_str());
        assert(out@ =~= stats_text(total as nat, enriched as nat, percent@));
    } else {
        assert(out@ =~= stats_text(total as nat, enriched as nat, percent@));
    }
    out
}

// ---------------------------------------------------------------------------------------------
// The list
// ---------------------------------------------------------------------------------------------

/// How many exports of a file are shown.
pub const SHOWN_EXPORTS: usize = 5;

/// The line on the exports of a file, if there are any.
pub open spec fn exports_line(exports: Seq<Seq<char>>) -> Seq<char> {
    let shown = queries::first(exports, SHOWN_EXPORTS as nat);
    if exports.len() == 0 {
        Seq::empty()
    } else {
        "  exports: "@ + text::join(shown, ", "@) + (if exports.len() > SHOWN_EXPORTS {
            ", ... +"@ + text::decimal((exports.len() - SHOWN_EXPORTS) as nat)
        } else {
            Seq::empty()
        }) + "\n"@
    }
}

/// The lines on some files.
pub open spec fn list_lines(files: Seq<ListedFile>) -> Seq<char>
    decreases files.len(),
{
    if files.len() == 0 {
        Seq::empty()
    } else {
        list_lines(files.drop_last()) + files.last().path + "\n"@ + exports_line(
            files.last().exports,
        )
    }
}

/// The objects of some files, given their ranks in writing.
pub open spec fn list_objects(files: Seq<ListedFile>, ranks: Seq<Seq<char>>) -> Seq<JsonView> {
    Seq::new(
        files.len(),
        |i: int|
            {
                let object = JsonView::Object(Seq::empty());
                let object = json::with_member(object, "path"@, JsonView::Text(files[i].path));
                let object = json::with_member(
                    object,
                    "rank"@,
                    JsonView::Number { whole: None, text: ranks[i] },
                );
                json::with_member(
                    object,
                    "exports"@,
                    JsonView::Array(json::text_views(files[i].exports)),
                )
            },
    )
}

/// The list of the files without a summary.
pub open spec fn list_text(v: IndexView) -> Seq<char> {
    let files = queries::listing(v, true);
    "Files missing enrichment ("@ + text::decimal(files.len()) + " of "@ + text::decimal(
        v.files.len(),
    ) + "):\n\n"@ + list_lines(files)
}

/// The line on the exports of a file, if there are any.
fn render_exports(exports: &Vec<String>) -> (r: String)
    ensures
        r@ == exports_line(text::views(exports@)),
{
    assert(text::views(exports@).len() == exports@.len());
    if exports.len() == 0 {
        return String::new();
    }
    let shown: usize = if exports.len() > SHOWN_EXPORTS {
        SHOWN_EXPORTS
    } else {
        exports.len()
    };
    let mut out = "  exports: ".to_string();
    out.append(text::join_first(exports, shown, ", ").as_str());
    proof {
        assert(queries::first(text::views(exports@), SHOWN_EXPORTS as nat) =~= text::views(
            exports@,
        ).take(shown as int));
    }
    let suffix = if exports.len() > SHOWN_EXPORTS {
        ", ... +".to_string().concat(
            text::decimal_of((exports.len() - SHOWN_EXPORTS) as u64).as_str(),
        )
    } else {
        String::new()
    };
    out.append(suffix.as_str());
    out.append("\n");
    out
}

/// The lines on some files.
fn render_list(files: &Vec<FileWithExports>, Ghost(listed): Ghost<Seq<ListedFile>>) -> (r: String)
    requires
        files@.len() == listed.len(),
        forall|k: int| 0 <= k < files@.len() ==> queries::lists_file(#[trigger] files@[k], listed[k]),
    ensures
        r@ == list_lines(listed),
{
    let mut out = String::new();
    assert(listed.take(0) =~= Seq::<ListedFile>::empty());
    assert(out@ =~= list_lines(listed.take(0)));
    for i in 0..files.len()
        invariant
            files@.len() == listed.len(),
            forall|k: int|
                0 <= k < files@.len() ==> queries::lists_file(#[trigger] files@[k], listed[k]),
            out@ == list_lines(listed.take(i as int)),
    {
        proof {
            assert(listed.take(i + 1).drop_last() =~= listed.take(i as int));
            assert(listed.take(i + 1).last() == listed[i as int]);
            assert(queries::lists_file(files@[i as int], listed[i as int]));
        }
        out.append(files[i].path.as_str());
        out.append("\n");
        out.append(render_exports(&files[i].exports).as_str());
    }
    assert(listed.take(listed.len() as int) =~= listed);
    out
}

/// The objects of some files, given their ranks in writing.
fn render_objects(
    files: &Vec<FileWithExports>,
    ranks: &Vec<String>,
    Ghost(listed): Ghost<Seq<ListedFile>>,
) -> (r: Vec<Json>)
    requires
        files@.len() == listed.len(),
        files@.len() == ranks@.len(),
        forall|k: int| 0 <= k < files@.len() ==> queries::lists_file(#[trigger] files@[k], listed[k]),
    ensures
        json::trees(r@) == list_objects(listed, text::views(ranks@)),
{
    let ghost all = list_objects(listed, text::views(ranks@));
    let mut out: Vec<Json> = Vec::new();
    assert(json::trees(out@) =~= all.take(0));
    for i in 0..files.len()
        invariant
            all == list_objects(listed, text::views(ranks@)),
            files@.len() == listed.len(),
            files@.len() == ranks@.len(),
            forall|k: int|
                0 <= k < files@.len() ==> queries::lists_file(#[trigger] files@[k], listed[k]),
            json::trees(out@) == all.take(i as int),
    {
        assert(queries::lists_file(files@[i as int], listed[i as int]));
        let object = json::add_member(
            json::empty_object(),
            "path",
            json::text_value(files[i].path.as_str()),
        );
        let object = json::add_member(
            object,
            "rank",
            Json::Number { whole: None, text: ranks[i].clone() },
        );
        let object = json::add_member(object, "exports", json::text_array(&files[i].exports));
        json::push_value(&mut out, object);
        assert(json::trees(out@) =~= all.take(i + 1));
    }
    assert(all.take(files@.len() as int) =~= all);
    out
}

/// The list of the files without a summary, given their ranks in writing.
pub fn print_list(index: &Index, ranks: &Vec<String>, as_json: bool) -> (r: String)
    requires
        index.wf(),
        ranks@.len() == queries::listing(index@, true).len(),
    ensures
        r@ == (if as_json {
            json::pretty(
                JsonView::Array(
                    list_objects(queries::listing(index@, true), text::views(ranks@)),
                ),
            ) + "\n"@
        } else {
            list_text(index@)
        }),
{
    let files = queries::get_files_with_exports(index, true);
    let ghost listed = queries::listing(index@, true);
    if as_json {
        let items = render_objects(&files, ranks, Ghost(listed));
        return json::to_pretty(&json::array_value(items)).concat("\n");
    }
    let mut out = "Files missing enrichment (".to_string();
    out.append(text::decimal_of(files.len() as u64).as_str());
    out.append(" of ");
    assert(index@.files.len() == index.files@.len());
    out.append(text::decimal_of(index.files.len() as u64).as_str());
    out.append("):\n\n");
    out.append(render_list(&files, Ghost(listed)).as_str());
    out
}

// ---------------------------------------------------------------------------------------------
// Asking a service
// ---------------------------------------------------------------------------------------------

/// The files that a service is asked about: those without a summary, or all, and of them the first
/// `top` where that was asked for.
pub open spec fn files_to_ask(v: IndexView, force: bool, top: Option<usize>) -> Seq<ListedFile> {
    let files = queries::listing(v, !force);
    match top {
        Some(n) => queries::first(files, n as nat),
        None => files,
    }
}

/// The files that a service is asked about.
pub fn files_to_enrich(index: &Index, force: bool, top: Option<usize>) -> (r: Vec<FileWithExports>)
    requires
        index.wf(),
    ensures
        r@.len() == files_to_ask(index@, force, top).len(),
        forall|k: int|
            0 <= k < r@.len() ==> queries::lists_file(
                #[trigger] r@[k],
                files_to_ask(index@, force, top)[k],
            ),
{
    let mut files = queries::get_files_with_exports(index, !force);
    let ghost all = files@;
    if let Some(n) = top {
        if n < files.len() {
            files.truncate(n);
            assert(files@ =~= all.take(n as int));
        }
    }
    files
}

/// What is told when there is no file to ask about.
pub const NOTHING_TO_ENRICH: &'static str = "codemap: all files are already enriched\n";

/// What a service is told of a file.
pub fn request_for(file: &FileWithExports) -> (r: EnrichmentRequest)
    ensures
        r.file_path@ == file.path@,
        r.language@ == api::language_of(file.path@),
        r.imports@.len() == 0,
        text::views(r.exports@) == text::views(file.exports@),
{
    EnrichmentRequest {
        file_path: file.path.clone(),
        language: api::detect_language(file.path.as_str()).to_string(),
        imports: Vec::new(),
        exports: text::copy_all(&file.exports),
    }
}

/// What is told before a service is asked.
pub open spec fn start_text(total: nat, provider: Seq<char>, concurrency: nat) -> Seq<char> {
    "codemap: enriching "@ + text::decimal(total) + " files via "@ + provider + " (concurrency: "@
        + text::decimal(concurrency) + ")...\n"@
}

/// What is told before a service is asked.
pub fn start_line(total: usize, provider: &str, concurrency: usize) -> (r: String)
    ensures
        r@ == start_text(total as nat, provider@, concurrency as nat),
{
    "codemap: enriching ".to_string().concat(text::decimal_of(total as u64).as_str()).concat(
        " files via ",
    ).concat(provider).concat(" (concurrency: ").concat(
        text::decimal_of(concurrency as u64).as_str(),
    ).concat(")...\n")
}

/// What is told when `done` of `total` files have been asked about: something after every tenth
/// file and after the last.
pub open spec fn progress_text(done: nat, total: nat) -> Option<Seq<char>> {
    if done % 10 == 0 || done == total {
        Some(
            "codemap: enriched "@ + text::decimal(done) + "/"@ + text::decimal(total) + " files ("@
                + text::decimal(done * 100 / total) + "%)...\n"@,
        )
    } else {
        None
    }
}

/// What is told when `done` of `total` files have been asked about.
pub fn progress_line(done: usize, total: usize) -> (r: Option<String>)
    requires
        done <= total,
        total > 0,
    ensures
        text::opt_view(r) == progress_text(done as nat, total as nat),
{
    if done % 10 == 0 || done == total {
        let part: u128 = done as u128 * 100;
        let percent: u128 = part / total as u128;
        proof {
            assert(done * 100 / (total as int) <= 100) by (nonlinear_arith)
                requires
                    done <= total,
                    total > 0,
            ;
        }
        let text = "codemap: enriched ".to_string().concat(
            text::decimal_of(done as u64).as_str(),
        ).concat("/").concat(text::decimal_of(total as u64).as_str()).concat(" files (").concat(
            text::decimal_of(percent as u64).as_str(),
        ).concat("%)...\n");
        Some(text)
    } else {
        None
    }
}

/// What came of the requests, each with its path.
pub open spec fn result_views(
    results: Seq<(String, Result<EnrichmentResult, ApiError>)>,
) -> Seq<(Seq<char>, Result<(Seq<char>, Seq<char>), Seq<char>>)> {
    results.map_values(
        |r: (String, Result<EnrichmentResult, ApiError>)| (r.0@, api::outcome(r.1)),
    )
}

/// The index with the summaries that came.
pub open spec fn with_results(
    v: IndexView,
    results: Seq<(Seq<char>, Result<(Seq<char>, Seq<char>), Seq<char>>)>,
    now: i64,
) -> IndexView
    decreases results.len(),
{
    if results.len() == 0 {
        v
    } else {
        let before = with_results(v, results.drop_last(), now);
        match results.last().1 {
            Ok((summary, when_to_use)) => db::with_enrichment(
                before,
                results.last().0,
                summary,
                when_to_use,
                now,
            ),
            Err(_) => before,
        }
    }
}

/// How many of the requests came to something.
pub open spec fn successes(
    results: Seq<(Seq<char>, Result<(Seq<char>, Seq<char>), Seq<char>>)>,
) -> nat
    decreases results.len(),
{
    if results.len() == 0 {
        0
    } else {
        successes(results.drop_last()) + (if results.last().1 is Ok {
            1nat
        } else {
            0nat
        })
    }
}

/// Whether a result is for a file that the index does not hold.
pub open spec fn is_stray(
    files: Seq<FileView>,
    result: (Seq<char>, Result<(Seq<char>, Seq<char>), Seq<char>>),
) -> bool {
    result.1 is Ok && !db::has_path(files, result.0)
}

/// The path of the first result for a file that the index does not hold.
pub open spec fn first_stray(
    files: Seq<FileView>,
    results: Seq<(Seq<char>, Result<(Seq<char>, Seq<char>), Seq<char>>)>,
) -> Option<Seq<char>>
    decreases results.len(),
{
    if results.len() == 0 {
        None
    } else if is_stray(files, results[0]) {
        Some(results[0].0)
    } else {
        first_stray(files, results.drop_first())
    }
}

/// A file that the index holds stays in it when another, or the same, gets a summary.
proof fn lemma_paths_stay(
    v: IndexView,
    path: Seq<char>,
    summary: Seq<char>,
    when_to_use: Seq<char>,
    now: i64,
    other: Seq<char>,
)
    ensures
        db::has_path(db::with_enrichment(v, path, summary, when_to_use, now).files, other)
            == db::has_path(v.files, other),
{
    let after = db::with_enrichment(v, path, summary, when_to_use, now);
    if db::has_path(v.files, path) {
        let at = db::at_path(v.files, path);
        assert(v.files[at].path == path);
        assert forall|i: int| 0 <= i < v.files.len() implies #[trigger] after.files[i].path
            == v.files[i].path by {}
        if db::has_path(v.files, other) {
            let k = db::at_path(v.files, other);
            assert(after.files[k].path == other);
        }
        if db::has_path(after.files, other) {
            let k = db::at_path(after.files, other);
            assert(v.files[k].path == other);
        }
    }
}

/// The path of the first result for a file that the index does not hold.
fn find_stray(index: &Index, results: &Vec<(String, Result<EnrichmentResult, ApiError>)>) -> (r:
    Option<String>)
    requires
        index.wf(),
    ensures
        text::opt_view(r) == first_stray(index@.files, result_views(results@)),
        r is None ==> forall|k: int|
            0 <= k < results@.len() ==> !is_stray(
                index@.files,
                #[trigger] result_views(results@)[k],
            ),
{
    let ghost all = result_views(results@);
    assert(all.skip(0) =~= all);
    for i in 0..results.len()
        invariant
            index.wf(),
            all == result_views(results@),
            first_stray(index@.files, all) == first_stray(index@.files, all.skip(i as int)),
            forall|k: int| 0 <= k < i ==> !is_stray(index@.files, #[trigger] all[k]),
    {
        assert(all.skip(i as int)[0] == all[i as int]);
        if results[i].1.is_ok() && db::get_file_id(index, results[i].0.as_str()).is_none() {
            return Some(results[i].0.clone());
        }
        assert(all.skip(i as int).drop_first() =~= all.skip(i + 1));
    }
    assert(all.skip(all.len() as int) =~= Seq::empty());
    None
}

/// Keeps the summaries that came, all of them or, where one is for a file that the index does not
/// hold, none. Returns how many came and how many did not.
pub fn store_results(
    index: &mut Index,
    results: &Vec<(String, Result<EnrichmentResult, ApiError>)>,
    now: i64,
) -> (r: Result<(usize, usize), IndexError>)
    requires
        old(index).wf(),
    ensures
        final(index).wf(),
        match first_stray(old(index)@.files, result_views(results@)) {
            Some(path) => r matches Err(e) && e.message_text() == "File not found in index: "@
                + path && final(index)@ == old(index)@,
            None => r matches Ok((success, failed)) && success == successes(result_views(results@))
                && success + failed == results@.len() && final(index)@ == with_results(
                old(index)@,
                result_views(results@),
                now,
            ),
        },
{
    if let Some(path) = find_stray(index, results) {
        return Err(IndexError::FileNotFound { path });
    }
    let ghost all = result_views(results@);
    let ghost start = index@;
    let mut success: usize = 0;
    assert(all.take(0) =~= Seq::empty());
    for i in 0..results.len()
        invariant
            index.wf(),
            all == result_views(results@),
            index@ == with_results(start, all.take(i as int), now),
            success == successes(all.take(i as int)),
            success <= i,
            forall|path: Seq<char>| #[trigger]
                db::has_path(index@.files, path) == db::has_path(start.files, path),
            forall|k: int| 0 <= k < results@.len() ==> !is_stray(start.files, #[trigger] all[k]),
    {
        let ghost before = index@;
        proof {
            assert(all.take(i + 1).drop_last() =~= all.take(i as int));
            assert(all.take(i + 1).last() == all[i as int]);
            assert(!is_stray(start.files, all[i as int]));
        }
        if let Ok(e) = &results[i].1 {
            let path = results[i].0.as_str();
            let done = db::set_enrichment(
                index,
                path,
                e.summary.as_str(),
                e.when_to_use.as_str(),
                now,
            );
            proof {
                assert(db::has_path(before.files, path@));
                assert forall|other: Seq<char>| #[trigger]
                    db::has_path(index@.files, other) == db::has_path(start.files, other) by {
                    lemma_paths_stay(before, path@, e.summary@, e.when_to_use@, now, other);
                }
            }
            success += 1;
        }
    }
    assert(all.take(all.len() as int) =~= all);
    Ok((success, results.len() - success))
}

/// What is told when all files have been asked about.
pub open spec fn done_text(success: nat, failed: nat) -> Seq<char> {
    "codemap: done — "@ + text::decimal(success) + " enriched, "@ + text::decimal(failed)
        + " failed\n"@
}

/// What is told when all files have been asked about.
pub fn done_line(success: usize, failed: usize) -> (r: String)
    ensures
        r@ == done_text(success as nat, failed as nat),
{
    "codemap: done — ".to_string().concat(text::decimal_of(success as u64).as_str()).concat(
        " enriched, ",
    ).concat(text::decimal_of(failed as u64).as_str()).concat(" failed\n")
}

// ---------------------------------------------------------------------------------------------
// Estimates
// ---------------------------------------------------------------------------------------------

/// The bytes of some exports in a prompt.
pub open spec fn export_bytes(exports: Seq<Seq<char>>) -> nat
    decreases exports.len(),
{
    if exports.len() == 0 {
        0
    } else {
        export_bytes(exports.drop_last()) + text::byte_len(exports.last()) + 4
    }
}

/// About how many bytes a prompt has.
pub open spec fn prompt_bytes(path: Seq<char>, exports: Seq<Seq<char>>) -> nat {
    200 + text::byte_len(path) + export_bytes(exports)
}

/// About how many bytes the prompts for some files have.
pub open spec fn total_bytes(files: Seq<FileWithExports>) -> nat
    decreases files.len(),
{
    if files.len() == 0 {
        0
    } else {
        total_bytes(files.drop_last()) + prompt_bytes(
            files.last().path@,
            text::views(files.last().exports@),
        )
    }
}

/// About how many bytes the prompt for a file has.
pub fn estimate_prompt_chars(file: &FileWithExports) -> (r: u128)
    ensures
        r == text::capped(prompt_bytes(file.path@, text::views(file.exports@))),
{
    let ghost ev = text::views(file.exports@);
    let mut sum: u128 = 200 + text::bytes_in(file.path.as_str()) as u128;
    let ghost head = sum as nat;
    assert(ev.take(0) =~= Seq::<Seq<char>>::empty());
    for i in 0..file.exports.len()
        invariant
            ev == text::views(file.exports@),
            sum == text::capped(head + export_bytes(ev.take(i as int))),
    {
        proof {
            assert(ev.take(i + 1).drop_last() =~= ev.take(i as int));
            assert(ev.take(i + 1).last() == file.exports@[i as int]@);
        }
        let one: u128 = text::bytes_in(file.exports[i].as_str()) as u128 + 4;
        sum = sum.saturating_add(one);
    }
    assert(ev.take(ev.len() as int) =~= ev);
    sum
}

/// About how many bytes the prompts for some files have.
pub fn estimate_total_chars(files: &Vec<FileWithExports>) -> (r: u128)
    ensures
        r == text::capped(total_bytes(files@)),
{
    let mut sum: u128 = 0;
    assert(files@.take(0) =~= Seq::<FileWithExports>::empty());
    for i in 0..files.len()
        invariant
            sum == text::capped(total_bytes(files@.take(i as int))),
    {
        assert(files@.take(i + 1).drop_last() =~= files@.take(i as int));
        sum = sum.saturating_add(estimate_prompt_chars(&files[i]));
    }
    assert(files@.take(files@.len() as int) =~= files@);
    sum
}

/// What a million tokens of a service cost, in cents, and whose price that is.
pub struct Pricing {
    pub input_cents: u64,
    pub output_cents: u64,
    pub label: &'static str,
}

/// The price of a service.
pub fn pricing(provider: &Provider) -> (r: Pricing)
    ensures
        provider is Gemini ==> r.input_cents == 10 && r.output_cents == 40 && r.label@
            == "Gemini Flash pricing"@,
        provider is Anthropic ==> r.input_cents == 100 && r.output_cents == 500 && r.label@
            == "Haiku pricing"@,
{
    match provider {
        Provider::Gemini(_) => Pricing {
            input_cents: 10,
            output_cents: 40,
            label: "Gemini Flash pricing",
        },
        Provider::Anthropic(_) => Pricing {
            input_cents: 100,
            output_cents: 500,
            label: "Haiku pricing",
        },
    }
}

/// The price of a service, in words.
pub open spec fn price_label(provider: Provider) -> Seq<char> {
    match provider {
        Provider::Gemini(_) => "Gemini Flash pricing"@,
        Provider::Anthropic(_) => "Haiku pricing"@,
    }
}

/// The estimate for a service and a number of files.
pub open spec fn estimate_text(
    provider: Provider,
    files: nat,
    input: Seq<char>,
    output: Seq<char>,
    cost: Seq<char>,
) -> Seq<char> {
    "Dry run — "@ + provider.name_text() + " provider, "@ + text::decimal(files) + " files\n"@
        + "Estimated input tokens:  "@ + input + "\n"@ + "Estimated output tokens: "@ + output
        + "\n"@ + "Estimated cost: $"@ + cost + " ("@ + price_label(provider) + ")\n"@
}

/// The estimate for a service and a number of files. `input` and `output` are the numbers of
/// tokens, without digits after the point, and `cost` is the price, with four digits after it.
pub fn dry_run_report(
    provider: &Provider,
    files: usize,
    input: &str,
    output: &str,
    cost: &str,
) -> (r: String)
    ensures
        r@ == estimate_text(*provider, files as nat, input@, output@, cost@),
{
    let price = pricing(provider);
    let mut out = "Dry run — ".to_string();
    out.append(provider.name());
    out.append(" provider, ");
    out.append(text::decimal_of(files as u64).as_str());
    out.append(" files\n");
    out.append("Estimated input tokens:  ");
    out.append(input);
    out.append("\n");
    out.append("Estimated output tokens: ");
    out.append(output);
    out.append("\n");
    out.append("Estimated cost: $");
    out.append(cost);
    out.append(" (");
    out.append(price.label);
    out.append(")\n");
    out
}

// ---------------------------------------------------------------------------------------------
// Laws
// ---------------------------------------------------------------------------------------------

/// A listed file is one of the files, and has no summary where only such files are listed.
proof fn lemma_listed(files: Seq<FileView>, unenriched_only: bool, k: int)
    requires
        0 <= k < queries::listed(files, unenriched_only).len(),
    ensures
        files.contains(queries::listed(files, unenriched_only)[k]),
        unenriched_only ==> queries::listed(files, unenriched_only)[k].summary is None,
{
    let keep = |f: FileView| !unenriched_only || f.summary is None;
    let left = queries::listed(files, unenriched_only);
    assert(left == files.filter(keep));
    assert(left.contains(left[k]));
    files.lemma_filter_pred(keep, k);
    files.lemma_filter_contains_rev(keep, left[k]);
}

/// A file that got a summary is no longer listed among those without one.
pub proof fn law_enriched_leaves_list(
    v: IndexView,
    path: Seq<char>,
    summary: Seq<char>,
    when_to_use: Seq<char>,
    now: i64,
)
    requires
        db::view_wf(v),
        db::has_path(v.files, path),
    ensures
        !db::has_path(
            queries::listed(db::with_enrichment(v, path, summary, when_to_use, now).files, true),
            path,
        ),
{
    let after = db::with_enrichment(v, path, summary, when_to_use, now).files;
    let left = queries::listed(after, true);
    let at = db::at_path(v.files, path);
    assert(v.files[at].path == path);
    if db::has_path(left, path) {
        let k = db::at_path(left, path);
        lemma_listed(after, true, k);
        let i = choose|i: int| 0 <= i < after.len() && after[i] == left[k];
        assert(v.files[i].path == path);
    }
}

/// Every file that is listed has a line with its path, in their order, and behind it one with its
/// exports, where it has any.
pub proof fn law_list_lines(files: Seq<ListedFile>)
    ensures
        list_lines(files) == files.map_values(
            |f: ListedFile| f.path + "\n"@ + exports_line(f.exports),
        ).flatten(),
{
    let part = |f: ListedFile| f.path + "\n"@ + exports_line(f.exports);
    let whole = |s: Seq<ListedFile>| list_lines(s);
    assert forall|s: Seq<ListedFile>| #[trigger]
        whole(s) == (if s.len() == 0 {
            Seq::empty()
        } else {
            whole(s.drop_last()) + part(s.last())
        }) by {
        if s.len() > 0 {
            assert(whole(s) =~= whole(s.drop_last()) + part(s.last()));
        }
    }
    lists::lemma_parts(files, part, whole);
}

/// Up to five exports are all shown; of more, the first five are, and how many others there are.
pub proof fn law_exports_line(exports: Seq<Seq<char>>)
    ensures
        exports.len() == 0 ==> exports_line(exports).len() == 0,
        1 <= exports.len() <= 5 ==> exports_line(exports) == "  exports: "@ + text::join(
            exports,
            ", "@,
        ) + "\n"@,
        exports.len() > 5 ==> exports_line(exports) == "  exports: "@ + text::join(
            exports.take(5),
            ", "@,
        ) + (", ... +"@ + text::decimal((exports.len() - 5) as nat)) + "\n"@,
{
    if 1 <= exports.len() <= 5 {
        let shown = "  exports: "@ + text::join(exports, ", "@);
        assert(shown + Seq::<char>::empty() =~= shown);
    }
}

/// Every file that is listed stands in the JSON, in their order, with its path, its rank and all
/// its exports.
pub proof fn law_list_objects(files: Seq<ListedFile>, ranks: Seq<Seq<char>>, i: int)
    requires
        0 <= i < files.len(),
    ensures
        list_objects(files, ranks).len() == files.len(),
        ({
            let item = list_objects(files, ranks)[i];
            &&& json::field(item, "path"@) == Some(JsonView::Text(files[i].path))
            &&& json::field(item, "rank"@) == Some(
                JsonView::Number { whole: None, text: ranks[i] },
            )
            &&& json::opt_items(json::field(item, "exports"@)) matches Some(exports)
                && exports.len() == files[i].exports.len() && forall|k: int|
                0 <= k < exports.len() ==> (#[trigger] exports[k]) == JsonView::Text(
                    files[i].exports[k],
                )
        }),
{
    reveal_with_fuel(json::member, 5);
    reveal_strlit("path");
    reveal_strlit("rank");
    reveal_strlit("exports");
    assert("path"@[0] == 'p' && "rank"@[0] == 'r' && "exports"@[0] == 'e');
    let members = list_objects(files, ranks)[i]->Object_0;
    assert(members.len() == 3);
    assert(members.drop_first()[0] == members[1]);
    assert(members.drop_first().drop_first()[0] == members[2]);
}

/// Every file that was described has its summary and its advice, from its last description, and the
/// time; every other file is as it was.
pub proof fn law_results_read_back(
    v: IndexView,
    results: Seq<(Seq<char>, Result<(Seq<char>, Seq<char>), Seq<char>>)>,
    now: i64,
    path: Seq<char>,
)
    requires
        db::view_wf(v),
        db::has_path(v.files, path),
    ensures
        db::view_wf(with_results(v, results, now)),
        db::has_path(with_results(v, results, now).files, path),
        with_results(v, results, now).symbols == v.symbols,
        with_results(v, results, now).edges == v.edges,
        ({
            let before = v.files[db::at_path(v.files, path)];
            let files = with_results(v, results, now).files;
            let after = files[db::at_path(files, path)];
            &&& (forall|k: int|
                0 <= k < results.len() ==> (#[trigger] results[k]).0 != path || results[k].1 is Err)
                ==> after == before
            &&& forall|k: int|
                0 <= k < results.len() && (#[trigger] results[k]).0 == path && results[k].1 is Ok
                    && (forall|j: int|
                    k < j < results.len() ==> (#[trigger] results[j]).0 != path || results[j].1
                        is Err) ==> after == (FileView {
                    summary: Some(results[k].1->Ok_0.0),
                    when_to_use: Some(results[k].1->Ok_0.1),
                    enriched_at: Some(now),
                    ..before
                })
        }),
    decreases results.len(),
{
    if results.len() > 0 {
        let rest = results.drop_last();
        law_results_read_back(v, rest, now, path);
        let before = with_results(v, rest, now);
        let last = results.last();
        let n = results.len() - 1;
        assert(results[n] == last);
        if last.1 is Ok {
            let (summary, when_to_use) = last.1->Ok_0;
            lemma_enrichment_wf(before, last.0, summary, when_to_use, now, path);
        }
        let start = v.files[db::at_path(v.files, path)];
        let files = with_results(v, results, now).files;
        let after = files[db::at_path(files, path)];
        if forall|k: int|
            0 <= k < results.len() ==> (#[trigger] results[k]).0 != path || results[k].1 is Err {
            assert forall|k: int| 0 <= k < rest.len() implies (#[trigger] rest[k]).0 != path
                || rest[k].1 is Err by {
                assert(rest[k] == results[k]);
            }
            assert(results[n].0 != path || results[n].1 is Err);
        }
        assert forall|k: int|
            0 <= k < results.len() && (#[trigger] results[k]).0 == path && results[k].1 is Ok && (
            forall|j: int|
                k < j < results.len() ==> (#[trigger] results[j]).0 != path || results[j].1
                    is Err) implies after == (FileView {
            summary: Some(results[k].1->Ok_0.0),
            when_to_use: Some(results[k].1->Ok_0.1),
            enriched_at: Some(now),
            ..start
        }) by {
            if k < n {
                assert(results[n].0 != path || results[n].1 is Err);
                assert(rest[k] == results[k]);
                assert forall|j: int| k < j < rest.len() implies (#[trigger] rest[j]).0 != path
                    || rest[j].1 is Err by {
                    assert(rest[j] == results[j]);
                }
            } else {
                lemma_only_enriched(v, rest, now, path);
            }
        }
    }
}

/// Descriptions change nothing of a file but its summary, its advice and its time.
proof fn lemma_only_enriched(
    v: IndexView,
    results: Seq<(Seq<char>, Result<(Seq<char>, Seq<char>), Seq<char>>)>,
    now: i64,
    path: Seq<char>,
)
    requires
        db::view_wf(v),
        db::has_path(v.files, path),
    ensures
        db::view_wf(with_results(v, results, now)),
        db::has_path(with_results(v, results, now).files, path),
        ({
            let before = v.files[db::at_path(v.files, path)];
            let files = with_results(v, results, now).files;
            let after = files[db::at_path(files, path)];
            after == (FileView {
                summary: after.summary,
                when_to_use: after.when_to_use,
                enriched_at: after.enriched_at,
                ..before
            })
        }),
    decreases results.len(),
{
    if results.len() > 0 {
        let rest = results.drop_last();
        lemma_only_enriched(v, rest, now, path);
        let before = with_results(v, rest, now);
        let last = results.last();
        if last.1 is Ok {
            let (summary, when_to_use) = last.1->Ok_0;
            lemma_enrichment_wf(before, last.0, summary, when_to_use, now, path);
        }
    }
}

/// What a description does to a file.
proof fn lemma_enrichment_wf(
    v: IndexView,
    described: Seq<char>,
    summary: Seq<char>,
    when_to_use: Seq<char>,
    now: i64,
    path: Seq<char>,
)
    requires
        db::view_wf(v),
        db::has_path(v.files, path),
    ensures
        ({
            let after = db::with_enrichment(v, described, summary, when_to_use, now);
            let row = v.files[db::at_path(v.files, path)];
            &&& db::view_wf(after)
            &&& db::has_path(after.files, path)
            &&& after.symbols == v.symbols
            &&& after.edges == v.edges
            &&& after.files[db::at_path(after.files, path)] == (if path == described {
                FileView {
                    summary: Some(summary),
                    when_to_use: Some(when_to_use),
                    enriched_at: Some(now),
                    ..row
                }
            } else {
                row
            })
        }),
{
    let after = db::with_enrichment(v, described, summary, when_to_use, now);
    let p = db::at_path(v.files, path);
    assert(0 <= p < v.files.len() && v.files[p].path == path);
    if db::has_path(v.files, described) {
        let i = db::at_path(v.files, described);
        assert(0 <= i < v.files.len() && v.files[i].path == described);
        assert forall|k: int| 0 <= k < v.files.len() implies (#[trigger] after.files[k]).id
            == v.files[k].id && after.files[k].path == v.files[k].path by {
        }
        assert(db::files_wf(after.files));
        assert forall|id: i64| db::has_id(v.files, id) implies #[trigger] db::has_id(
            after.files,
            id,
        ) by {
            let k = choose|k: int| 0 <= k < v.files.len() && (#[trigger] v.files[k]).id == id;
            assert(after.files[k].id == id);
        }
        assert(after.files[p].path == path);
        db::lemma_at_path(after.files, path, p);
        db::lemma_at_path(v.files, path, p);
    }
}

/// As many files count as described as got a description.
pub proof fn law_successes(
    results: Seq<(Seq<char>, Result<(Seq<char>, Seq<char>), Seq<char>>)>,
)
    ensures
        successes(results) == results.filter(
            |r: (Seq<char>, Result<(Seq<char>, Seq<char>), Seq<char>>)| r.1 is Ok,
        ).len(),
{
    lists::lemma_count(
        results,
        |r: (Seq<char>, Result<(Seq<char>, Seq<char>), Seq<char>>)| r.1 is Ok,
        |s: Seq<(Seq<char>, Result<(Seq<char>, Seq<char>), Seq<char>>)>| successes(s),
    );
}

/// The file that is missed is the first one that was described and that the index does not hold.
pub proof fn law_first_stray(
    files: Seq<FileView>,
    results: Seq<(Seq<char>, Result<(Seq<char>, Seq<char>), Seq<char>>)>,
    k: int,
)
    requires
        0 <= k <= results.len(),
        forall|j: int|
            0 <= j < k ==> (#[trigger] results[j]).1 is Err || db::has_path(files, results[j].0),
    ensures
        k == results.len() ==> first_stray(files, results) is None,
        k < results.len() && results[k].1 is Ok && !db::has_path(files, results[k].0)
            ==> first_stray(files, results) == Some(results[k].0),
    decreases results.len(),
{
    if k > 0 {
        let rest = results.drop_first();
        assert(results[0].1 is Err || db::has_path(files, results[0].0));
        assert forall|j: int| 0 <= j < k - 1 implies (#[trigger] rest[j]).1 is Err || db::has_path(
            files,
            rest[j].0,
        ) by {
            assert(rest[j] == results[j + 1]);
        }
        law_first_stray(files, rest, k - 1);
    }
}

/// What a prompt takes is 200 bytes, those of the path, and those of each export with four more.
pub proof fn law_prompt_bytes(path: Seq<char>, a: Seq<Seq<char>>, b: Seq<Seq<char>>, name: Seq<char>)
    ensures
        prompt_bytes(path, Seq::empty()) == 200 + text::byte_len(path),
        prompt_bytes(path, a + b) == prompt_bytes(path, a) + prompt_bytes(path, b) - prompt_bytes(
            path,
            Seq::empty(),
        ),
        prompt_bytes(path, seq![name]) == 204 + text::byte_len(path) + text::byte_len(name),
{
    let number = |s: Seq<char>| text::byte_len(s) + 4;
    let whole = |s: Seq<Seq<char>>| export_bytes(s);
    lists::lemma_sum(a, b, number, whole);
    assert(whole(seq![name]) == number(name));
}

/// What prompts take is the sum of what each takes.
pub proof fn law_total_bytes(a: Seq<FileWithExports>, b: Seq<FileWithExports>, file: FileWithExports)
    ensures
        total_bytes(a + b) == total_bytes(a) + total_bytes(b),
        total_bytes(seq![file]) == prompt_bytes(file.path@, text::views(file.exports@)),
{
    let number = |f: FileWithExports| prompt_bytes(f.path@, text::views(f.exports@));
    let whole = |s: Seq<FileWithExports>| total_bytes(s);
    lists::lemma_sum(a, b, number, whole);
    assert(whole(seq![file]) == number(file));
}

/// Asking goes through the files that are listed, from the first: all of them, or as many as are
/// wanted.
pub proof fn law_files_to_ask(v: IndexView, force: bool, n: usize)
    ensures
        files_to_ask(v, force, None) == queries::listing(v, !force),
        files_to_ask(v, force, Some(n)).is_prefix_of(queries::listing(v, !force)),
        files_to_ask(v, force, Some(n)).len() <= n,
        files_to_ask(v, force, Some(n)).len() < n ==> files_to_ask(v, force, Some(n))
            == queries::listing(v, !force),
{
    let all = queries::listing(v, !force);
    assert(all.take(all.len() as int) =~= all);
}

/// A request that is refused changes nothing in the index, and neither does one that only shows.
pub proof fn law_refused_changes_nothing(
    v: IndexView,
    opts: EnrichOpts,
    held: Surroundings,
    now: i64,
)
    ensures
        step_for(v, opts, held) is Err ==> index_after(v, opts, held, now) == v,
        step_for(v, opts, held) is Ok && !(step_for(v, opts, held)->Ok_0 is Said) ==> index_after(
            v,
            opts,
            held,
            now,
        ) == v,
{
}

/// Once every description is cleared, none is left, and as many are told of as there were.
pub proof fn law_clear_all(v: IndexView, opts: EnrichOpts, held: Surroundings, now: i64)
    requires
        !is_skipped(opts, held),
        !opts.stats,
        opts.clear_all,
    ensures
        index_after(v, opts, held, now).files.len() == v.files.len(),
        forall|i: int|
            0 <= i < v.files.len() ==> (#[trigger] index_after(v, opts, held, now).files[i]).summary
                is None && index_after(v, opts, held, now).files[i].path == v.files[i].path,
        step_for(v, opts, held) == Ok::<EnrichStepView, Seq<char>>(
            EnrichStepView::Said(
                OutputView::Stderr(
                    "codemap: cleared enrichment for "@ + text::decimal(
                        v.files.filter(|f: FileView| f.summary is Some).len(),
                    ) + " files\n"@,
                ),
            ),
        ),
{
    db::law_enriched_counted(v.files);
}

/// The numbers of a state add up: the files with a description and those without are all files.
pub proof fn law_stats_object(total: u64, enriched: u64)
    requires
        enriched <= total,
    ensures
        ({
            let o = stats_object(total, enriched);
            &&& json::opt_whole(json::field(o, "total_files"@)) == Some(total)
            &&& json::opt_whole(json::field(o, "enriched_files"@)) == Some(enriched)
            &&& json::opt_whole(json::field(o, "unenriched_files"@)) == Some(
                (total - enriched) as u64,
            )
        }),
{
    reveal_with_fuel(json::member, 4);
    reveal_strlit("total_files");
    reveal_strlit("enriched_files");
    reveal_strlit("unenriched_files");
    assert("total_files"@.len() == 11 && "enriched_files"@.len() == 14 && "unenriched_files"@.len()
        == 16);
    let members = stats_object(total, enriched)->Object_0;
    assert(members.len() == 3);
    assert(members.drop_first()[0] == members[1]);
    assert(members.drop_first().drop_first()[0] == members[2]);
}

/// The files of which a state says that they need a description are all files but those with one;
/// nothing is said where all have one.
pub proof fn law_stats_text(enriched: nat, missing: nat, percent: Seq<char>)
    ensures
        stats_text(enriched, enriched, percent) == "Enrichment: "@ + text::decimal(enriched) + "/"@
            + text::decimal(enriched) + " files ("@ + percent + "%)\n"@,
        missing > 0 ==> stats_text(enriched + missing, enriched, percent) == "Enrichment: "@
            + text::decimal(enriched) + "/"@ + text::decimal(enriched + missing) + " files ("@
            + percent + "%)\n"@ + (text::decimal(missing)
            + " files need enrichment. Run `codemap enrich --api` or `codemap enrich --list`.\n"@),
{
    let head = "Enrichment: "@ + text::decimal(enriched) + "/"@ + text::decimal(enriched)
        + " files ("@ + percent + "%)\n"@;
    assert(head + Seq::<char>::empty() =~= head);
}

/// A request that cannot be met for want of a provider is passed over where that is asked for, and
/// refused otherwise.
pub proof fn law_without_provider(v: IndexView, opts: EnrichOpts, held: Surroundings)
    requires
        opts.api,
        !opts.stats,
        !opts.clear_all,
        opts.clear is None,
        opts.set is None,
        !opts.list,
        wanted_provider(opts, held) is Err,
    ensures
        opts.if_available ==> step_for(v, opts, held) == Ok::<EnrichStepView, Seq<char>>(
            EnrichStepView::Silent,
        ),
        !opts.if_available ==> step_for(v, opts, held) == Err::<EnrichStepView, Seq<char>>(
            wanted_provider(opts, held)->Err_0,
        ),
{
}

/// A description that is set is the one that is given, for the file that is named; without one of
/// its texts, or for a file that the index does not hold, it is refused.
pub proof fn law_set(v: IndexView, opts: EnrichOpts, held: Surroundings, now: i64)
    requires
        !is_skipped(opts, held),
        !opts.stats,
        !opts.clear_all,
        opts.clear is None,
        opts.set is Some,
    ensures
        step_for(v, opts, held) is Ok == (opts.summary is Some && opts.when_to_use is Some
            && db::has_path(v.files, opts.set->0@)),
        step_for(v, opts, held) is Ok ==> index_after(v, opts, held, now) == db::with_enrichment(
            v,
            opts.set->0@,
            opts.summary->0@,
            opts.when_to_use->0@,
            now,
        ),
{
}

/// A description that is cleared is that of the file that is named; for a file that the index does
/// not hold, it is refused.
pub proof fn law_clear(v: IndexView, opts: EnrichOpts, held: Surroundings, now: i64)
    requires
        !is_skipped(opts, held),
        !opts.stats,
        !opts.clear_all,
        opts.clear is Some,
    ensures
        step_for(v, opts, held) is Ok == db::has_path(v.files, opts.clear->0@),
        index_after(v, opts, held, now) == db::without_enrichment(v, opts.clear->0@),
{
}

/// What is told of the files without a description is how many of all they are, and each of them.
pub proof fn law_list_text(v: IndexView)
    ensures
        list_text(v) == "Files missing enrichment ("@ + text::decimal(
            v.files.filter(|f: FileView| f.summary is None).len(),
        ) + " of "@ + text::decimal(v.files.len()) + "):\n\n"@ + list_lines(
            queries::listing(v, true),
        ),
{
    queries::law_listing(v, true);
    let unenriched_only = true;
    let a = |f: FileView| !unenriched_only || f.summary is None;
    let b = |f: FileView| f.summary is None;
    assert forall|f: FileView| #[trigger] a(f) == b(f) by {
    }
    lists::lemma_same_choice(v.files, a, b);
}

/// Progress is told of at each tenth file and at the last, in whole hundredths.
pub proof fn law_progress(done: nat, total: nat)
    requires
        total > 0,
    ensures
        progress_text(done, total) is Some == (done % 10 == 0 || done == total),
        progress_text(total, total) == Some(
            "codemap: enriched "@ + text::decimal(total) + "/"@ + text::decimal(total)
                + " files (100%)...\n"@,
        ),
{
    assert(total * 100 / total == 100) by (nonlinear_arith)
        requires
            total > 0,
    ;
    reveal_with_fuel(text::decimal, 4);
    let hundred = text::decimal(100);
    assert(100nat / 10 == 10 && 10nat / 10 == 1);
    assert(hundred =~= seq!['1', '0', '0']);
    reveal_strlit(" files (");
    reveal_strlit("%)...\n");
    reveal_strlit(" files (100%)...\n");
    let head = "codemap: enriched "@ + text::decimal(total) + "/"@ + text::decimal(total);
    assert(head + " files ("@ + hundred + "%)...\n"@ =~= head + " files (100%)...\n"@);
}

/// What is told when asking begins and ends, and of what it would cost.
pub proof fn law_told(
    total: nat,
    provider: Seq<char>,
    concurrency: nat,
    success: nat,
    failed: nat,
    asked: Provider,
    input: Seq<char>,
    output: Seq<char>,
    cost: Seq<char>,
)
    ensures
        start_text(total, provider, concurrency) == "codemap: enriching "@ + text::decimal(total)
            + " files via "@ + provider + " (concurrency: "@ + text::decimal(concurrency)
            + ")...\n"@,
        done_text(success, failed) == "codemap: done — "@ + text::decimal(success) + " enriched, "@
            + text::decimal(failed) + " failed\n"@,
        estimate_text(asked, total, input, output, cost) == "Dry run — "@ + (match asked {
            Provider::Gemini(_) => "gemini"@,
            Provider::Anthropic(_) => "anthropic"@,
        }) + " provider, "@ + text::decimal(total) + " files\n"@ + "Estimated input tokens:  "@
            + input + "\n"@ + "Estimated output tokens: "@ + output + "\n"@ + "Estimated cost: $"@
            + cost + " ("@ + (match asked {
            Provider::Gemini(_) => "Gemini Flash pricing"@,
            Provider::Anthropic(_) => "Haiku pricing"@,
        }) + ")\n"@,
{
}

}
