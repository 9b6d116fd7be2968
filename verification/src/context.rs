//! Suggestions: the files that fit a task best.
use vstd::prelude::*;

use crate::db::Index;
use crate::json;
use crate::json::{Json, JsonView};
use crate::lists;
use crate::output::{Output, OutputView};
use crate::queries;
use crate::scorer;
use crate::scorer::{ScoredFile, ScoredView, WeightedView};
use crate::text;

verus! {

/// Why there are no suggestions.
#[derive(Debug)]
pub enum ContextError {
    /// The task holds no word to search for.
    NoKeywords,
}

impl ContextError {
    /// The text of the error.
    pub open spec fn message_text(&self) -> Seq<char> {
        "No searchable keywords in query after stop-word removal. Try a more specific description."@
    }

    /// The error in words.
    pub fn message(&self) -> (r: String)
        ensures
            r@ == self.message_text(),
    {
        "No searchable keywords in query after stop-word removal. Try a more specific description.".to_string()
    }
}

/// The keywords of a task.
pub open spec fn task_keywords(query: Seq<char>) -> Seq<Seq<char>> {
    scorer::query_keywords(query)
}

/// The files that fit a task best, at most `limit`. `weigh` gives a score to the points and the
/// rank of a match, `damp` the score of a neighbour to the score of a match.
pub fn suggest_files<F: Fn(u128, u64) -> u64, G: Fn(u64) -> u64>(
    index: &Index,
    query: &str,
    limit: usize,
    weigh: F,
    damp: G,
) -> (r: Result<Vec<ScoredFile>, ContextError>)
    requires
        index.wf(),
        forall|points: u128, rank: u64| call_requires(weigh, (points, rank)),
        forall|score: u64| call_requires(damp, (score,)),
    ensures
        task_keywords(query@).len() == 0 ==> r is Err,
        task_keywords(query@).len() > 0 ==> {
            let files = queries::listing(index@, false);
            r is Ok && exists|weighted: Seq<WeightedView>| #[trigger]
                scorer::weighted_by(
                    scorer::matches_of(task_keywords(query@), files),
                    weighted,
                    weigh,
                    damp,
                ) && scorer::scored_views(r->Ok_0@) == queries::first(
                    scorer::ranking(index@, files, weighted),
                    limit as nat,
                )
        },
{
    let keywords = scorer::tokenize_query(query);
    assert(text::views(keywords@).len() == keywords@.len());
    if keywords.len() == 0 {
        return Err(ContextError::NoKeywords);
    }
    let files = queries::get_all_files_with_exports_and_enrichment(index);
    let mut scored = scorer::score_files(&keywords, &files, index, weigh, damp);
    let ghost all = scorer::scored_views(scored@);
    if limit < scored.len() {
        scored.truncate(limit);
    }
    assert(scorer::scored_views(scored@) =~= queries::first(all, limit as nat));
    Ok(scored)
}

// ---------------------------------------------------------------------------------------------
// The report
// ---------------------------------------------------------------------------------------------

/// A file that is suggested, with its numbers in writing: its rank with two digits after the point,
/// and its score and rank in full. `content` is what the file holds, or why that is not known.
pub struct Suggestion {
    pub path: String,
    pub rank_text: String,
    pub score_number: String,
    pub rank_number: String,
    pub match_reasons: Vec<String>,
    pub content: Result<String, String>,
}

/// What is said of a file that is suggested.
#[verifier::ext_equal]
pub struct SuggestionView {
    pub path: Seq<char>,
    pub rank_text: Seq<char>,
    pub score_number: Seq<char>,
    pub rank_number: Seq<char>,
    pub reasons: Seq<Seq<char>>,
    pub content: Result<Seq<char>, Seq<char>>,
}

impl View for Suggestion {
    type V = SuggestionView;

    open spec fn view(&self) -> SuggestionView {
        SuggestionView {
            path: self.path@,
            rank_text: self.rank_text@,
            score_number: self.score_number@,
            rank_number: self.rank_number@,
            reasons: text::views(self.match_reasons@),
            content: match self.content {
                Ok(s) => Ok(s@),
                Err(e) => Err(e@),
            },
        }
    }
}

/// What is said of some files that are suggested.
pub open spec fn suggestion_views(v: Seq<Suggestion>) -> Seq<SuggestionView> {
    v.map_values(|s: Suggestion| s@)
}

/// The bytes of the longest path.
pub open spec fn longest_path(files: Seq<SuggestionView>) -> nat
    decreases files.len(),
{
    if files.len() == 0 {
        0
    } else {
        let before = longest_path(files.drop_last());
        if text::byte_len(files.last().path) > before {
            text::byte_len(files.last().path)
        } else {
            before
        }
    }
}

/// The line on a file; the paths fill a column.
pub open spec fn suggestion_line(f: SuggestionView, width: nat) -> Seq<char> {
    "  "@ + f.path + text::repeated(' ', (width - text::byte_len(f.path)) as nat) + "  [rank: "@
        + f.rank_text + " | match: "@ + text::join(f.reasons, ", "@) + "]\n"@
}

/// The lines on some files.
pub open spec fn suggestion_lines(files: Seq<SuggestionView>, width: nat) -> Seq<char>
    decreases files.len(),
{
    if files.len() == 0 {
        Seq::empty()
    } else {
        suggestion_lines(files.drop_last(), width) + suggestion_line(files.last(), width)
    }
}

/// The content of a file under its path.
pub open spec fn content_text(f: SuggestionView) -> Seq<char> {
    "--- "@ + f.path + " ---\n"@ + (match f.content {
        Ok(s) => s,
        Err(e) => "(could not read: "@ + e + ")"@,
    }) + "\n\n"@
}

/// The contents of some files under their paths.
pub open spec fn content_texts(files: Seq<SuggestionView>) -> Seq<char>
    decreases files.len(),
{
    if files.len() == 0 {
        Seq::empty()
    } else {
        content_texts(files.drop_last()) + content_text(files.last())
    }
}

/// The suggestions as text.
pub open spec fn text_report(
    query: Seq<char>,
    files: Seq<SuggestionView>,
    include_content: bool,
) -> Seq<char> {
    "Relevant files for: \""@ + query + "\"\n\n"@ + suggestion_lines(files, longest_path(files)) + (
    if include_content {
        "\n"@ + content_texts(files)
    } else {
        Seq::empty()
    })
}

/// A number by its text, as a JSON value.
pub open spec fn number_json(text: Seq<char>) -> JsonView {
    JsonView::Number { whole: None, text }
}

/// A file that is suggested as a JSON object.
pub open spec fn suggestion_json(f: SuggestionView, include_content: bool) -> JsonView {
    let members = seq![
        ("path"@, JsonView::Text(f.path)),
        ("score"@, number_json(f.score_number)),
        ("rank"@, number_json(f.rank_number)),
        ("match_reasons"@, JsonView::Array(json::text_views(f.reasons))),
    ];
    JsonView::Object(
        if include_content {
            members.push(
                (
                    "content"@,
                    JsonView::Text(
                        match f.content {
                            Ok(s) => s,
                            Err(_) => Seq::empty(),
                        },
                    ),
                ),
            )
        } else {
            members
        },
    )
}

/// Files that are suggested as JSON objects.
pub open spec fn suggestions_json(files: Seq<SuggestionView>, include_content: bool) -> Seq<
    JsonView,
> {
    files.map_values(|f: SuggestionView| suggestion_json(f, include_content))
}

/// The suggestions as a JSON object.
pub open spec fn json_report(
    query: Seq<char>,
    files: Seq<SuggestionView>,
    include_content: bool,
) -> JsonView {
    JsonView::Object(
        seq![
            ("query"@, JsonView::Text(query)),
            ("results"@, JsonView::Array(suggestions_json(files, include_content))),
        ],
    )
}

/// The answer to a task: the suggestions, or that there are none.
pub open spec fn context_output(
    query: Seq<char>,
    files: Seq<SuggestionView>,
    include_content: bool,
    as_json: bool,
) -> OutputView {
    if files.len() == 0 {
        if as_json {
            OutputView::Stdout("[]\n"@)
        } else {
            OutputView::Stderr("No relevant files found for: \""@ + query + "\"\n"@)
        }
    } else if as_json {
        OutputView::Stdout(json::pretty(json_report(query, files, include_content)) + "\n"@)
    } else {
        OutputView::Stdout(text_report(query, files, include_content))
    }
}

/// The bytes of the longest path.
fn find_longest(files: &Vec<Suggestion>) -> (r: usize)
    ensures
        r == longest_path(suggestion_views(files@)),
{
    let ghost fv = suggestion_views(files@);
    let mut longest: usize = 0;
    assert(fv.take(0) =~= Seq::<SuggestionView>::empty());
    for i in 0..files.len()
        invariant
            fv == suggestion_views(files@),
            longest == longest_path(fv.take(i as int)),
    {
        proof {
            assert(fv.take(i + 1).drop_last() =~= fv.take(i as int));
            assert(fv.take(i + 1).last() == files@[i as int]@);
        }
        let n: usize = text::bytes_in(files[i].path.as_str());
        if n > longest {
            longest = n;
        }
    }
    assert(fv.take(fv.len() as int) =~= fv);
    longest
}

/// No path is longer than the longest.
proof fn lemma_longest(files: Seq<SuggestionView>, i: int)
    requires
        0 <= i < files.len(),
    ensures
        text::byte_len(files[i].path) <= longest_path(files),
    decreases files.len(),
{
    if i < files.len() - 1 {
        lemma_longest(files.drop_last(), i);
    }
}

/// The line on a file.
fn render_line(f: &Suggestion, width: usize) -> (r: String)
    requires
        text::byte_len(f.path@) <= width,
    ensures
        r@ == suggestion_line(f@, width as nat),
{
    let n: usize = text::bytes_in(f.path.as_str());
    let padding = text::repeat(' ', width - n);
    let reasons = text::join_all(&f.match_reasons, ", ");
    let mut out = "  ".to_string();
    out.append(f.path.as_str());
    out.append(padding.as_str());
    out.append("  [rank: ");
    out.append(f.rank_text.as_str());
    out.append(" | match: ");
    out.append(reasons.as_str());
    out.append("]\n");
    out
}

/// The content of a file under its path.
fn render_content(f: &Suggestion) -> (r: String)
    ensures
        r@ == content_text(f@),
{
    let content = match &f.content {
        Ok(s) => s.clone(),
        Err(e) => "(could not read: ".to_string().concat(e.as_str()).concat(")"),
    };
    "--- ".to_string().concat(f.path.as_str()).concat(" ---\n").concat(content.as_str()).concat(
        "\n\n",
    )
}

/// The suggestions as text.
pub fn render_text(query: &str, files: &Vec<Suggestion>, include_content: bool) -> (r: String)
    ensures
        r@ == text_report(query@, suggestion_views(files@), include_content),
{
    let ghost fv = suggestion_views(files@);
    let width: usize = find_longest(files);
    let mut out = "Relevant files for: \"".to_string().concat(query).concat("\"\n\n");
    let ghost head = out@;
    assert(fv.take(0) =~= Seq::<SuggestionView>::empty());
    assert(out@ =~= head + suggestion_lines(fv.take(0), width as nat));
    for i in 0..files.len()
        invariant
            fv == suggestion_views(files@),
            width == longest_path(fv),
            out@ == head + suggestion_lines(fv.take(i as int), width as nat),
    {
        proof {
            assert(fv.take(i + 1).drop_last() =~= fv.take(i as int));
            assert(fv.take(i + 1).last() == files@[i as int]@);
            lemma_longest(fv, i as int);
        }
        let line = render_line(&files[i], width);
        out.append(line.as_str());
        assert(out@ =~= head + suggestion_lines(fv.take(i + 1), width as nat));
    }
    assert(fv.take(fv.len() as int) =~= fv);
    if include_content {
        let mut contents = "\n".to_string();
        let ghost first = contents@;
        assert(contents@ =~= first + content_texts(fv.take(0)));
        for i in 0..files.len()
            invariant
                fv == suggestion_views(files@),
                contents@ == first + content_texts(fv.take(i as int)),
        {
            proof {
                assert(fv.take(i + 1).drop_last() =~= fv.take(i as int));
                assert(fv.take(i + 1).last() == files@[i as int]@);
            }
            let part = render_content(&files[i]);
            contents.append(part.as_str());
            assert(contents@ =~= first + content_texts(fv.take(i + 1)));
        }
        out.append(contents.as_str());
    }
    assert(out@ =~= text_report(query@, fv, include_content));
    out
}

/// A file that is suggested as a JSON object.
fn suggestion_to_json(f: &Suggestion, include_content: bool) -> (r: Json)
    ensures
        r.tree() == suggestion_json(f@, include_content),
{
    let object = json::add_member(
        json::empty_object(),
        "path",
        json::text_value(f.path.as_str()),
    );
    let object = json::add_member(
        object,
        "score",
        Json::Number { whole: None, text: f.score_number.clone() },
    );
    let object = json::add_member(
        object,
        "rank",
        Json::Number { whole: None, text: f.rank_number.clone() },
    );
    let object = json::add_member(object, "match_reasons", json::text_array(&f.match_reasons));
    let object = if include_content {
        let content = match &f.content {
            Ok(s) => s.clone(),
            Err(_) => String::new(),
        };
        json::add_member(object, "content", Json::Text(content))
    } else {
        object
    };
    assert(object.tree()->Object_0 =~= suggestion_json(f@, include_content)->Object_0);
    object
}

/// The suggestions as a JSON object.
pub fn render_json(query: &str, files: &Vec<Suggestion>, include_content: bool) -> (r: Json)
    ensures
        r.tree() == json_report(query@, suggestion_views(files@), include_content),
{
    let ghost fv = suggestion_views(files@);
    let mut items: Vec<Json> = Vec::new();
    for i in 0..files.len()
        invariant
            fv == suggestion_views(files@),
            json::trees(items@) == suggestions_json(fv.take(i as int), include_content),
    {
        json::push_value(&mut items, suggestion_to_json(&files[i], include_content));
        assert(suggestions_json(fv.take(i + 1), include_content) =~= suggestions_json(
            fv.take(i as int),
            include_content,
        ).push(suggestion_json(files@[i as int]@, include_content)));
    }
    assert(fv.take(fv.len() as int) =~= fv);
    let object = json::add_member(json::empty_object(), "query", json::text_value(query));
    let object = json::add_member(object, "results", json::array_value(items));
    assert(object.tree()->Object_0 =~= json_report(query@, fv, include_content)->Object_0);
    object
}

/// The answer to a task: the suggestions, or that there are none.
pub fn run_context(
    query: &str,
    files: &Vec<Suggestion>,
    include_content: bool,
    as_json: bool,
) -> (r: Output)
    ensures
        r@ == context_output(query@, suggestion_views(files@), include_content, as_json),
{
    if files.len() == 0 {
        if as_json {
            Output::Stdout("[]\n".to_string())
        } else {
            Output::Stderr(
                "No relevant files found for: \"".to_string().concat(query).concat("\"\n"),
            )
        }
    } else if as_json {
        let object = render_json(query, files, include_content);
        Output::Stdout(json::to_pretty(&object).concat("\n"))
    } else {
        Output::Stdout(render_text(query, files, include_content))
    }
}

/// Every suggestion has a line, in their order: its path, its rank, and all its reasons, the ranks
/// one below the other.
pub proof fn law_suggestions_listed(files: Seq<SuggestionView>, width: nat)
    ensures
        suggestion_lines(files, width) == files.map_values(
            |f: SuggestionView|
                "  "@ + f.path + Seq::new((width - text::byte_len(f.path)) as nat, |i: int| ' ')
                    + "  [rank: "@ + f.rank_text + " | match: "@ + text::join(f.reasons, ", "@)
                    + "]\n"@,
        ).flatten(),
{
    let part = |f: SuggestionView|
        "  "@ + f.path + Seq::new((width - text::byte_len(f.path)) as nat, |i: int| ' ')
            + "  [rank: "@ + f.rank_text + " | match: "@ + text::join(f.reasons, ", "@) + "]\n"@;
    let whole = |s: Seq<SuggestionView>| suggestion_lines(s, width);
    assert forall|s: Seq<SuggestionView>| #[trigger]
        whole(s) == (if s.len() == 0 {
            Seq::empty()
        } else {
            whole(s.drop_last()) + part(s.last())
        }) by {
        if s.len() > 0 {
            let f = s.last();
            assert(text::repeated(' ', (width - text::byte_len(f.path)) as nat) =~= Seq::new(
                (width - text::byte_len(f.path)) as nat,
                |i: int| ' ',
            ));
        }
    }
    lists::lemma_parts(files, part, whole);
}

/// Every suggestion has its content behind its path, in their order, or the reason why there is
/// none.
pub proof fn law_contents_listed(files: Seq<SuggestionView>)
    ensures
        content_texts(files) == files.map_values(
            |f: SuggestionView|
                "--- "@ + f.path + " ---\n"@ + (match f.content {
                    Ok(s) => s,
                    Err(e) => "(could not read: "@ + e + ")"@,
                }) + "\n\n"@,
        ).flatten(),
{
    lists::lemma_parts(
        files,
        |f: SuggestionView|
            "--- "@ + f.path + " ---\n"@ + (match f.content {
                Ok(s) => s,
                Err(e) => "(could not read: "@ + e + ")"@,
            }) + "\n\n"@,
        |s: Seq<SuggestionView>| content_texts(s),
    );
}

/// The width of the paths is that of the longest one.
pub proof fn law_longest_path(files: Seq<SuggestionView>)
    ensures
        forall|i: int|
            0 <= i < files.len() ==> text::byte_len((#[trigger] files[i]).path) <= longest_path(
                files,
            ),
        files.len() > 0 ==> exists|i: int|
            0 <= i < files.len() && text::byte_len((#[trigger] files[i]).path) == longest_path(
                files,
            ),
    decreases files.len(),
{
    if files.len() > 0 {
        let rest = files.drop_last();
        law_longest_path(rest);
        assert forall|i: int| 0 <= i < files.len() implies text::byte_len(
            (#[trigger] files[i]).path,
        ) <= longest_path(files) by {
            if i < rest.len() {
                assert(rest[i] == files[i]);
            }
        }
        if text::byte_len(files.last().path) > longest_path(rest) || rest.len() == 0 {
            assert(files[files.len() - 1] == files.last());
            assert(text::byte_len(files[files.len() - 1].path) == longest_path(files));
        } else {
            let i = choose|i: int|
                0 <= i < rest.len() && text::byte_len((#[trigger] rest[i]).path) == longest_path(
                    rest,
                );
            assert(rest[i] == files[i]);
        }
    }
}

/// Every suggestion stands in the JSON, in their order, with its path, its score, its rank, all its
/// reasons, and its content if and only if that is asked for.
pub proof fn law_suggestions_in_json(files: Seq<SuggestionView>, include_content: bool, i: int)
    requires
        0 <= i < files.len(),
    ensures
        suggestions_json(files, include_content).len() == files.len(),
        ({
            let item = suggestions_json(files, include_content)[i];
            &&& json::field(item, "path"@) == Some(JsonView::Text(files[i].path))
            &&& json::field(item, "score"@) == Some(
                JsonView::Number { whole: None, text: files[i].score_number },
            )
            &&& json::field(item, "rank"@) == Some(
                JsonView::Number { whole: None, text: files[i].rank_number },
            )
            &&& json::opt_items(json::field(item, "match_reasons"@)) matches Some(reasons)
                && reasons.len() == files[i].reasons.len() && forall|k: int|
                0 <= k < reasons.len() ==> (#[trigger] reasons[k]) == JsonView::Text(
                    files[i].reasons[k],
                )
            &&& json::field(item, "content"@) is Some == include_content
            &&& include_content ==> json::opt_text(json::field(item, "content"@)) == Some(
                match files[i].content {
                    Ok(s) => s,
                    Err(_) => Seq::empty(),
                },
            )
        }),
{
    reveal_with_fuel(json::member, 6);
    reveal_strlit("path");
    reveal_strlit("score");
    reveal_strlit("rank");
    reveal_strlit("match_reasons");
    reveal_strlit("content");
    assert("path"@[0] == 'p' && "rank"@[0] == 'r' && "score"@[0] == 's' && "match_reasons"@[0] == 'm'
        && "content"@[0] == 'c');
    let item = suggestions_json(files, include_content)[i];
    let members = item->Object_0;
    assert(members.drop_first()[0] == members[1]);
    assert(members.drop_first().drop_first()[0] == members[2]);
    assert(members.drop_first().drop_first().drop_first()[0] == members[3]);
    if include_content {
        assert(members.drop_first().drop_first().drop_first().drop_first()[0] == members[4]);
    }
}

/// What is told of suggestions is the task, a line for each of them, and where it is asked for, the
/// content of each.
pub proof fn law_report(query: Seq<char>, files: Seq<SuggestionView>)
    ensures
        text_report(query, files, false) == "Relevant files for: \""@ + query + "\"\n\n"@
            + suggestion_lines(files, longest_path(files)),
        text_report(query, files, true) == text_report(query, files, false) + "\n"@
            + content_texts(files),
        json::field(json_report(query, files, true), "query"@) == Some(JsonView::Text(query)),
        json::opt_items(json::field(json_report(query, files, true), "results"@)) == Some(
            suggestions_json(files, true),
        ),
        json::opt_items(json::field(json_report(query, files, false), "results"@)) == Some(
            suggestions_json(files, false),
        ),
        files.len() > 0 ==> context_output(query, files, false, false) == OutputView::Stdout(
            text_report(query, files, false),
        ),
        files.len() > 0 ==> context_output(query, files, true, false) == OutputView::Stdout(
            text_report(query, files, true),
        ),
        task_keywords(query) == scorer::query_keywords(query),
{
    reveal_with_fuel(json::member, 3);
    reveal_strlit("query");
    reveal_strlit("results");
    assert("query"@.len() != "results"@.len());
    let head = "Relevant files for: \""@ + query + "\"\n\n"@ + suggestion_lines(
        files,
        longest_path(files),
    );
    assert(head + Seq::<char>::empty() =~= head);
    assert(head + ("\n"@ + content_texts(files)) =~= head + "\n"@ + content_texts(files));
    let a = json_report(query, files, true)->Object_0;
    let b = json_report(query, files, false)->Object_0;
    assert(a.drop_first()[0] == a[1] && b.drop_first()[0] == b[1]);
}

/// What is said of suggestions is the path of each, its numbers, all its reasons, and its content.
pub proof fn law_suggestions(files: Seq<Suggestion>, i: int, k: int)
    requires
        0 <= i < files.len(),
    ensures
        suggestion_views(files).len() == files.len(),
        suggestion_views(files)[i].path == files[i].path@,
        suggestion_views(files)[i].rank_text == files[i].rank_text@,
        suggestion_views(files)[i].score_number == files[i].score_number@,
        suggestion_views(files)[i].rank_number == files[i].rank_number@,
        suggestion_views(files)[i].reasons.len() == files[i].match_reasons@.len(),
        0 <= k < files[i].match_reasons@.len() ==> suggestion_views(files)[i].reasons[k]
            == files[i].match_reasons@[k]@,
        match files[i].content {
            Ok(s) => suggestion_views(files)[i].content == Ok::<Seq<char>, Seq<char>>(s@),
            Err(e) => suggestion_views(files)[i].content == Err::<Seq<char>, Seq<char>>(e@),
        },
{
}

}
