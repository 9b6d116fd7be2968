//! Symbol lookup: where a symbol is defined and which files use it.
use vstd::prelude::*;

use crate::db::{Index, IndexView, SymbolResult};
use crate::deps;
use crate::json;
use crate::json::{Json, JsonView};
use crate::lists;
use crate::order;
use crate::order::SortKey;
use crate::output::{Output, OutputView};
use crate::parser;
use crate::queries;
use crate::queries::SymbolResultView;
use crate::text;

verus! {

/// A definition of a symbol.
pub struct DefInfo {
    pub name: String,
    pub file_path: String,
    pub line: Option<i32>,
    pub kind: String,
    pub is_exported: bool,
    pub signature: Option<String>,
}

/// What is said of a definition.
#[verifier::ext_equal]
pub struct DefView {
    pub name: Seq<char>,
    pub file_path: Seq<char>,
    pub line: Option<i32>,
    pub kind: Seq<char>,
    pub is_exported: bool,
    pub signature: Option<Seq<char>>,
}

impl View for DefInfo {
    type V = DefView;

    open spec fn view(&self) -> DefView {
        DefView {
            name: self.name@,
            file_path: self.file_path@,
            line: self.line,
            kind: self.kind@,
            is_exported: self.is_exported,
            signature: text::opt_view(self.signature),
        }
    }
}

/// What is said of some definitions.
pub open spec fn def_views(v: Seq<DefInfo>) -> Seq<DefView> {
    v.map_values(|d: DefInfo| d@)
}

/// The first of some signatures that holds a name.
pub open spec fn signature_with(signatures: Seq<Seq<char>>, name: Seq<char>) -> Option<Seq<char>>
    decreases signatures.len(),
{
    if signatures.len() == 0 {
        None
    } else if text::contains(signatures[0], name) {
        Some(signatures[0])
    } else {
        signature_with(signatures.drop_first(), name)
    }
}

/// The first of some signatures that holds a name.
pub fn find_signature(signatures: &Vec<String>, name: &str) -> (r: Option<String>)
    ensures
        text::opt_view(r) == signature_with(text::views(signatures@), name@),
{
    let ghost all = text::views(signatures@);
    assert(all.skip(0) =~= all);
    for i in 0..signatures.len()
        invariant
            all == text::views(signatures@),
            signature_with(all, name@) == signature_with(all.skip(i as int), name@),
    {
        assert(all.skip(i as int)[0] == signatures@[i as int]@);
        if text::has_text(signatures[i].as_str(), name) {
            return Some(signatures[i].clone());
        }
        assert(all.skip(i as int).drop_first() =~= all.skip(i + 1));
    }
    None
}

/// A symbol that was found, with its signature in the source of its file.
pub open spec fn definition(s: SymbolResultView, source: Option<Seq<char>>) -> DefView {
    DefView {
        name: s.name,
        file_path: s.file_path,
        line: s.line,
        kind: s.kind,
        is_exported: s.is_exported,
        signature: signature_with(crate::map::signatures_in(s.file_path, source), s.name),
    }
}

/// A symbol that was found, with its signature in the source of its file, where that can be read.
pub fn describe(result: &SymbolResult, source: &Option<String>) -> (r: DefInfo)
    ensures
        r@ == definition(result@, text::opt_view(*source)),
{
    let signature = match source {
        Some(source) => {
            let signatures = parser::extract_signatures(
                result.file_path.as_str(),
                source.as_str(),
            );
            find_signature(&signatures, result.name.as_str())
        },
        None => None,
    };
    let def = DefInfo {
        name: result.name.clone(),
        file_path: result.file_path.clone(),
        line: result.line,
        kind: result.kind.clone(),
        is_exported: result.is_exported,
        signature,
    };
    assert(def@ =~= definition(result@, text::opt_view(*source)));
    def
}

// ---------------------------------------------------------------------------------------------
// Groups
// ---------------------------------------------------------------------------------------------

/// The names of some definitions, each once.
pub open spec fn names_of(defs: Seq<DefView>) -> Seq<Seq<char>>
    decreases defs.len(),
{
    if defs.len() == 0 {
        Seq::empty()
    } else {
        let before = names_of(defs.drop_last());
        if before.contains(defs.last().name) {
            before
        } else {
            before.push(defs.last().name)
        }
    }
}

/// What names are sorted by.
pub open spec fn name_keys(names: Seq<Seq<char>>) -> Seq<(int, Seq<char>)> {
    names.map_values(|n: Seq<char>| (0int, n))
}

/// The names of some definitions, each once, in their order.
pub open spec fn sorted_names(defs: Seq<DefView>) -> Seq<Seq<char>> {
    let names = names_of(defs);
    order::order_of(name_keys(names)).map_values(|i: int| names[i])
}

/// The definitions of one name.
pub open spec fn defs_named(defs: Seq<DefView>, name: Seq<char>) -> Seq<DefView>
    decreases defs.len(),
{
    if defs.len() == 0 {
        Seq::empty()
    } else {
        let before = defs_named(defs.drop_last(), name);
        if defs.last().name == name {
            before.push(defs.last())
        } else {
            before
        }
    }
}

/// The files of some definitions.
pub open spec fn def_paths(defs: Seq<DefView>) -> Seq<Seq<char>> {
    defs.map_values(|d: DefView| d.file_path)
}

/// The files that import a file with one of the definitions, each once.
pub open spec fn referencing(v: IndexView, defs: Seq<DefView>) -> Seq<Seq<char>> {
    deps::next_level(v, true, def_paths(defs), Set::empty())
}

/// The names of some definitions, each once, in their order.
fn collect_names(defs: &Vec<DefInfo>) -> (r: Vec<String>)
    ensures
        text::views(r@) == sorted_names(def_views(defs@)),
{
    let ghost dv = def_views(defs@);
    let mut names: Vec<String> = Vec::new();
    proof {
        assert(dv.take(0) =~= Seq::<DefView>::empty());
        assert(text::views(names@) =~= Seq::<Seq<char>>::empty());
    }
    for i in 0..defs.len()
        invariant
            dv == def_views(defs@),
            text::views(names@) == names_of(dv.take(i as int)),
    {
        let ghost before = text::views(names@);
        proof {
            assert(dv.take(i + 1).drop_last() =~= dv.take(i as int));
            assert(dv.take(i + 1).last() == defs@[i as int]@);
        }
        if !text::holds(&names, defs[i].name.as_str()) {
            names.push(defs[i].name.clone());
            assert(text::views(names@) =~= before.push(defs@[i as int].name@));
        }
    }
    assert(dv.take(dv.len() as int) =~= dv);
    let ghost nv = text::views(names@);
    let mut keys: Vec<SortKey> = Vec::new();
    for i in 0..names.len()
        invariant
            nv == text::views(names@),
            order::key_views(keys@) == name_keys(nv.take(i as int)),
    {
        let ghost before = order::key_views(keys@);
        let key = SortKey { weight: 0, name: names[i].clone() };
        let ghost shown = key@;
        keys.push(key);
        proof {
            assert(nv[i as int] == names@[i as int]@);
            assert(order::key_views(keys@) =~= before.push(shown));
            assert(name_keys(nv.take(i + 1)) =~= before.push(shown));
        }
    }
    assert(nv.take(nv.len() as int) =~= nv);
    let sorted = order::sort(&keys);
    let ghost positions = order::positions(sorted@);
    let ghost show = |i: int| nv[i];
    let mut out: Vec<String> = Vec::new();
    for k in 0..sorted.len()
        invariant
            nv == text::views(names@),
            positions == order::positions(sorted@),
            order::is_order(name_keys(nv), positions),
            show == (|i: int| nv[i]),
            text::views(out@) == positions.take(k as int).map_values(show),
    {
        let ghost before = text::views(out@);
        assert(0 <= positions[k as int] < nv.len());
        let i: usize = sorted[k];
        out.push(names[i].clone());
        proof {
            assert(nv[positions[k as int]] == names@[i as int]@);
            assert(text::views(out@) =~= before.push(names@[i as int]@));
            assert(positions.take(k + 1).map_values(show) =~= before.push(
                show(positions[k as int]),
            ));
        }
    }
    assert(positions.take(positions.len() as int) =~= positions);
    out
}

/// The positions of the definitions of one name.
fn positions_named(defs: &Vec<DefInfo>, name: &String) -> (r: Vec<usize>)
    ensures
        forall|k: int| 0 <= k < r@.len() ==> #[trigger] r@[k] < defs@.len(),
        r@.map_values(|i: usize| defs@[i as int]@) == defs_named(def_views(defs@), name@),
{
    let ghost dv = def_views(defs@);
    let ghost pick = |i: usize| defs@[i as int]@;
    let mut out: Vec<usize> = Vec::new();
    proof {
        assert(dv.take(0) =~= Seq::<DefView>::empty());
        assert(out@.map_values(pick) =~= Seq::<DefView>::empty());
    }
    for i in 0..defs.len()
        invariant
            dv == def_views(defs@),
            pick == (|i: usize| defs@[i as int]@),
            forall|k: int| 0 <= k < out@.len() ==> #[trigger] out@[k] < i,
            out@.map_values(pick) == defs_named(dv.take(i as int), name@),
    {
        let ghost before = out@.map_values(pick);
        proof {
            assert(dv.take(i + 1).drop_last() =~= dv.take(i as int));
            assert(dv.take(i + 1).last() == defs@[i as int]@);
        }
        if defs[i].name == *name {
            out.push(i);
            assert(out@.map_values(pick) =~= before.push(defs@[i as int]@));
        }
    }
    assert(dv.take(dv.len() as int) =~= dv);
    out
}

/// The files that import a file with one of the definitions at some positions, each once.
fn collect_references(index: &Index, defs: &Vec<DefInfo>, at: &Vec<usize>) -> (r: Vec<String>)
    requires
        index.wf(),
        forall|k: int| 0 <= k < at@.len() ==> #[trigger] at@[k] < defs@.len(),
    ensures
        text::views(r@) == referencing(index@, at@.map_values(|i: usize| defs@[i as int]@)),
{
    let ghost pick = |i: usize| defs@[i as int]@;
    let ghost group = at@.map_values(pick);
    let mut paths: Vec<String> = Vec::new();
    for k in 0..at.len()
        invariant
            forall|k: int| 0 <= k < at@.len() ==> #[trigger] at@[k] < defs@.len(),
            pick == (|i: usize| defs@[i as int]@),
            group == at@.map_values(pick),
            text::views(paths@) == def_paths(group.take(k as int)),
    {
        let ghost before = text::views(paths@);
        let i: usize = at[k];
        paths.push(defs[i].file_path.clone());
        proof {
            assert(group[k as int] == defs@[i as int]@);
            assert(text::views(paths@) =~= before.push(defs@[i as int].file_path@));
            assert(def_paths(group.take(k + 1)) =~= before.push(defs@[i as int].file_path@));
        }
    }
    assert(group.take(group.len() as int) =~= group);
    deps::next_files(index, &paths, "importers")
}

// ---------------------------------------------------------------------------------------------
// The report
// ---------------------------------------------------------------------------------------------

/// The number of references that are shown where not all are asked for.
pub const MAX_REFERENCES: usize = 5;

/// How a definition is visible.
pub open spec fn visibility(is_exported: bool) -> Seq<char> {
    if is_exported {
        "exported"@
    } else {
        "local"@
    }
}

/// The line behind a path, where it is known.
pub open spec fn line_suffix(line: Option<i32>) -> Seq<char> {
    match line {
        Some(l) => ":"@ + text::signed(l as int),
        None => Seq::empty(),
    }
}

/// The line with the signature of a definition, where it is known.
pub open spec fn signature_line(signature: Option<Seq<char>>) -> Seq<char> {
    match signature {
        Some(s) => "      "@ + s + "\n"@,
        None => Seq::empty(),
    }
}

/// The lines on a definition.
pub open spec fn def_text(d: DefView) -> Seq<char> {
    "    "@ + d.file_path + line_suffix(d.line) + "  ["@ + visibility(d.is_exported) + " "@ + d.kind
        + "]\n"@ + signature_line(d.signature)
}

/// The lines on some definitions.
pub open spec fn def_lines(defs: Seq<DefView>) -> Seq<char>
    decreases defs.len(),
{
    if defs.len() == 0 {
        Seq::empty()
    } else {
        def_lines(defs.drop_last()) + def_text(defs.last())
    }
}

/// Lines of four blanks and a path each.
pub open spec fn path_lines(paths: Seq<Seq<char>>) -> Seq<char>
    decreases paths.len(),
{
    if paths.len() == 0 {
        Seq::empty()
    } else {
        path_lines(paths.drop_last()) + "    "@ + paths.last() + "\n"@
    }
}

/// The lines on the files that use a symbol.
pub open spec fn reference_lines(paths: Seq<Seq<char>>, all: bool) -> Seq<char> {
    if paths.len() == 0 {
        Seq::empty()
    } else {
        let shown = deps::shown_count(paths.len(), all, MAX_REFERENCES as nat);
        "  Referenced in ("@ + text::decimal(paths.len()) + " files):\n"@ + path_lines(
            paths.take(shown as int),
        ) + (if !all && paths.len() > MAX_REFERENCES {
            "    ... and "@ + text::decimal((paths.len() - MAX_REFERENCES) as nat)
                + " more (use --all to show all)\n"@
        } else {
            Seq::empty()
        })
    }
}

/// The part of the report on one name.
pub open spec fn name_report(v: IndexView, defs: Seq<DefView>, name: Seq<char>, all: bool) -> Seq<
    char,
> {
    let group = defs_named(defs, name);
    name + "\n  Defined in:\n"@ + def_lines(group) + reference_lines(referencing(v, group), all)
}

/// The report on some names, with an empty line between each two.
pub open spec fn names_report(
    v: IndexView,
    defs: Seq<DefView>,
    names: Seq<Seq<char>>,
    all: bool,
) -> Seq<char>
    decreases names.len(),
{
    if names.len() == 0 {
        Seq::empty()
    } else {
        names_report(v, defs, names.drop_last(), all) + (if names.len() > 1 {
            "\n"@
        } else {
            Seq::empty()
        }) + name_report(v, defs, names.last(), all)
    }
}

/// A line number as a JSON value.
pub open spec fn line_json(line: Option<i32>) -> JsonView {
    match line {
        Some(l) => JsonView::Number {
            whole: if l >= 0 {
                Some(l as u64)
            } else {
                None
            },
            text: text::signed(l as int),
        },
        None => JsonView::Null,
    }
}

/// A definition as a JSON object.
pub open spec fn def_json(d: DefView) -> JsonView {
    JsonView::Object(
        seq![
            ("file"@, JsonView::Text(d.file_path)),
            ("line"@, line_json(d.line)),
            ("kind"@, JsonView::Text(d.kind)),
            ("exported"@, JsonView::Bool(d.is_exported)),
            ("signature"@, json::opt_text_view(d.signature)),
        ],
    )
}

/// Definitions as JSON objects.
pub open spec fn defs_json(defs: Seq<DefView>) -> Seq<JsonView> {
    defs.map_values(|d: DefView| def_json(d))
}

/// What is said of one name as a JSON object.
pub open spec fn name_json(v: IndexView, defs: Seq<DefView>, name: Seq<char>, all: bool) -> JsonView {
    let group = defs_named(defs, name);
    let paths = referencing(v, group);
    let shown = deps::shown_count(paths.len(), all, MAX_REFERENCES as nat);
    JsonView::Object(
        seq![
            ("name"@, JsonView::Text(name)),
            ("definitions"@, JsonView::Array(defs_json(group))),
            ("referenced_in"@, JsonView::Array(json::text_views(paths.take(shown as int)))),
            ("total_references"@, json::whole_view(paths.len() as u64)),
        ],
    )
}

/// What is said of some names as JSON objects.
pub open spec fn names_json(
    v: IndexView,
    defs: Seq<DefView>,
    names: Seq<Seq<char>>,
    all: bool,
) -> Seq<JsonView> {
    names.map_values(|n: Seq<char>| name_json(v, defs, n, all))
}

/// The answer to a lookup: what is said of the symbols found, by name, or that there are none.
pub open spec fn symbol_output(
    v: IndexView,
    defs: Seq<DefView>,
    pattern: Seq<char>,
    all: bool,
    as_json: bool,
) -> OutputView {
    if defs.len() == 0 {
        if as_json {
            OutputView::Stdout("[]\n"@)
        } else {
            OutputView::Stderr("No symbols matching '"@ + pattern + "'\n"@)
        }
    } else if as_json {
        OutputView::Stdout(
            json::pretty(JsonView::Array(names_json(v, defs, sorted_names(defs), all))) + "\n"@,
        )
    } else {
        OutputView::Stdout(names_report(v, defs, sorted_names(defs), all))
    }
}

/// The line behind a path, where it is known.
pub fn line_info(line: Option<i32>) -> (r: String)
    ensures
        r@ == line_suffix(line),
{
    match line {
        Some(l) => ":".to_string().concat(text::signed_of(l as i64).as_str()),
        None => String::new(),
    }
}

/// The lines on a definition.
fn def_to_text(d: &DefInfo) -> (r: String)
    ensures
        r@ == def_text(d@),
{
    let suffix = line_info(d.line);
    let seen = if d.is_exported {
        "exported"
    } else {
        "local"
    };
    let signature = match &d.signature {
        Some(s) => "      ".to_string().concat(s.as_str()).concat("\n"),
        None => String::new(),
    };
    let mut out = "    ".to_string();
    out.append(d.file_path.as_str());
    out.append(suffix.as_str());
    out.append("  [");
    out.append(seen);
    out.append(" ");
    out.append(d.kind.as_str());
    out.append("]\n");
    out.append(signature.as_str());
    out
}

/// Appends the lines on the definitions at some positions.
fn append_defs(out: &mut String, defs: &Vec<DefInfo>, at: &Vec<usize>)
    requires
        forall|k: int| 0 <= k < at@.len() ==> #[trigger] at@[k] < defs@.len(),
    ensures
        final(out)@ == old(out)@ + def_lines(at@.map_values(|i: usize| defs@[i as int]@)),
{
    let ghost pick = |i: usize| defs@[i as int]@;
    let ghost group = at@.map_values(pick);
    let ghost start = out@;
    proof {
        assert(group.take(0) =~= Seq::<DefView>::empty());
        assert(out@ =~= start + def_lines(group.take(0)));
    }
    for k in 0..at.len()
        invariant
            forall|k: int| 0 <= k < at@.len() ==> #[trigger] at@[k] < defs@.len(),
            pick == (|i: usize| defs@[i as int]@),
            group == at@.map_values(pick),
            out@ == start + def_lines(group.take(k as int)),
    {
        let i: usize = at[k];
        let d = &defs[i];
        proof {
            assert(group.take(k + 1).drop_last() =~= group.take(k as int));
            assert(group.take(k + 1).last() == d@);
        }
        let lines = def_to_text(d);
        out.append(lines.as_str());
        assert(out@ =~= start + def_lines(group.take(k + 1)));
    }
    assert(group.take(group.len() as int) =~= group);
}

/// Appends the lines on the files that use a symbol.
fn append_references(out: &mut String, paths: &Vec<String>, all: bool)
    ensures
        final(out)@ == old(out)@ + reference_lines(text::views(paths@), all),
{
    let ghost pv = text::views(paths@);
    let ghost start = out@;
    let total: usize = paths.len();
    if total == 0 {
        assert(out@ =~= start + reference_lines(pv, all));
        return ;
    }
    let show: usize = if all || total <= MAX_REFERENCES {
        total
    } else {
        MAX_REFERENCES
    };
    out.append("  Referenced in (");
    out.append(text::decimal_of(total as u64).as_str());
    out.append(" files):\n");
    let ghost head = out@;
    assert(pv.take(0) =~= Seq::<Seq<char>>::empty());
    assert(out@ =~= head + path_lines(pv.take(0)));
    for i in 0..show
        invariant
            show <= paths@.len(),
            pv == text::views(paths@),
            out@ == head + path_lines(pv.take(i as int)),
    {
        proof {
            assert(pv.take(i + 1).drop_last() =~= pv.take(i as int));
            assert(pv.take(i + 1).last() == paths@[i as int]@);
        }
        out.append("    ");
        out.append(paths[i].as_str());
        out.append("\n");
        assert(out@ =~= head + path_lines(pv.take(i + 1)));
    }
    if !all && total > MAX_REFERENCES {
        out.append("    ... and ");
        out.append(text::decimal_of((total - MAX_REFERENCES) as u64).as_str());
        out.append(" more (use --all to show all)\n");
    }
    assert(out@ =~= start + reference_lines(pv, all));
}

/// The part of the report on one name.
fn name_to_text(index: &Index, defs: &Vec<DefInfo>, name: &String, all: bool) -> (r: String)
    requires
        index.wf(),
    ensures
        r@ == name_report(index@, def_views(defs@), name@, all),
{
    let at = positions_named(defs, name);
    let paths = collect_references(index, defs, &at);
    let mut out = name.clone();
    out.append("\n  Defined in:\n");
    append_defs(&mut out, defs, &at);
    append_references(&mut out, &paths, all);
    out
}

/// The report on the names of some definitions.
fn render_text(index: &Index, defs: &Vec<DefInfo>, names: &Vec<String>, all: bool) -> (r: String)
    requires
        index.wf(),
    ensures
        r@ == names_report(index@, def_views(defs@), text::views(names@), all),
{
    let ghost v = index@;
    let ghost dv = def_views(defs@);
    let ghost nv = text::views(names@);
    let mut out = String::new();
    assert(nv.take(0) =~= Seq::<Seq<char>>::empty());
    for i in 0..names.len()
        invariant
            index.wf(),
            v == index@,
            dv == def_views(defs@),
            nv == text::views(names@),
            out@ == names_report(v, dv, nv.take(i as int), all),
    {
        let ghost before = out@;
        proof {
            assert(nv.take(i + 1).drop_last() =~= nv.take(i as int));
            assert(nv.take(i + 1).last() == names@[i as int]@);
        }
        if i > 0 {
            out.append("\n");
        }
        assert(out@ =~= before + (if i > 0 {
            "\n"@
        } else {
            Seq::empty()
        }));
        let part = name_to_text(index, defs, &names[i], all);
        out.append(part.as_str());
    }
    assert(nv.take(nv.len() as int) =~= nv);
    out
}

/// A definition as a JSON object.
fn def_to_json(d: &DefInfo) -> (r: Json)
    ensures
        r.tree() == def_json(d@),
{
    let line = match d.line {
        Some(l) => Json::Number {
            whole: if l >= 0 {
                Some(l as u64)
            } else {
                None
            },
            text: text::signed_of(l as i64),
        },
        None => Json::Null,
    };
    let object = json::add_member(
        json::empty_object(),
        "file",
        json::text_value(d.file_path.as_str()),
    );
    let object = json::add_member(object, "line", line);
    let object = json::add_member(object, "kind", json::text_value(d.kind.as_str()));
    let object = json::add_member(object, "exported", Json::Bool(d.is_exported));
    let object = json::add_member(object, "signature", json::opt_text_value(&d.signature));
    assert(object.tree()->Object_0 =~= def_json(d@)->Object_0);
    object
}

/// What is said of one name as a JSON object.
fn name_to_json(index: &Index, defs: &Vec<DefInfo>, name: &String, all: bool) -> (r: Json)
    requires
        index.wf(),
    ensures
        r.tree() == name_json(index@, def_views(defs@), name@, all),
{
    let at = positions_named(defs, name);
    let paths = collect_references(index, defs, &at);
    let ghost pick = |i: usize| defs@[i as int]@;
    let ghost group = at@.map_values(pick);
    let ghost pv = text::views(paths@);
    let mut items: Vec<Json> = Vec::new();
    for k in 0..at.len()
        invariant
            forall|k: int| 0 <= k < at@.len() ==> #[trigger] at@[k] < defs@.len(),
            pick == (|i: usize| defs@[i as int]@),
            group == at@.map_values(pick),
            json::trees(items@) == defs_json(group.take(k as int)),
    {
        let i: usize = at[k];
        json::push_value(&mut items, def_to_json(&defs[i]));
        assert(defs_json(group.take(k + 1)) =~= defs_json(group.take(k as int)).push(
            def_json(defs@[i as int]@),
        ));
    }
    assert(group.take(group.len() as int) =~= group);
    let total: usize = paths.len();
    let show: usize = if all || total <= MAX_REFERENCES {
        total
    } else {
        MAX_REFERENCES
    };
    let mut shown: Vec<String> = Vec::new();
    for k in 0..show
        invariant
            show <= paths@.len(),
            pv == text::views(paths@),
            text::views(shown@) == pv.take(k as int),
    {
        let ghost before = text::views(shown@);
        shown.push(paths[k].clone());
        assert(text::views(shown@) =~= before.push(pv[k as int]));
        assert(pv.take(k + 1) =~= before.push(pv[k as int]));
    }
    let object = json::add_member(json::empty_object(), "name", json::text_value(name.as_str()));
    let object = json::add_member(object, "definitions", json::array_value(items));
    let object = json::add_member(object, "referenced_in", json::text_array(&shown));
    let object = json::add_member(object, "total_references", json::whole_value(total as u64));
    assert(object.tree()->Object_0 =~= name_json(index@, def_views(defs@), name@, all)->Object_0);
    object
}

/// The answer to a lookup of a pattern, given the definitions found.
pub fn report_symbols(
    index: &Index,
    defs: &Vec<DefInfo>,
    pattern: &str,
    all: bool,
    as_json: bool,
) -> (r: Output)
    requires
        index.wf(),
    ensures
        r@ == symbol_output(index@, def_views(defs@), pattern@, all, as_json),
{
    if defs.len() == 0 {
        if as_json {
            return Output::Stdout("[]\n".to_string());
        }
        return Output::Stderr(
            "No symbols matching '".to_string().concat(pattern).concat("'\n"),
        );
    }
    let names = collect_names(defs);
    if as_json {
        let ghost v = index@;
        let ghost dv = def_views(defs@);
        let ghost nv = text::views(names@);
        let mut items: Vec<Json> = Vec::new();
        for i in 0..names.len()
            invariant
                index.wf(),
                v == index@,
                dv == def_views(defs@),
                nv == text::views(names@),
                json::trees(items@) == names_json(v, dv, nv.take(i as int), all),
        {
            json::push_value(&mut items, name_to_json(index, defs, &names[i], all));
            assert(names_json(v, dv, nv.take(i + 1), all) =~= names_json(
                v,
                dv,
                nv.take(i as int),
                all,
            ).push(name_json(v, dv, names@[i as int]@, all)));
        }
        assert(nv.take(nv.len() as int) =~= nv);
        let list = json::array_value(items);
        Output::Stdout(json::to_pretty(&list).concat("\n"))
    } else {
        Output::Stdout(render_text(index, defs, &names, all))
    }
}

/// The definitions of some symbols that were found.
pub open spec fn definitions(found: Seq<SymbolResultView>, sources: Seq<Option<Seq<char>>>) -> Seq<
    DefView,
> {
    Seq::new(found.len(), |i: int| definition(found[i], sources[i]))
}

/// The answer to a lookup, given the symbols found and the sources of their files, where those can
/// be read.
pub fn run_symbol(
    index: &Index,
    found: &Vec<SymbolResult>,
    sources: &Vec<Option<String>>,
    pattern: &str,
    all: bool,
    as_json: bool,
) -> (r: Output)
    requires
        index.wf(),
        sources@.len() == found@.len(),
    ensures
        r@ == symbol_output(
            index@,
            definitions(queries::result_views(found@), crate::map::source_views(sources@)),
            pattern@,
            all,
            as_json,
        ),
{
    let ghost fv = queries::result_views(found@);
    let ghost sv = crate::map::source_views(sources@);
    let mut defs: Vec<DefInfo> = Vec::new();
    for i in 0..found.len()
        invariant
            sources@.len() == found@.len(),
            fv == queries::result_views(found@),
            sv == crate::map::source_views(sources@),
            defs@.len() == i,
            forall|k: int| 0 <= k < i ==> (#[trigger] defs@[k])@ == definition(fv[k], sv[k]),
    {
        let def = describe(&found[i], &sources[i]);
        assert(fv[i as int] == found@[i as int]@);
        assert(sv[i as int] == text::opt_view(sources@[i as int]));
        defs.push(def);
    }
    assert(def_views(defs@) =~= definitions(fv, sv));
    report_symbols(index, &defs, pattern, all, as_json)
}

// ---------------------------------------------------------------------------------------------
// What a report says
// ---------------------------------------------------------------------------------------------

/// The group of a name holds every definition of that name that was found, in their order, and no
/// other.
pub proof fn law_group_of_name(defs: Seq<DefView>, name: Seq<char>)
    ensures
        defs_named(defs, name) == defs.filter(|d: DefView| d.name == name),
{
    let keep = |d: DefView| d.name == name;
    lists::lemma_kept(
        defs,
        keep,
        |d: DefView| d,
        |s: Seq<DefView>| defs_named(s, name),
    );
    assert(defs.filter(keep).map_values(|d: DefView| d) =~= defs.filter(keep));
}

/// The names of some definitions.
proof fn lemma_names_of(defs: Seq<DefView>, name: Seq<char>)
    ensures
        names_of(defs).no_duplicates(),
        names_of(defs).contains(name) == exists|i: int|
            0 <= i < defs.len() && (#[trigger] defs[i]).name == name,
    decreases defs.len(),
{
    if defs.len() > 0 {
        let short = defs.drop_last();
        lemma_names_of(short, name);
        lemma_names_of(short, defs.last().name);
        let before = names_of(short);
        let after = names_of(defs);
        assert forall|a: int, b: int| 0 <= a < b < after.len() implies after[a] != after[b] by {
            if b == before.len() {
                assert(before.contains(before[a]));
            }
        }
        if before.contains(name) {
            let k = choose|k: int| 0 <= k < before.len() && before[k] == name;
            assert(after[k] == name);
            let i = choose|i: int| 0 <= i < short.len() && (#[trigger] short[i]).name == name;
            assert(defs[i].name == name);
        }
        if after.contains(name) && !before.contains(name) {
            let k = choose|k: int| 0 <= k < after.len() && after[k] == name;
            if k < before.len() {
                assert(before[k] == name);
            }
            assert(defs[defs.len() - 1].name == name);
        }
        if exists|i: int| 0 <= i < defs.len() && (#[trigger] defs[i]).name == name {
            let i = choose|i: int| 0 <= i < defs.len() && (#[trigger] defs[i]).name == name;
            if i < short.len() {
                assert(short[i].name == name);
            } else if !before.contains(name) {
                assert(after[before.len() as int] == name);
            }
        }
    }
}

/// The report has each name of a definition that was found once, in the order of the names.
pub proof fn law_names_listed(defs: Seq<DefView>, name: Seq<char>)
    ensures
        sorted_names(defs).contains(name) == exists|i: int|
            0 <= i < defs.len() && (#[trigger] defs[i]).name == name,
        sorted_names(defs).no_duplicates(),
        forall|a: int, b: int|
            0 <= a < b < sorted_names(defs).len() ==> order::name_less(
                #[trigger] sorted_names(defs)[a],
                #[trigger] sorted_names(defs)[b],
            ),
{
    let names = names_of(defs);
    let keys = name_keys(names);
    lemma_names_of(defs, name);
    order::law_sorted(keys);
    let order = order::order_of(keys);
    let sorted = sorted_names(defs);
    assert forall|a: int, b: int| 0 <= a < b < sorted.len() implies order::name_less(
        #[trigger] sorted[a],
        #[trigger] sorted[b],
    ) && sorted[a] != sorted[b] by {
        assert(keys[order[a]].0 == keys[order[b]].0);
        assert(names[order[a]] != names[order[b]]);
    }
    if names.contains(name) {
        let i = choose|i: int| 0 <= i < names.len() && names[i] == name;
        assert(order.contains(i));
        let k = choose|k: int| 0 <= k < order.len() && order[k] == i;
        assert(sorted[k] == name);
    }
    if sorted.contains(name) {
        let k = choose|k: int| 0 <= k < sorted.len() && sorted[k] == name;
        assert(names[order[k]] == name);
    }
}

/// A file uses a group of definitions if and only if it imports the file of one of them, and stands
/// in the list once.
pub proof fn law_references(v: IndexView, defs: Seq<DefView>, path: Seq<char>)
    ensures
        referencing(v, defs).contains(path) == exists|i: int|
            0 <= i < defs.len() && deps::leads_to(v, true, (#[trigger] defs[i]).file_path, path),
        referencing(v, defs).no_duplicates(),
{
    let paths = def_paths(defs);
    deps::law_next_level_complete(v, true, paths, Set::empty(), path);
    deps::law_files_left_once(v, true, paths, Set::empty());
    if referencing(v, defs).contains(path) {
        let i = choose|i: int|
            0 <= i < paths.len() && deps::leads_to(v, true, #[trigger] paths[i], path);
        assert(deps::leads_to(v, true, defs[i].file_path, path));
    }
    if exists|i: int|
        0 <= i < defs.len() && deps::leads_to(v, true, (#[trigger] defs[i]).file_path, path) {
        let i = choose|i: int|
            0 <= i < defs.len() && deps::leads_to(v, true, (#[trigger] defs[i]).file_path, path);
        assert(paths[i] == defs[i].file_path);
    }
}

/// The signature of a name is the first one that holds it.
pub proof fn law_signature_found(signatures: Seq<Seq<char>>, name: Seq<char>)
    ensures
        match signature_with(signatures, name) {
            Some(s) => exists|k: int|
                0 <= k < signatures.len() && signatures[k] == s && text::contains(
                    #[trigger] signatures[k],
                    name,
                ) && forall|j: int| 0 <= j < k ==> !text::contains(#[trigger] signatures[j], name),
            None => forall|j: int|
                0 <= j < signatures.len() ==> !text::contains(#[trigger] signatures[j], name),
        },
    decreases signatures.len(),
{
    if signatures.len() > 0 && !text::contains(signatures[0], name) {
        let rest = signatures.drop_first();
        law_signature_found(rest, name);
        match signature_with(rest, name) {
            Some(s) => {
                let k = choose|k: int|
                    0 <= k < rest.len() && rest[k] == s && text::contains(#[trigger] rest[k], name)
                        && forall|j: int|
                        0 <= j < k ==> !text::contains(#[trigger] rest[j], name);
                assert(signatures[k + 1] == s);
                assert forall|j: int| 0 <= j < k + 1 implies !text::contains(
                    #[trigger] signatures[j],
                    name,
                ) by {
                    if j > 0 {
                        assert(rest[j - 1] == signatures[j]);
                    }
                }
            },
            None => {
                assert forall|j: int| 0 <= j < signatures.len() implies !text::contains(
                    #[trigger] signatures[j],
                    name,
                ) by {
                    if j > 0 {
                        assert(rest[j - 1] == signatures[j]);
                    }
                }
            },
        }
    }
}

/// Each symbol that was found has a definition with its name, file, line, kind and visibility.
pub proof fn law_definitions(found: Seq<SymbolResultView>, sources: Seq<Option<Seq<char>>>, i: int)
    requires
        0 <= i < found.len(),
    ensures
        definitions(found, sources).len() == found.len(),
        definitions(found, sources)[i].name == found[i].name,
        definitions(found, sources)[i].file_path == found[i].file_path,
        definitions(found, sources)[i].line == found[i].line,
        definitions(found, sources)[i].kind == found[i].kind,
        definitions(found, sources)[i].is_exported == found[i].is_exported,
        definitions(found, sources)[i].signature == signature_with(
            crate::map::signatures_in(found[i].file_path, sources[i]),
            found[i].name,
        ),
{
}

/// The report on a name shows each definition of it with its file, line, visibility, kind and
/// signature, and then the files that use it.
pub proof fn law_report_on_name(v: IndexView, defs: Seq<DefView>, name: Seq<char>, all: bool)
    ensures
        ({
            let group = defs.filter(|d: DefView| d.name == name);
            name_report(v, defs, name, all) == name + "\n  Defined in:\n"@ + group.map_values(
                |d: DefView|
                    "    "@ + d.file_path + line_suffix(d.line) + "  ["@ + (if d.is_exported {
                        "exported"@
                    } else {
                        "local"@
                    }) + " "@ + d.kind + "]\n"@ + (match d.signature {
                        Some(s) => "      "@ + s + "\n"@,
                        None => Seq::empty(),
                    }),
            ).flatten() + reference_lines(referencing(v, group), all)
        }),
{
    law_group_of_name(defs, name);
    let group = defs.filter(|d: DefView| d.name == name);
    let line = |d: DefView|
        "    "@ + d.file_path + line_suffix(d.line) + "  ["@ + (if d.is_exported {
            "exported"@
        } else {
            "local"@
        }) + " "@ + d.kind + "]\n"@ + (match d.signature {
            Some(s) => "      "@ + s + "\n"@,
            None => Seq::empty(),
        });
    let whole = |s: Seq<DefView>| def_lines(s);
    assert forall|s: Seq<DefView>| #[trigger] whole(s) == (if s.len() == 0 {
        Seq::empty()
    } else {
        whole(s.drop_last()) + line(s.last())
    }) by {
        if s.len() > 0 {
            assert(def_text(s.last()) =~= line(s.last()));
        }
    }
    lists::lemma_parts(group, line, whole);
}

/// The files that use a definition each have a line: all of them where all are asked for or there
/// are at most five, else the first five, and how many more there are is told.
pub proof fn law_reference_lines(paths: Seq<Seq<char>>, all: bool)
    ensures
        paths.len() == 0 ==> reference_lines(paths, all) == Seq::<char>::empty(),
        paths.len() > 0 && (all || paths.len() <= 5) ==> reference_lines(paths, all)
            == "  Referenced in ("@ + text::decimal(paths.len()) + " files):\n"@ + paths.map_values(
            |p: Seq<char>| "    "@ + p + "\n"@,
        ).flatten(),
        !all && paths.len() > 5 ==> reference_lines(paths, all) == "  Referenced in ("@
            + text::decimal(paths.len()) + " files):\n"@ + paths.take(5).map_values(
            |p: Seq<char>| "    "@ + p + "\n"@,
        ).flatten() + ("    ... and "@ + text::decimal((paths.len() - 5) as nat)
            + " more (use --all to show all)\n"@),
{
    let line = |p: Seq<char>| "    "@ + p + "\n"@;
    let whole = |s: Seq<Seq<char>>| path_lines(s);
    assert forall|s: Seq<Seq<char>>| #[trigger] whole(s) == (if s.len() == 0 {
        Seq::empty()
    } else {
        whole(s.drop_last()) + line(s.last())
    }) by {
        if s.len() > 0 {
            assert(path_lines(s) =~= path_lines(s.drop_last()) + ("    "@ + s.last() + "\n"@));
        }
    }
    lists::lemma_parts(paths, line, whole);
    lists::lemma_parts(paths.take(5), line, whole);
    assert(paths.take(paths.len() as int) =~= paths);
    if paths.len() > 0 && (all || paths.len() <= 5) {
        assert(reference_lines(paths, all) =~= "  Referenced in ("@ + text::decimal(paths.len())
            + " files):\n"@ + path_lines(paths));
    }
}

/// The report has a part for each name, with an empty line between each two.
pub proof fn law_report_on_names(
    v: IndexView,
    defs: Seq<DefView>,
    names: Seq<Seq<char>>,
    all: bool,
)
    ensures
        names_report(v, defs, names, all) == text::join(
            names.map_values(|n: Seq<char>| name_report(v, defs, n, all)),
            "\n"@,
        ),
    decreases names.len(),
{
    let show = |n: Seq<char>| name_report(v, defs, n, all);
    if names.len() > 0 {
        let short = names.drop_last();
        law_report_on_names(v, defs, short, all);
        assert(names.map_values(show).drop_last() =~= short.map_values(show));
        if names.len() == 1 {
            assert(names_report(v, defs, short, all) =~= Seq::<char>::empty());
            assert(names_report(v, defs, names, all) =~= name_report(v, defs, names[0], all));
        }
    }
}

/// In JSON each name has all its definitions, the files that use them, all or at most five, and
/// their number.
pub proof fn law_report_json(v: IndexView, defs: Seq<DefView>, name: Seq<char>, all: bool)
    ensures
        ({
            let group = defs.filter(|d: DefView| d.name == name);
            let paths = referencing(v, group);
            let shown = if all || paths.len() <= 5 {
                paths
            } else {
                paths.take(5)
            };
            name_json(v, defs, name, all) == JsonView::Object(
                seq![
                    ("name"@, JsonView::Text(name)),
                    (
                        "definitions"@,
                        JsonView::Array(
                            group.map_values(
                                |d: DefView|
                                    JsonView::Object(
                                        seq![
                                            ("file"@, JsonView::Text(d.file_path)),
                                            ("line"@, line_json(d.line)),
                                            ("kind"@, JsonView::Text(d.kind)),
                                            ("exported"@, JsonView::Bool(d.is_exported)),
                                            (
                                                "signature"@,
                                                match d.signature {
                                                    Some(s) => JsonView::Text(s),
                                                    None => JsonView::Null,
                                                },
                                            ),
                                        ],
                                    ),
                            ),
                        ),
                    ),
                    (
                        "referenced_in"@,
                        JsonView::Array(shown.map_values(|p: Seq<char>| JsonView::Text(p))),
                    ),
                    ("total_references"@, json::whole_view(paths.len() as u64)),
                ],
            )
        }),
{
    law_group_of_name(defs, name);
    let group = defs.filter(|d: DefView| d.name == name);
    let paths = referencing(v, group);
    assert(paths.take(paths.len() as int) =~= paths);
    let show = |d: DefView|
        JsonView::Object(
            seq![
                ("file"@, JsonView::Text(d.file_path)),
                ("line"@, line_json(d.line)),
                ("kind"@, JsonView::Text(d.kind)),
                ("exported"@, JsonView::Bool(d.is_exported)),
                (
                    "signature"@,
                    match d.signature {
                        Some(s) => JsonView::Text(s),
                        None => JsonView::Null,
                    },
                ),
            ],
        );
    assert forall|d: DefView| #[trigger] def_json(d) == show(d) by {
        assert(def_json(d)->Object_0 =~= show(d)->Object_0);
    }
    assert(defs_json(group) =~= group.map_values(show));
}

/// A line that is known is told behind a colon, and as a number in JSON; one that is not is left
/// out, and nothing in JSON.
pub proof fn law_line_told(line: i32)
    ensures
        line_suffix(None).len() == 0,
        line_suffix(Some(line)) == ":"@ + text::signed(line as int),
        line_json(None) == JsonView::Null,
        line >= 0 ==> line_json(Some(line)) == json::whole_view(line as u64),
{
}

}
