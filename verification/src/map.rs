//! The code map: signatures of the files that matter most, within a budget.
use vstd::prelude::*;

use crate::db;
use crate::db::{Index, IndexView, RankedFileWithEnrichment};
use crate::lists;
use crate::output::{Output, OutputView};
use crate::parser;
use crate::queries;
use crate::queries::{DepView, RankedView};
use crate::syntax;
use crate::text;

verus! {

/// The commands that a map names at its end.
pub const INSTRUCTIONS: &'static str = "\n## Codemap Commands\n\
         Run these in Bash for deeper codebase queries:\n\
         - `codemap deps <file>` — imports and importers of a file\n\
         - `codemap symbol <name>` — find where a symbol is defined and who uses it\n\
         - `codemap context \"<task>\"` — suggest the most relevant files for a task\n\
         - `codemap map --tokens 3000` — regenerate this map with a larger budget\n";

/// How many files a map looks at.
pub const MAP_FILES: usize = 500;

/// The files that a map looks at, those of the larger ranks first.
pub fn map_files(index: &Index) -> (r: Vec<RankedFileWithEnrichment>)
    requires
        index.wf(),
    ensures
        queries::ranked_views(r@) == queries::top_ranked(index@.files, 500),
{
    queries::get_ranked_files_with_enrichment(index, MAP_FILES)
}

/// The head of a map.
pub open spec fn map_header(version: Seq<char>, files: nat, exports: nat, edges: nat) -> Seq<char> {
    "## Codebase Map (codemap v"@ + version + ")\nIndexed "@ + text::decimal(files) + " files | "@
        + text::decimal(exports) + " exports | "@ + text::decimal(edges)
        + " import edges\nTop files by structural importance (PageRank):\n\n"@
}

/// The lines of some signatures.
pub open spec fn signature_lines(signatures: Seq<Seq<char>>) -> Seq<char>
    decreases signatures.len(),
{
    if signatures.len() == 0 {
        Seq::empty()
    } else {
        signature_lines(signatures.drop_last()) + "  "@ + signatures.last() + "\n"@
    }
}

/// The line on the imports of a file: at most five of them.
pub open spec fn imports_line(imports: Seq<Seq<char>>) -> Seq<char> {
    if imports.len() == 0 {
        Seq::empty()
    } else {
        "  → imports: "@ + text::join(queries::first(imports, 5), ", "@) + "\n"@
    }
}

/// The part of a map on one file.
pub open spec fn map_entry(
    path: Seq<char>,
    rank_text: Seq<char>,
    importers: nat,
    signatures: Seq<Seq<char>>,
    imports: Seq<Seq<char>>,
) -> Seq<char> {
    path + " [rank: "@ + rank_text + " | "@ + text::decimal(importers) + " importers]\n"@
        + signature_lines(signatures) + imports_line(imports) + "\n"@
}

/// The paths at the other ends of some edges.
pub open spec fn dep_paths(deps: Seq<DepView>) -> Seq<Seq<char>> {
    deps.map_values(|d: DepView| d.file_path)
}

/// A map in the making: its text, the bytes counted against the budget, and whether it is full.
#[verifier::ext_equal]
pub struct MapState {
    pub text: Seq<char>,
    pub used: nat,
    pub full: bool,
}

/// A map after one more entry: a map that has no byte left for it is full.
pub open spec fn with_entry(state: MapState, entry: Seq<char>, reserved: nat, budget: nat) -> MapState {
    if state.used + text::byte_len(entry) + reserved > budget {
        MapState { full: true, ..state }
    } else {
        MapState {
            text: state.text + entry,
            used: state.used + text::byte_len(entry),
            full: false,
        }
    }
}

/// A map after one more file: a file without source or without signatures leaves it as it is.
pub open spec fn with_file(
    state: MapState,
    v: IndexView,
    file: RankedView,
    rank_text: Seq<char>,
    source: Option<Seq<char>>,
    signatures: Seq<Seq<char>>,
    reserved: nat,
    budget: nat,
) -> MapState {
    if state.full {
        state
    } else if state.used + reserved >= budget {
        MapState { full: true, ..state }
    } else if source is None || signatures.len() == 0 {
        state
    } else {
        with_entry(
            state,
            map_entry(
                file.path,
                rank_text,
                queries::count_to(v.edges, file.id),
                signatures,
                dep_paths(queries::deps_of(v, file.path, false)),
            ),
            reserved,
            budget,
        )
    }
}

/// The signatures of a source under a path.
pub open spec fn signatures_in(path: Seq<char>, source: Option<Seq<char>>) -> Seq<Seq<char>> {
    match source {
        Some(s) => match syntax::module_syntax(path, s) {
            Some(module) => parser::module_signatures(
                module.body,
                parser::source_lines(s),
                vstd::utf8::encode_utf8(s),
            ),
            None => Seq::empty(),
        },
        None => Seq::empty(),
    }
}

/// A map after some files.
pub open spec fn with_files(
    state: MapState,
    v: IndexView,
    files: Seq<RankedView>,
    rank_texts: Seq<Seq<char>>,
    sources: Seq<Option<Seq<char>>>,
    reserved: nat,
    budget: nat,
) -> MapState
    decreases files.len(),
{
    if files.len() == 0 {
        state
    } else {
        let before = with_files(
            state,
            v,
            files.drop_last(),
            rank_texts,
            sources,
            reserved,
            budget,
        );
        let i = files.len() - 1;
        with_file(
            before,
            v,
            files.last(),
            rank_texts[i],
            sources[i],
            signatures_in(files.last().path, sources[i]),
            reserved,
            budget,
        )
    }
}

/// The commands that a map names at its end, if it names them.
pub open spec fn footer(with_instructions: bool) -> Seq<char> {
    if with_instructions {
        INSTRUCTIONS@
    } else {
        ""@
    }
}

/// The map of a project: its head, an entry for each file as long as the budget of four bytes per
/// token has room for it and the commands at the end, and those commands.
pub open spec fn map_text(
    v: IndexView,
    files: Seq<RankedView>,
    rank_texts: Seq<Seq<char>>,
    sources: Seq<Option<Seq<char>>>,
    version: Seq<char>,
    tokens: nat,
    with_instructions: bool,
) -> Seq<char> {
    let header = map_header(
        version,
        v.files.len(),
        queries::count_exported(v.symbols),
        v.edges.len(),
    );
    let start = MapState { text: header, used: text::byte_len(header), full: false };
    let reserved = text::byte_len(footer(with_instructions));
    with_files(start, v, files, rank_texts, sources, reserved, tokens * 4).text + footer(
        with_instructions,
    )
}

/// Appends the lines of some signatures.
fn append_signatures(out: &mut String, signatures: &Vec<String>)
    ensures
        final(out)@ == old(out)@ + signature_lines(text::views(signatures@)),
{
    let ghost start = out@;
    let ghost all = text::views(signatures@);
    assert(all.take(0) =~= Seq::<Seq<char>>::empty());
    assert(out@ =~= start + signature_lines(all.take(0)));
    for i in 0..signatures.len()
        invariant
            all == text::views(signatures@),
            out@ == start + signature_lines(all.take(i as int)),
    {
        proof {
            assert(all.take(i + 1).drop_last() =~= all.take(i as int));
            assert(all.take(i + 1).last() == signatures@[i as int]@);
        }
        out.append("  ");
        out.append(signatures[i].as_str());
        out.append("\n");
        assert(out@ =~= start + signature_lines(all.take(i + 1)));
    }
    assert(all.take(all.len() as int) =~= all);
}

/// The part of a map on one file.
pub fn render_entry(
    path: &str,
    rank_text: &str,
    importers: u64,
    signatures: &Vec<String>,
    imports: &Vec<String>,
) -> (r: String)
    ensures
        r@ == map_entry(
            path@,
            rank_text@,
            importers as nat,
            text::views(signatures@),
            text::views(imports@),
        ),
{
    let mut out = path.to_string();
    out.append(" [rank: ");
    out.append(rank_text);
    out.append(" | ");
    out.append(text::decimal_of(importers).as_str());
    out.append(" importers]\n");
    append_signatures(&mut out, signatures);
    let ghost before = out@;
    if imports.len() > 0 {
        let n: usize = if imports.len() < 5 {
            imports.len()
        } else {
            5
        };
        assert(queries::first(text::views(imports@), 5) =~= text::views(imports@).take(n as int));
        out.append("  → imports: ");
        out.append(text::join_first(imports, n, ", ").as_str());
        out.append("\n");
    }
    assert(out@ =~= before + imports_line(text::views(imports@)));
    out.append("\n");
    out
}

/// The paths that a file imports.
fn imported_paths(index: &Index, path: &str) -> (r: Vec<String>)
    requires
        index.wf(),
    ensures
        text::views(r@) == dep_paths(queries::deps_of(index@, path@, false)),
{
    proof {
        reveal_strlit("imports");
        reveal_strlit("importers");
        assert("imports"@.len() != "importers"@.len());
    }
    let deps = queries::get_file_deps(index, path, "imports");
    let ghost dv = queries::dep_views(deps@);
    let mut out: Vec<String> = Vec::new();
    for i in 0..deps.len()
        invariant
            dv == queries::dep_views(deps@),
            text::views(out@) == dep_paths(dv.take(i as int)),
    {
        let ghost before = text::views(out@);
        out.push(deps[i].file_path.clone());
        proof {
            assert(dv[i as int] == deps@[i as int]@);
            assert(text::views(out@) =~= before.push(deps@[i as int].file_path@));
            assert(dep_paths(dv.take(i + 1)) =~= before.push(deps@[i as int].file_path@));
        }
    }
    assert(dv.take(dv.len() as int) =~= dv);
    out
}

/// What some sources hold.
pub open spec fn source_views(v: Seq<Option<String>>) -> Seq<Option<Seq<char>>> {
    v.map_values(|s: Option<String>| text::opt_view(s))
}

/// How many edges lead to a file is at most how many there are.
proof fn lemma_importers(edges: Seq<db::EdgeView>, id: i64)
    ensures
        queries::count_to(edges, id) <= edges.len(),
    decreases edges.len(),
{
    if edges.len() > 0 {
        lemma_importers(edges.drop_last(), id);
    }
}

/// The map of a project. `rank_texts` holds the ranks of the files in writing, `sources` what their
/// files on disk hold, where they can be read.
pub fn generate_map(
    index: &Index,
    files: &Vec<RankedFileWithEnrichment>,
    rank_texts: &Vec<String>,
    sources: &Vec<Option<String>>,
    version: &str,
    tokens: usize,
    with_instructions: bool,
) -> (r: String)
    requires
        index.wf(),
        rank_texts@.len() == files@.len(),
        sources@.len() == files@.len(),
    ensures
        r@ == map_text(
            index@,
            queries::ranked_views(files@),
            text::views(rank_texts@),
            source_views(sources@),
            version@,
            tokens as nat,
            with_instructions,
        ),
{
    let ghost v = index@;
    let ghost fv = queries::ranked_views(files@);
    let ghost rv = text::views(rank_texts@);
    let ghost sv = source_views(sources@);
    let budget: u128 = tokens as u128 * 4;
    let (file_count, export_count, edge_count) = queries::get_stats(index);
    let mut out = "## Codebase Map (codemap v".to_string();
    out.append(version);
    out.append(")\nIndexed ");
    out.append(text::decimal_of(file_count as u64).as_str());
    out.append(" files | ");
    out.append(text::decimal_of(export_count as u64).as_str());
    out.append(" exports | ");
    out.append(text::decimal_of(edge_count as u64).as_str());
    out.append(" import edges\nTop files by structural importance (PageRank):\n\n");
    let ghost header = map_header(
        version@,
        v.files.len(),
        queries::count_exported(v.symbols),
        v.edges.len(),
    );
    assert(out@ == header);
    let instructions: &str = if with_instructions {
        INSTRUCTIONS
    } else {
        ""
    };
    let reserved: u128 = text::bytes_in(instructions) as u128;
    let mut used: u128 = text::bytes_in(out.as_str()) as u128;
    let mut full = false;
    let counts = queries::get_importer_counts(index);
    let ghost start = MapState { text: header, used: text::byte_len(header), full: false };
    assert(fv.take(0) =~= Seq::<RankedView>::empty());
    let mut i: usize = 0;
    while i < files.len() && !full
        invariant
            index.wf(),
            v == index@,
            fv == queries::ranked_views(files@),
            rv == text::views(rank_texts@),
            sv == source_views(sources@),
            rank_texts@.len() == files@.len(),
            sources@.len() == files@.len(),
            i <= files@.len(),
            reserved <= usize::MAX,
            budget <= 4 * usize::MAX,
            used <= usize::MAX || used <= budget,
            forall|id: i64| #[trigger]
                counts@.contains_key(id) == (queries::count_to(v.edges, id) > 0),
            forall|id: i64|
                counts@.contains_key(id) ==> #[trigger] counts@[id] == queries::count_to(
                    v.edges,
                    id,
                ),
            with_files(start, v, fv.take(i as int), rv, sv, reserved as nat, budget as nat) == (
            MapState { text: out@, used: used as nat, full }),
        decreases files@.len() - i,
    {
        broadcast use vstd::std_specs::hash::group_hash_axioms;

        let file = &files[i];
        proof {
            assert(fv.take(i + 1).drop_last() =~= fv.take(i as int));
            assert(fv.take(i + 1).last() == file@);
            assert(rv[i as int] == rank_texts@[i as int]@);
            assert(sv[i as int] == text::opt_view(sources@[i as int]));
        }
        if used + reserved >= budget {
            full = true;
        } else {
            match &sources[i] {
                Some(source) => {
                    let signatures = parser::extract_signatures(
                        file.path.as_str(),
                        source.as_str(),
                    );
                    if signatures.len() > 0 {
                        let imports = imported_paths(index, file.path.as_str());
                        let importers: i64 = match counts.get(&file.id) {
                            Some(n) => *n,
                            None => 0,
                        };
                        proof {
                            lemma_importers(v.edges, file.id);
                        }
                        assert(importers == queries::count_to(v.edges, file.id));
                        let entry = render_entry(
                            file.path.as_str(),
                            rank_texts[i].as_str(),
                            importers as u64,
                            &signatures,
                            &imports,
                        );
                        let size: u128 = text::bytes_in(entry.as_str()) as u128;
                        if used + size + reserved > budget {
                            full = true;
                        } else {
                            used = used + size;
                            out.append(entry.as_str());
                        }
                    }
                },
                None => {},
            }
        }
        i += 1;
    }
    proof {
        if full {
            lemma_full_stays(start, v, fv, rv, sv, reserved as nat, budget as nat, i as int);
        } else {
            assert(fv.take(i as int) =~= fv);
        }
    }
    out.append(instructions);
    out
}

/// A map that is full stays as it is.
proof fn lemma_full_stays(
    state: MapState,
    v: IndexView,
    files: Seq<RankedView>,
    rank_texts: Seq<Seq<char>>,
    sources: Seq<Option<Seq<char>>>,
    reserved: nat,
    budget: nat,
    n: int,
)
    requires
        0 <= n <= files.len(),
        with_files(state, v, files.take(n), rank_texts, sources, reserved, budget).full,
    ensures
        with_files(state, v, files, rank_texts, sources, reserved, budget) == with_files(
            state,
            v,
            files.take(n),
            rank_texts,
            sources,
            reserved,
            budget,
        ),
    decreases files.len(),
{
    if n == files.len() {
        assert(files.take(n) =~= files);
    } else {
        assert(files.drop_last().take(n) =~= files.take(n));
        lemma_full_stays(
            state,
            v,
            files.drop_last(),
            rank_texts,
            sources,
            reserved,
            budget,
            n,
        );
    }
}

/// The bytes of a text that follows another.
proof fn lemma_byte_len_concat(a: Seq<char>, b: Seq<char>)
    ensures
        text::byte_len(a + b) == text::byte_len(a) + text::byte_len(b),
    decreases a.len(),
{
    reveal_with_fuel(vstd::utf8::encode_utf8, 2);
    if a.len() == 0 {
        assert(a + b =~= b);
        assert(vstd::utf8::encode_utf8(a) =~= Seq::<u8>::empty());
    } else {
        lemma_byte_len_concat(a.drop_first(), b);
        assert((a + b).drop_first() =~= a.drop_first() + b);
        assert((a + b)[0] == a[0]);
    }
}

/// The bytes counted are those of the text, and no entry takes a map beyond its budget.
proof fn lemma_with_files_fits(
    state: MapState,
    v: IndexView,
    files: Seq<RankedView>,
    rank_texts: Seq<Seq<char>>,
    sources: Seq<Option<Seq<char>>>,
    reserved: nat,
    budget: nat,
)
    requires
        state.used == text::byte_len(state.text),
    ensures
        ({
            let after = with_files(state, v, files, rank_texts, sources, reserved, budget);
            &&& after.used == text::byte_len(after.text)
            &&& after.text == state.text || after.used + reserved <= budget
        }),
    decreases files.len(),
{
    if files.len() > 0 {
        lemma_with_files_fits(
            state,
            v,
            files.drop_last(),
            rank_texts,
            sources,
            reserved,
            budget,
        );
        let before = with_files(
            state,
            v,
            files.drop_last(),
            rank_texts,
            sources,
            reserved,
            budget,
        );
        let i = files.len() - 1;
        let file = files.last();
        let entry = map_entry(
            file.path,
            rank_texts[i],
            queries::count_to(v.edges, file.id),
            signatures_in(file.path, sources[i]),
            dep_paths(queries::deps_of(v, file.path, false)),
        );
        lemma_byte_len_concat(before.text, entry);
    }
}

/// A map keeps to its budget of four bytes per token, unless its head and the commands at its end
/// alone take more.
pub proof fn law_map_fits_budget(
    v: IndexView,
    files: Seq<RankedView>,
    rank_texts: Seq<Seq<char>>,
    sources: Seq<Option<Seq<char>>>,
    version: Seq<char>,
    tokens: nat,
    with_instructions: bool,
)
    ensures
        ({
            let map = map_text(
                v,
                files,
                rank_texts,
                sources,
                version,
                tokens,
                with_instructions,
            );
            let header = map_header(
                version,
                v.files.len(),
                queries::count_exported(v.symbols),
                v.edges.len(),
            );
            text::byte_len(map) <= tokens * 4 || map == header + footer(with_instructions)
        }),
{
    let header = map_header(
        version,
        v.files.len(),
        queries::count_exported(v.symbols),
        v.edges.len(),
    );
    let start = MapState { text: header, used: text::byte_len(header), full: false };
    let reserved = text::byte_len(footer(with_instructions));
    lemma_with_files_fits(start, v, files, rank_texts, sources, reserved, tokens * 4);
    let after = with_files(start, v, files, rank_texts, sources, reserved, tokens * 4);
    lemma_byte_len_concat(after.text, footer(with_instructions));
}

// ---------------------------------------------------------------------------------------------
// What a map says
// ---------------------------------------------------------------------------------------------

/// The lines of signatures: each signature on a line of its own behind two blanks, in their order.
pub proof fn law_each_signature_has_a_line(signatures: Seq<Seq<char>>)
    ensures
        signature_lines(signatures) == signatures.map_values(
            |s: Seq<char>| "  "@ + s + "\n"@,
        ).flatten(),
        forall|k: int|
            0 <= k < signatures.len() ==> text::contains(
                signature_lines(signatures),
                "  "@ + #[trigger] signatures[k] + "\n"@,
            ),
{
    let line = |s: Seq<char>| "  "@ + s + "\n"@;
    let whole = |s: Seq<Seq<char>>| signature_lines(s);
    assert forall|s: Seq<Seq<char>>| #[trigger] whole(s) == (if s.len() == 0 {
        Seq::empty()
    } else {
        whole(s.drop_last()) + line(s.last())
    }) by {
        if s.len() > 0 {
            assert(signature_lines(s.drop_last()) + "  "@ + s.last() + "\n"@ =~= signature_lines(
                s.drop_last(),
            ) + ("  "@ + s.last() + "\n"@));
        }
    }
    lists::lemma_parts(signatures, line, whole);
    let parts = signatures.map_values(line);
    assert forall|k: int| 0 <= k < signatures.len() implies text::contains(
        signature_lines(signatures),
        "  "@ + #[trigger] signatures[k] + "\n"@,
    ) by {
        lists::lemma_part_stands(parts, k);
        assert(parts[k] == line(signatures[k]));
        let before = parts.take(k).flatten();
        assert(signature_lines(signatures).subrange(
            before.len() as int,
            (before.len() + parts[k].len()) as int,
        ) =~= parts[k]);
        assert(text::occurs_at(signature_lines(signatures), parts[k], before.len() as int));
    }
}

/// The entry of a file begins with its path and holds each of its signatures, each on a line of its
/// own behind two blanks and in their order; what stands before and behind them is the same
/// whatever the signatures are.
pub proof fn law_entry_holds_signatures(
    path: Seq<char>,
    rank_text: Seq<char>,
    importers: nat,
    signatures: Seq<Seq<char>>,
    imports: Seq<Seq<char>>,
) -> (r: (Seq<char>, Seq<char>))
    ensures
        path.is_prefix_of(r.0),
        text::contains(r.0, rank_text),
        text::contains(r.0, text::decimal(importers)),
        forall|shown: Seq<Seq<char>>| #[trigger]
            map_entry(path, rank_text, importers, shown, imports) == r.0 + shown.map_values(
                |s: Seq<char>| "  "@ + s + "\n"@,
            ).flatten() + r.1,
        imports.len() == 0 ==> r.1 == "\n"@,
        0 < imports.len() <= 5 ==> r.1 == "  → imports: "@ + text::join(imports, ", "@) + "\n"@
            + "\n"@,
        imports.len() > 5 ==> r.1 == "  → imports: "@ + text::join(imports.take(5), ", "@) + "\n"@
            + "\n"@,
{
    let first = path + " [rank: "@;
    let second = first + rank_text + " | "@;
    let head = second + text::decimal(importers) + " importers]\n"@;
    let tail = imports_line(imports) + "\n"@;
    assert(path =~= head.take(path.len() as int));
    assert(head.subrange(first.len() as int, (first.len() + rank_text.len()) as int) =~= rank_text);
    assert(text::occurs_at(head, rank_text, first.len() as int));
    let n = text::decimal(importers);
    assert(head.subrange(second.len() as int, (second.len() + n.len()) as int) =~= n);
    assert(text::occurs_at(head, n, second.len() as int));
    assert forall|shown: Seq<Seq<char>>| #[trigger]
        map_entry(path, rank_text, importers, shown, imports) == head + shown.map_values(
            |s: Seq<char>| "  "@ + s + "\n"@,
        ).flatten() + tail by {
        law_each_signature_has_a_line(shown);
        assert(map_entry(path, rank_text, importers, shown, imports) =~= head + signature_lines(
            shown,
        ) + tail);
    }
    assert(tail =~= if imports.len() == 0 {
        "\n"@
    } else {
        "  → imports: "@ + text::join(queries::first(imports, 5), ", "@) + "\n"@ + "\n"@
    });
    (head, tail)
}

/// The entry of a file at a position, or nothing where the file has no source or no signatures.
pub open spec fn entry_at(
    v: IndexView,
    files: Seq<RankedView>,
    rank_texts: Seq<Seq<char>>,
    sources: Seq<Option<Seq<char>>>,
    i: int,
) -> Seq<char> {
    let signatures = signatures_in(files[i].path, sources[i]);
    if sources[i] is None || signatures.len() == 0 {
        Seq::empty()
    } else {
        map_entry(
            files[i].path,
            rank_texts[i],
            v.edges.filter(|e: db::EdgeView| e.target_id == files[i].id).len(),
            signatures,
            queries::deps_of(v, files[i].path, false).map_values(|d: DepView| d.file_path),
        )
    }
}

/// The entries of the first files.
pub open spec fn entries_up_to(
    v: IndexView,
    files: Seq<RankedView>,
    rank_texts: Seq<Seq<char>>,
    sources: Seq<Option<Seq<char>>>,
    n: nat,
) -> Seq<char> {
    Seq::new(n, |i: int| entry_at(v, files, rank_texts, sources, i)).flatten()
}

/// One entry more.
proof fn lemma_one_entry_more(
    v: IndexView,
    files: Seq<RankedView>,
    rank_texts: Seq<Seq<char>>,
    sources: Seq<Option<Seq<char>>>,
    n: nat,
)
    ensures
        entries_up_to(v, files, rank_texts, sources, n + 1) == entries_up_to(
            v,
            files,
            rank_texts,
            sources,
            n,
        ) + entry_at(v, files, rank_texts, sources, n as int),
{
    let before = Seq::new(n, |i: int| entry_at(v, files, rank_texts, sources, i));
    before.lemma_flatten_push(entry_at(v, files, rank_texts, sources, n as int));
    assert(Seq::new(n + 1, |i: int| entry_at(v, files, rank_texts, sources, i)) =~= before.push(
        entry_at(v, files, rank_texts, sources, n as int),
    ));
}

/// A map after some files holds the entries of the first of them, and it is full where the next one
/// has no room.
proof fn lemma_map_of_first(
    state: MapState,
    v: IndexView,
    files: Seq<RankedView>,
    rank_texts: Seq<Seq<char>>,
    sources: Seq<Option<Seq<char>>>,
    reserved: nat,
    budget: nat,
    m: nat,
) -> (n: nat)
    requires
        m <= files.len(),
        !state.full,
        state.used == text::byte_len(state.text),
    ensures
        ({
            let after = with_files(
                state,
                v,
                files.take(m as int),
                rank_texts,
                sources,
                reserved,
                budget,
            );
            let text = state.text + entries_up_to(v, files, rank_texts, sources, n);
            &&& n <= m
            &&& after.text == text
            &&& after.used == text::byte_len(text)
            &&& after.full == (n < m)
            &&& n < m ==> text::byte_len(text) + reserved >= budget || text::byte_len(
                text + entry_at(v, files, rank_texts, sources, n as int),
            ) + reserved > budget
        }),
    decreases m,
{
    if m == 0 {
        assert(files.take(0) =~= Seq::<RankedView>::empty());
        assert(Seq::new(0, |i: int| entry_at(v, files, rank_texts, sources, i)) =~= Seq::<
            Seq<char>,
        >::empty());
        assert(state.text + entries_up_to(v, files, rank_texts, sources, 0) =~= state.text);
        0
    } else {
        let short = (m - 1) as nat;
        let n = lemma_map_of_first(
            state,
            v,
            files,
            rank_texts,
            sources,
            reserved,
            budget,
            short,
        );
        assert(files.take(m as int).drop_last() =~= files.take(short as int));
        assert(files.take(m as int).last() == files[short as int]);
        if n < short {
            n
        } else {
            let text = state.text + entries_up_to(v, files, rank_texts, sources, n);
            let entry = entry_at(v, files, rank_texts, sources, n as int);
            queries::law_importers_counted(v.edges, files[n as int].id);
            lemma_one_entry_more(v, files, rank_texts, sources, n);
            lemma_byte_len_concat(text, entry);
            assert(text + entry =~= state.text + (entries_up_to(v, files, rank_texts, sources, n)
                + entry));
            assert(dep_paths(queries::deps_of(v, files[n as int].path, false)) =~= queries::deps_of(
                v,
                files[n as int].path,
                false,
            ).map_values(|d: DepView| d.file_path));
            if text::byte_len(text) + reserved >= budget {
                n
            } else if sources[n as int] is None || signatures_in(
                files[n as int].path,
                sources[n as int],
            ).len() == 0 {
                assert(text + entry =~= text);
                n + 1
            } else if text::byte_len(text + entry) + reserved > budget {
                n
            } else {
                n + 1
            }
        }
    }
}

/// A map is its head, the entries of the first files in their order, and the commands at the end.
/// All files have their entries, unless the budget of four bytes per token has no room for the next
/// one. The head counts the files, the exported symbols and the edges.
pub proof fn law_map_lists_files(
    v: IndexView,
    files: Seq<RankedView>,
    rank_texts: Seq<Seq<char>>,
    sources: Seq<Option<Seq<char>>>,
    version: Seq<char>,
    tokens: nat,
    with_instructions: bool,
) -> (n: nat)
    ensures
        n <= files.len(),
        ({
            let head = "## Codebase Map (codemap v"@ + version + ")\nIndexed "@ + text::decimal(
                v.files.len(),
            ) + " files | "@ + text::decimal(
                v.symbols.filter(|s: db::SymbolView| s.is_exported).len(),
            ) + " exports | "@ + text::decimal(v.edges.len())
                + " import edges\nTop files by structural importance (PageRank):\n\n"@;
            let shown = head + entries_up_to(v, files, rank_texts, sources, n);
            let foot = if with_instructions {
                INSTRUCTIONS@
            } else {
                Seq::empty()
            };
            &&& map_text(v, files, rank_texts, sources, version, tokens, with_instructions) == shown
                + foot
            &&& n < files.len() ==> text::byte_len(shown) + text::byte_len(foot) >= 4 * tokens
                || text::byte_len(shown + entry_at(v, files, rank_texts, sources, n as int))
                + text::byte_len(foot) > 4 * tokens
        }),
{
    let header = map_header(
        version,
        v.files.len(),
        queries::count_exported(v.symbols),
        v.edges.len(),
    );
    queries::law_exported_counted(v.symbols);
    let start = MapState { text: header, used: text::byte_len(header), full: false };
    let reserved = text::byte_len(footer(with_instructions));
    reveal_strlit("");
    assert(""@ =~= Seq::<char>::empty());
    assert(files.take(files.len() as int) =~= files);
    lemma_map_of_first(
        start,
        v,
        files,
        rank_texts,
        sources,
        reserved,
        tokens * 4,
        files.len(),
    )
}

/// The map of a project as a command gives it: a note if there are no files.
pub fn run_map(
    index: &Index,
    files: &Vec<RankedFileWithEnrichment>,
    rank_texts: &Vec<String>,
    sources: &Vec<Option<String>>,
    version: &str,
    tokens: usize,
    no_instructions: bool,
) -> (r: Output)
    requires
        index.wf(),
        rank_texts@.len() == files@.len(),
        sources@.len() == files@.len(),
    ensures
        r@ == (if files@.len() == 0 {
            OutputView::Stderr("codemap: index is empty\n"@)
        } else {
            OutputView::Stdout(
                map_text(
                    index@,
                    queries::ranked_views(files@),
                    text::views(rank_texts@),
                    source_views(sources@),
                    version@,
                    tokens as nat,
                    !no_instructions,
                ),
            )
        }),
{
    if files.len() == 0 {
        return Output::Stderr("codemap: index is empty\n".to_string());
    }
    Output::Stdout(
        generate_map(index, files, rank_texts, sources, version, tokens, !no_instructions),
    )
}

/// The signatures of a file are those of its module, by its own lines and bytes; a file that could
/// not be read or parsed has none.
pub proof fn law_signatures_in(path: Seq<char>, source: Seq<char>)
    ensures
        signatures_in(path, None).len() == 0,
        match syntax::module_syntax(path, source) {
            Some(module) => signatures_in(path, Some(source)) == parser::module_signatures(
                module.body,
                text::split_by(source, text::CharClass::Is('\n')),
                vstd::utf8::encode_utf8(source),
            ),
            None => signatures_in(path, Some(source)).len() == 0,
        },
{
}

/// A map looks at the first five hundred files.
pub proof fn law_map_files(files: Seq<db::FileView>)
    ensures
        queries::top_ranked(files, MAP_FILES as nat).len() == vstd::math::min(
            files.len() as int,
            500,
        ),
{
    queries::law_top_ranked(files, MAP_FILES as nat);
}

}
