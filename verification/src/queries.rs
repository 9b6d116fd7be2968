//! Questions to the index: symbols by name, dependencies of a file, ranked files.
use std::collections::HashMap;

use vstd::prelude::*;

use crate::db;
use crate::db::{EdgeRow, EdgeView, FileRow, FileView, Index, IndexView, SymbolRow, SymbolView};
use crate::lists;
use crate::order;
use crate::order::SortKey;
use crate::text;

verus! {

// ---------------------------------------------------------------------------------------------
// Symbols by name
// ---------------------------------------------------------------------------------------------

/// A symbol that was found.
#[derive(Debug)]
pub struct SymbolResult {
    pub name: String,
    pub kind: String,
    pub file_path: String,
    pub line: Option<i32>,
    pub is_exported: bool,
    pub ref_count: i64,
}

/// What is said of a symbol that was found.
#[verifier::ext_equal]
pub struct SymbolResultView {
    pub name: Seq<char>,
    pub kind: Seq<char>,
    pub file_path: Seq<char>,
    pub line: Option<i32>,
    pub is_exported: bool,
    pub ref_count: i64,
}

impl View for SymbolResult {
    type V = SymbolResultView;

    open spec fn view(&self) -> SymbolResultView {
        SymbolResultView {
            name: self.name@,
            kind: self.kind@,
            file_path: self.file_path@,
            line: self.line,
            is_exported: self.is_exported,
            ref_count: self.ref_count,
        }
    }
}

/// What is said of some symbols that were found.
pub open spec fn result_views(v: Seq<SymbolResult>) -> Seq<SymbolResultView> {
    v.map_values(|s: SymbolResult| s@)
}

/// The small letter of a capital of the Latin alphabet without diacritics; any other character
/// stands for itself.
pub open spec fn fold_case(c: char) -> u32 {
    if 65 <= (c as u32) <= 90 {
        ((c as u32) + 32) as u32
    } else {
        c as u32
    }
}

/// Whether a text matches a pattern: `%` stands for any text, `_` for any character, and every
/// other character for itself, in capitals or not.
pub open spec fn like(pattern: Seq<char>, s: Seq<char>) -> bool
    decreases pattern.len() + s.len(),
{
    if pattern.len() == 0 {
        s.len() == 0
    } else if pattern[0] == '%' {
        like(pattern.drop_first(), s) || (s.len() > 0 && like(pattern, s.drop_first()))
    } else {
        s.len() > 0 && (pattern[0] == '_' || fold_case(pattern[0]) == fold_case(s[0])) && like(
            pattern.drop_first(),
            s.drop_first(),
        )
    }
}

/// Whether a name is asked for: it is the pattern, or matches it as a part.
pub open spec fn name_matches(name: Seq<char>, pattern: Seq<char>, exact: bool) -> bool {
    if exact {
        name == pattern
    } else {
        like("%"@ + pattern + "%"@, name)
    }
}

/// The symbols whose names are asked for.
pub open spec fn matching(symbols: Seq<SymbolView>, pattern: Seq<char>, exact: bool) -> Seq<
    SymbolView,
> {
    symbols.filter(|s: SymbolView| name_matches(s.name, pattern, exact))
}

/// Exported symbols come first, and among equals those with more references.
pub open spec fn symbol_weight(s: SymbolView) -> int {
    s.ref_count + (if s.is_exported {
        0x1_0000_0000_0000_0000int
    } else {
        0
    })
}

/// What symbols are sorted by.
pub open spec fn symbol_keys(symbols: Seq<SymbolView>) -> Seq<(int, Seq<char>)> {
    symbols.map_values(|s: SymbolView| (symbol_weight(s), Seq::<char>::empty()))
}

/// What is said of a symbol.
pub open spec fn result_of(files: Seq<FileView>, s: SymbolView) -> SymbolResultView {
    SymbolResultView {
        name: s.name,
        kind: s.kind,
        file_path: files[db::at_id(files, s.file_id)].path,
        line: s.line,
        is_exported: s.is_exported,
        ref_count: s.ref_count,
    }
}

/// The first `n` of the items, or all.
pub open spec fn first<T>(items: Seq<T>, n: nat) -> Seq<T> {
    if n < items.len() {
        items.take(n as int)
    } else {
        items
    }
}

/// The symbols that are found: at most `limit` of those asked for, in their order.
pub open spec fn found_symbols(v: IndexView, pattern: Seq<char>, limit: nat, exact: bool) -> Seq<
    SymbolResultView,
> {
    let all = matching(v.symbols, pattern, exact);
    first(order::order_of(symbol_keys(all)), limit).map_values(
        |i: int| result_of(v.files, all[i]),
    )
}

/// Whether a character stands for another, in capitals or not.
fn same_letter(a: char, b: char) -> (r: bool)
    ensures
        r == (fold_case(a) == fold_case(b)),
{
    let x: u32 = a as u32;
    let y: u32 = b as u32;
    let fx: u32 = if 65 <= x && x <= 90 {
        x + 32
    } else {
        x
    };
    let fy: u32 = if 65 <= y && y <= 90 {
        y + 32
    } else {
        y
    };
    fx == fy
}

/// Whether the rest of a text matches the rest of a pattern.
fn like_from(pattern: &Vec<char>, p: usize, s: &Vec<char>, i: usize) -> (r: bool)
    requires
        p <= pattern@.len(),
        i <= s@.len(),
    ensures
        r == like(pattern@.skip(p as int), s@.skip(i as int)),
    decreases pattern@.len() - p + s@.len() - i,
{
    if p == pattern.len() {
        return i == s.len();
    }
    assert(pattern@.skip(p as int).drop_first() =~= pattern@.skip(p + 1));
    assert(pattern@.skip(p as int)[0] == pattern@[p as int]);
    if i < s.len() {
        assert(s@.skip(i as int).drop_first() =~= s@.skip(i + 1));
        assert(s@.skip(i as int)[0] == s@[i as int]);
    }
    if pattern[p] == '%' {
        like_from(pattern, p + 1, s, i) || (i < s.len() && like_from(pattern, p, s, i + 1))
    } else {
        i < s.len() && (pattern[p] == '_' || same_letter(pattern[p], s[i])) && like_from(
            pattern,
            p + 1,
            s,
            i + 1,
        )
    }
}

/// Whether a text matches a pattern.
pub fn is_like(pattern: &str, s: &str) -> (r: bool)
    ensures
        r == like(pattern@, s@),
{
    let pattern = text::chars_of(pattern);
    let chars = text::chars_of(s);
    assert(pattern@.skip(0) =~= pattern@);
    assert(chars@.skip(0) =~= chars@);
    like_from(&pattern, 0, &chars, 0)
}

/// Whether a name is asked for; `part` is the pattern with `%` around it.
fn is_match(name: &String, pattern: &String, part: &Vec<char>, exact: bool) -> (r: bool)
    requires
        part@ == "%"@ + pattern@ + "%"@,
    ensures
        r == name_matches(name@, pattern@, exact),
{
    if exact {
        *name == *pattern
    } else {
        let chars = text::chars_of(name.as_str());
        assert(part@.skip(0) =~= part@);
        assert(chars@.skip(0) =~= chars@);
        like_from(part, 0, &chars, 0)
    }
}

/// The rows at some positions.
pub open spec fn symbols_at(rows: Seq<SymbolRow>, at: Seq<usize>) -> Seq<SymbolView> {
    at.map_values(|i: usize| rows[i as int]@)
}

/// Finds symbols by name, or by a part of it; at most `limit`.
pub fn query_symbols(index: &Index, pattern: &str, limit: usize, exact: bool) -> (r: Vec<
    SymbolResult,
>)
    requires
        index.wf(),
    ensures
        result_views(r@) == found_symbols(index@, pattern@, limit as nat, exact),
{
    let wanted = pattern.to_string();
    let part = text::chars_of("%".to_string().concat(pattern).concat("%").as_str());
    let ghost v = index@;
    let ghost keep = |s: SymbolView| name_matches(s.name, pattern@, exact);
    let mut at: Vec<usize> = Vec::new();
    let mut keys: Vec<SortKey> = Vec::new();
    proof {
        reveal(Seq::filter);
        assert(v.symbols.take(0) =~= Seq::<SymbolView>::empty());
    }
    for i in 0..index.symbols.len()
        invariant
            v == index@,
            wanted@ == pattern@,
            part@ == "%"@ + pattern@ + "%"@,
            keep == (|s: SymbolView| name_matches(s.name, pattern@, exact)),
            forall|k: int| 0 <= k < at@.len() ==> #[trigger] at@[k] < i,
            symbols_at(index.symbols@, at@) == v.symbols.take(i as int).filter(keep),
            order::key_views(keys@) == symbol_keys(symbols_at(index.symbols@, at@)),
    {
        reveal(Seq::filter);
        let ghost before = symbols_at(index.symbols@, at@);
        let ghost before_keys = order::key_views(keys@);
        proof {
            assert(v.symbols.take(i + 1).drop_last() =~= v.symbols.take(i as int));
            assert(v.symbols.take(i + 1).last() == index.symbols@[i as int]@);
        }
        if is_match(&index.symbols[i].name, &wanted, &part, exact) {
            let base: i128 = if index.symbols[i].is_exported {
                0x1_0000_0000_0000_0000
            } else {
                0
            };
            let key = SortKey {
                weight: base + index.symbols[i].ref_count as i128,
                name: String::new(),
            };
            let ghost shown = key@;
            at.push(i);
            keys.push(key);
            proof {
                assert(symbols_at(index.symbols@, at@) =~= before.push(index.symbols@[i as int]@));
                assert(shown.1 =~= Seq::<char>::empty());
                assert(order::key_views(keys@) =~= before_keys.push(shown));
                assert(order::key_views(keys@) =~= symbol_keys(
                    symbols_at(index.symbols@, at@),
                ));
            }
        }
    }
    assert(v.symbols.take(v.symbols.len() as int) =~= v.symbols);
    let ghost all = matching(v.symbols, pattern@, exact);
    let sorted = order::sort(&keys);
    let ghost positions = order::positions(sorted@);
    let n: usize = if limit < sorted.len() {
        limit
    } else {
        sorted.len()
    };
    let ghost show = |i: int| result_of(v.files, all[i]);
    let mut out: Vec<SymbolResult> = Vec::new();
    for k in 0..n
        invariant
            v == index@,
            index.wf(),
            n <= sorted@.len(),
            positions == order::positions(sorted@),
            order::is_order(symbol_keys(all), positions),
            all == symbols_at(index.symbols@, at@),
            forall|k: int| 0 <= k < at@.len() ==> #[trigger] at@[k] < index.symbols@.len(),
            show == (|i: int| result_of(v.files, all[i])),
            result_views(out@) == positions.take(k as int).map_values(show),
    {
        let ghost before = result_views(out@);
        assert(0 <= positions[k as int] < all.len());
        let i: usize = at[sorted[k]];
        let row = &index.symbols[i];
        proof {
            assert(v.symbols[i as int] == row@);
            assert(all[positions[k as int]] == row@);
            assert(db::has_id(v.files, v.symbols[i as int].file_id));
        }
        let path = match db::find_id(index, row.file_id) {
            Some(f) => index.files[f].path.clone(),
            None => String::new(),
        };
        proof {
            assert(path@ == v.files[db::at_id(v.files, row.file_id)].path);
        }
        let found = SymbolResult {
            name: row.name.clone(),
            kind: row.kind.clone(),
            file_path: path,
            line: row.line,
            is_exported: row.is_exported,
            ref_count: row.ref_count,
        };
        let ghost shown = found@;
        out.push(found);
        proof {
            assert(shown =~= show(positions[k as int]));
            assert(result_views(out@) =~= before.push(shown));
            assert(positions.take(k + 1).map_values(show) =~= before.push(
                show(positions[k as int]),
            ));
        }
    }
    proof {
        assert(first(positions, limit as nat) =~= positions.take(n as int));
    }
    out
}

/// Whether a text begins with another, in capitals or not.
pub open spec fn begins_folded(s: Seq<char>, part: Seq<char>) -> bool {
    part.len() <= s.len() && forall|k: int|
        0 <= k < part.len() ==> fold_case(#[trigger] part[k]) == fold_case(s[k])
}

/// A pattern that ends in `%` and holds no other wildcard asks for a beginning.
proof fn lemma_like_beginning(part: Seq<char>, s: Seq<char>)
    requires
        !part.contains('%'),
        !part.contains('_'),
    ensures
        like(part + seq!['%'], s) == begins_folded(s, part),
    decreases part.len() + s.len(),
{
    reveal_with_fuel(like, 3);
    let pattern = part + seq!['%'];
    if part.len() == 0 {
        assert(pattern =~= seq!['%']);
        assert(pattern[0] == '%');
        assert(pattern.drop_first() =~= Seq::<char>::empty());
        if s.len() > 0 {
            lemma_like_beginning(part, s.drop_first());
        }
    } else {
        assert(part.contains(part[0]));
        assert(pattern[0] == part[0]);
        if s.len() > 0 {
            let rest = part.drop_first();
            assert(pattern.drop_first() =~= rest + seq!['%']);
            assert forall|c: char| rest.contains(c) implies part.contains(c) by {
                let k = choose|k: int| 0 <= k < rest.len() && rest[k] == c;
                assert(part[k + 1] == c);
            }
            lemma_like_beginning(rest, s.drop_first());
            if begins_folded(s, part) {
                assert forall|k: int| 0 <= k < rest.len() implies fold_case(#[trigger] rest[k])
                    == fold_case(s.drop_first()[k]) by {
                    assert(fold_case(part[k + 1]) == fold_case(s[k + 1]));
                }
            }
            if begins_folded(s.drop_first(), rest) && fold_case(part[0]) == fold_case(s[0]) {
                assert forall|k: int| 0 <= k < part.len() implies fold_case(#[trigger] part[k])
                    == fold_case(s[k]) by {
                    if k > 0 {
                        assert(fold_case(rest[k - 1]) == fold_case(s.drop_first()[k - 1]));
                    }
                }
            }
        }
    }
}

/// A pattern after a `%` is looked for everywhere.
proof fn lemma_like_anywhere(pattern: Seq<char>, s: Seq<char>)
    ensures
        like(seq!['%'] + pattern, s) == exists|i: int|
            0 <= i <= s.len() && #[trigger] like(pattern, s.skip(i)),
    decreases s.len(),
{
    let all = seq!['%'] + pattern;
    assert(all[0] == '%');
    assert(all.drop_first() =~= pattern);
    assert(s.skip(0) =~= s);
    assert(like(pattern, s.skip(0)) == like(pattern, s));
    if s.len() > 0 {
        let rest = s.drop_first();
        lemma_like_anywhere(pattern, rest);
        if like(all, rest) {
            let i = choose|i: int| 0 <= i <= rest.len() && #[trigger] like(pattern, rest.skip(i));
            assert(rest.skip(i) =~= s.skip(i + 1));
            assert(like(pattern, s.skip(i + 1)));
        }
        if exists|i: int| 0 <= i <= s.len() && #[trigger] like(pattern, s.skip(i)) {
            let i = choose|i: int| 0 <= i <= s.len() && #[trigger] like(pattern, s.skip(i));
            if i > 0 {
                assert(rest.skip(i - 1) =~= s.skip(i));
                assert(like(pattern, rest.skip(i - 1)));
            }
        }
    } else {
        if exists|i: int| 0 <= i <= s.len() && #[trigger] like(pattern, s.skip(i)) {
            let i = choose|i: int| 0 <= i <= s.len() && #[trigger] like(pattern, s.skip(i));
            assert(i == 0);
        }
    }
}

/// A search that is not exact finds the names of which the pattern is a part, in capitals or not,
/// where the pattern holds no wildcard.
pub proof fn law_search_by_part(name: Seq<char>, pattern: Seq<char>)
    requires
        !pattern.contains('%'),
        !pattern.contains('_'),
    ensures
        name_matches(name, pattern, false) == exists|i: int|
            0 <= i <= name.len() && #[trigger] begins_folded(name.skip(i), pattern),
{
    reveal_strlit("%");
    let tail = pattern + seq!['%'];
    assert("%"@ =~= seq!['%']);
    assert("%"@ + pattern + "%"@ =~= seq!['%'] + tail);
    lemma_like_anywhere(tail, name);
    assert forall|i: int| 0 <= i <= name.len() implies #[trigger] like(tail, name.skip(i))
        == begins_folded(name.skip(i), pattern) by {
        lemma_like_beginning(pattern, name.skip(i));
    }
    if like(seq!['%'] + tail, name) {
        let i = choose|i: int| 0 <= i <= name.len() && #[trigger] like(tail, name.skip(i));
        assert(begins_folded(name.skip(i), pattern));
    }
    if exists|i: int| 0 <= i <= name.len() && #[trigger] begins_folded(name.skip(i), pattern) {
        let i = choose|i: int|
            0 <= i <= name.len() && #[trigger] begins_folded(name.skip(i), pattern);
        assert(like(tail, name.skip(i)));
    }
}

// ---------------------------------------------------------------------------------------------
// Dependencies
// ---------------------------------------------------------------------------------------------

/// The other end of an edge of a file.
#[derive(Debug)]
pub struct DepEdge {
    pub file_path: String,
    pub edge_type: String,
    pub specifier: Option<String>,
}

/// What is said of the other end of an edge.
#[verifier::ext_equal]
pub struct DepView {
    pub file_path: Seq<char>,
    pub edge_type: Seq<char>,
    pub specifier: Option<Seq<char>>,
}

impl View for DepEdge {
    type V = DepView;

    open spec fn view(&self) -> DepView {
        DepView {
            file_path: self.file_path@,
            edge_type: self.edge_type@,
            specifier: text::opt_view(self.specifier),
        }
    }
}

/// What is said of some edges.
pub open spec fn dep_views(v: Seq<DepEdge>) -> Seq<DepView> {
    v.map_values(|d: DepEdge| d@)
}

/// Whether a direction asks for the importers of a file; any other asks for its imports.
pub open spec fn asks_importers(direction: Seq<char>) -> bool {
    direction == "importers"@
}

/// The file from which the edges of a direction are looked at.
pub open spec fn near_end(e: EdgeView, importers: bool) -> i64 {
    if importers {
        e.target_id
    } else {
        e.source_id
    }
}

/// The file at the other end.
pub open spec fn far_end(e: EdgeView, importers: bool) -> i64 {
    if importers {
        e.source_id
    } else {
        e.target_id
    }
}

/// What is said of an edge, seen from one end.
pub open spec fn dep_of(files: Seq<FileView>, e: EdgeView, importers: bool) -> DepView {
    DepView {
        file_path: files[db::at_id(files, far_end(e, importers))].path,
        edge_type: e.edge_type,
        specifier: e.specifier,
    }
}

/// The edges of the file `id` among some edges.
pub open spec fn deps_among(
    files: Seq<FileView>,
    edges: Seq<EdgeView>,
    id: i64,
    importers: bool,
) -> Seq<DepView>
    decreases edges.len(),
{
    if edges.len() == 0 {
        Seq::empty()
    } else {
        let before = deps_among(files, edges.drop_last(), id, importers);
        if near_end(edges.last(), importers) == id {
            before.push(dep_of(files, edges.last(), importers))
        } else {
            before
        }
    }
}

/// What a file imports, or what imports it.
pub open spec fn deps_of(v: IndexView, path: Seq<char>, importers: bool) -> Seq<DepView> {
    match db::id_of(v.files, path) {
        Some(id) => deps_among(v.files, v.edges, id, importers),
        None => Seq::empty(),
    }
}

/// What a file imports, or, for the direction `importers`, what imports it.
pub fn get_file_deps(index: &Index, file_path: &str, direction: &str) -> (r: Vec<DepEdge>)
    requires
        index.wf(),
    ensures
        dep_views(r@) == deps_of(index@, file_path@, asks_importers(direction@)),
{
    let importers = text::same(direction, "importers");
    let mut out: Vec<DepEdge> = Vec::new();
    assert(dep_views(out@) =~= Seq::<DepView>::empty());
    let id: i64 = match db::get_file_id(index, file_path) {
        Some(id) => id,
        None => {
            return out;
        },
    };
    let ghost v = index@;
    assert(v.edges.take(0) =~= Seq::<EdgeView>::empty());
    for i in 0..index.edges.len()
        invariant
            index.wf(),
            v == index@,
            dep_views(out@) == deps_among(v.files, v.edges.take(i as int), id, importers),
    {
        let ghost before = dep_views(out@);
        let row = &index.edges[i];
        proof {
            assert(v.edges.take(i + 1).drop_last() =~= v.edges.take(i as int));
            assert(v.edges.take(i + 1).last() == row@);
            assert(v.edges[i as int] == row@);
        }
        let near: i64 = if importers {
            row.target_id
        } else {
            row.source_id
        };
        if near == id {
            let far: i64 = if importers {
                row.source_id
            } else {
                row.target_id
            };
            let path = match db::find_id(index, far) {
                Some(f) => index.files[f].path.clone(),
                None => String::new(),
            };
            let dep = DepEdge {
                file_path: path,
                edge_type: row.edge_type.clone(),
                specifier: text::copy_opt(&row.specifier),
            };
            let ghost shown = dep@;
            out.push(dep);
            proof {
                assert(db::has_id(v.files, far));
                assert(shown =~= dep_of(v.files, row@, importers));
                assert(dep_views(out@) =~= before.push(shown));
            }
        }
    }
    assert(v.edges.take(v.edges.len() as int) =~= v.edges);
    out
}

/// The types and specifiers of those of some edges that lead to a path, in their order.
pub open spec fn edges_to(deps: Seq<DepView>, path: Seq<char>) -> Seq<
    (Seq<char>, Option<Seq<char>>),
>
    decreases deps.len(),
{
    if deps.len() == 0 {
        Seq::empty()
    } else {
        let before = edges_to(deps.drop_last(), path);
        let last = deps.last();
        if last.file_path == path {
            before.push((last.edge_type, last.specifier))
        } else {
            before
        }
    }
}

/// The edges from one file to another are the same from either end.
proof fn lemma_either_end(files: Seq<FileView>, edges: Seq<EdgeView>, i: int, j: int)
    requires
        db::files_wf(files),
        0 <= i < files.len(),
        0 <= j < files.len(),
        forall|k: int|
            0 <= k < edges.len() ==> db::has_id(files, (#[trigger] edges[k]).source_id)
                && db::has_id(files, edges[k].target_id),
    ensures
        edges_to(deps_among(files, edges, files[i].id, false), files[j].path) == edges_to(
            deps_among(files, edges, files[j].id, true),
            files[i].path,
        ),
    decreases edges.len(),
{
    if edges.len() > 0 {
        let rest = edges.drop_last();
        assert forall|k: int| 0 <= k < rest.len() implies db::has_id(
            files,
            (#[trigger] rest[k]).source_id,
        ) && db::has_id(files, rest[k].target_id) by {
            assert(rest[k] == edges[k]);
        }
        lemma_either_end(files, rest, i, j);
        let e = edges[edges.len() - 1];
        let s = db::at_id(files, e.source_id);
        let t = db::at_id(files, e.target_id);
        assert(0 <= s < files.len() && files[s].id == e.source_id);
        assert(0 <= t < files.len() && files[t].id == e.target_id);
        if e.source_id == files[i].id {
            db::lemma_at_id(files, e.source_id, i);
        }
        if e.target_id == files[j].id {
            db::lemma_at_id(files, e.target_id, j);
        }
        if files[s].path == files[i].path {
            db::lemma_at_path(files, files[i].path, s);
            db::lemma_at_path(files, files[i].path, i);
        }
        if files[t].path == files[j].path {
            db::lemma_at_path(files, files[j].path, t);
            db::lemma_at_path(files, files[j].path, j);
        }
        let ahead = deps_among(files, rest, files[i].id, false);
        let back = deps_among(files, rest, files[j].id, true);
        assert(ahead.push(dep_of(files, e, false)).drop_last() =~= ahead);
        assert(back.push(dep_of(files, e, true)).drop_last() =~= back);
    }
}

/// What one file imports of another is what the other is imported for by it: the same edges, each
/// with its type and specifier, as many and in the same order.
pub proof fn law_imports_and_importers(v: IndexView, a: Seq<char>, b: Seq<char>)
    requires
        db::view_wf(v),
        db::has_path(v.files, a),
        db::has_path(v.files, b),
    ensures
        edges_to(deps_of(v, a, false), b) == edges_to(deps_of(v, b, true), a),
{
    let i = db::at_path(v.files, a);
    let j = db::at_path(v.files, b);
    assert(0 <= i < v.files.len() && v.files[i].path == a);
    assert(0 <= j < v.files.len() && v.files[j].path == b);
    lemma_either_end(v.files, v.edges, i, j);
}

// ---------------------------------------------------------------------------------------------
// Counts
// ---------------------------------------------------------------------------------------------

/// How many of the symbols are exported.
pub open spec fn count_exported(symbols: Seq<SymbolView>) -> nat
    decreases symbols.len(),
{
    if symbols.len() == 0 {
        0
    } else {
        count_exported(symbols.drop_last()) + (if symbols.last().is_exported {
            1nat
        } else {
            0nat
        })
    }
}

/// How many of the edges lead to a file.
pub open spec fn count_to(edges: Seq<EdgeView>, id: i64) -> nat
    decreases edges.len(),
{
    if edges.len() == 0 {
        0
    } else {
        count_to(edges.drop_last(), id) + (if edges.last().target_id == id {
            1nat
        } else {
            0nat
        })
    }
}

/// The number of symbols is at most the last number of one.
proof fn lemma_symbol_count(files: Seq<FileView>, symbols: Seq<SymbolView>)
    requires
        db::symbols_wf(files, symbols),
    ensures
        symbols.len() <= db::last_symbol_id(symbols) <= i64::MAX,
    decreases symbols.len(),
{
    if symbols.len() > 1 {
        lemma_symbol_count(files, symbols.drop_last());
        assert(symbols[symbols.len() - 2].id < symbols[symbols.len() - 1].id);
    } else if symbols.len() == 1 {
        assert(symbols[0].id >= 1);
    }
}

/// The number of edges is at most the last number of one.
proof fn lemma_edge_count(files: Seq<FileView>, edges: Seq<EdgeView>)
    requires
        db::edges_wf(files, edges),
    ensures
        edges.len() <= db::last_edge_id(edges) <= i64::MAX,
    decreases edges.len(),
{
    if edges.len() > 1 {
        lemma_edge_count(files, edges.drop_last());
        assert(edges[edges.len() - 2].id < edges[edges.len() - 1].id);
    } else if edges.len() == 1 {
        assert(edges[0].id >= 1);
    }
}

/// How many files, exported symbols and edges the index holds.
pub fn get_stats(index: &Index) -> (r: (i64, i64, i64))
    requires
        index.wf(),
    ensures
        r.0 == index@.files.len(),
        r.1 == count_exported(index@.symbols),
        r.2 == index@.edges.len(),
{
    let ghost v = index@;
    let mut exported: usize = 0;
    proof {
        db::lemma_file_count(v.files);
        lemma_symbol_count(v.files, v.symbols);
        lemma_edge_count(v.files, v.edges);
        assert(v.symbols.take(0) =~= Seq::<SymbolView>::empty());
    }
    for i in 0..index.symbols.len()
        invariant
            v == index@,
            exported == count_exported(v.symbols.take(i as int)),
            exported <= i,
    {
        proof {
            assert(v.symbols.take(i + 1).drop_last() =~= v.symbols.take(i as int));
            assert(v.symbols.take(i + 1).last() == index.symbols@[i as int]@);
        }
        if index.symbols[i].is_exported {
            exported += 1;
        }
    }
    assert(v.symbols.take(v.symbols.len() as int) =~= v.symbols);
    (index.files.len() as i64, exported as i64, index.edges.len() as i64)
}

/// How many edges lead to a file is at most how many there are.
proof fn lemma_count_to(edges: Seq<EdgeView>, id: i64)
    ensures
        count_to(edges, id) <= edges.len(),
    decreases edges.len(),
{
    if edges.len() > 0 {
        lemma_count_to(edges.drop_last(), id);
    }
}

/// How many edges lead to each file that one leads to.
pub fn get_importer_counts(index: &Index) -> (r: HashMap<i64, i64>)
    requires
        index.wf(),
    ensures
        forall|id: i64| #[trigger] r@.contains_key(id) == (count_to(index@.edges, id) > 0),
        forall|id: i64| r@.contains_key(id) ==> #[trigger] r@[id] == count_to(index@.edges, id),
{
    broadcast use vstd::std_specs::hash::group_hash_axioms;

    let ghost v = index@;
    let mut counts: HashMap<i64, i64> = HashMap::new();
    proof {
        assert(v.edges.take(0) =~= Seq::<EdgeView>::empty());
    }
    for i in 0..index.edges.len()
        invariant
            v == index@,
            index.wf(),
            forall|id: i64| #[trigger]
                counts@.contains_key(id) == (count_to(v.edges.take(i as int), id) > 0),
            forall|id: i64|
                counts@.contains_key(id) ==> #[trigger] counts@[id] == count_to(
                    v.edges.take(i as int),
                    id,
                ),
    {
        let target: i64 = index.edges[i].target_id;
        proof {
            assert(v.edges.take(i + 1).drop_last() =~= v.edges.take(i as int));
            assert(v.edges.take(i + 1).last() == index.edges@[i as int]@);
            lemma_edge_count(v.files, v.edges);
            lemma_count_to(v.edges.take(i as int), target);
        }
        let so_far: i64 = match counts.get(&target) {
            Some(n) => *n,
            None => 0,
        };
        counts.insert(target, so_far + 1);
    }
    assert(v.edges.take(v.edges.len() as int) =~= v.edges);
    counts
}

// ---------------------------------------------------------------------------------------------
// Ranked files
// ---------------------------------------------------------------------------------------------

/// A file with the names that it exports.
#[derive(Debug)]
pub struct FileWithExports {
    pub path: String,
    pub rank: u64,
    pub exports: Vec<String>,
}

/// A file with the names that it exports, its summary and the note on when to use it.
#[derive(Debug)]
pub struct FileWithExportsAndEnrichment {
    pub path: String,
    pub rank: u64,
    pub exports: Vec<String>,
    pub summary_enriched: Option<String>,
    pub when_to_use_enriched: Option<String>,
}

/// A file with its summary and the note on when to use it.
#[derive(Debug)]
pub struct RankedFileWithEnrichment {
    pub id: i64,
    pub path: String,
    pub rank: u64,
    pub summary_enriched: Option<String>,
    pub when_to_use_enriched: Option<String>,
}

/// A file row with the names that the file exports.
#[verifier::ext_equal]
pub struct ListedFile {
    pub path: Seq<char>,
    pub rank: u64,
    pub exports: Seq<Seq<char>>,
    pub summary: Option<Seq<char>>,
    pub when_to_use: Option<Seq<char>>,
}

/// What a file with exports says, of a file row.
pub open spec fn lists_file(f: FileWithExports, listed: ListedFile) -> bool {
    f.path@ == listed.path && f.rank == listed.rank && text::views(f.exports@) == listed.exports
}

impl View for FileWithExportsAndEnrichment {
    type V = ListedFile;

    open spec fn view(&self) -> ListedFile {
        ListedFile {
            path: self.path@,
            rank: self.rank,
            exports: text::views(self.exports@),
            summary: text::opt_view(self.summary_enriched),
            when_to_use: text::opt_view(self.when_to_use_enriched),
        }
    }
}

/// What some listed files say.
pub open spec fn listed_views(v: Seq<FileWithExportsAndEnrichment>) -> Seq<ListedFile> {
    v.map_values(|f: FileWithExportsAndEnrichment| f@)
}

/// The names of the exported symbols of a file.
pub open spec fn exports_of(symbols: Seq<SymbolView>, file_id: i64) -> Seq<Seq<char>>
    decreases symbols.len(),
{
    if symbols.len() == 0 {
        Seq::empty()
    } else {
        let before = exports_of(symbols.drop_last(), file_id);
        let last = symbols.last();
        if last.file_id == file_id && last.is_exported {
            before.push(last.name)
        } else {
            before
        }
    }
}

/// The files that are listed: all, or those without a summary.
pub open spec fn listed(files: Seq<FileView>, unenriched_only: bool) -> Seq<FileView> {
    files.filter(|f: FileView| !unenriched_only || f.summary is None)
}

/// What files are sorted by: the larger rank first, then the path.
pub open spec fn rank_path_keys(files: Seq<FileView>) -> Seq<(int, Seq<char>)> {
    files.map_values(|f: FileView| (f.rank as int, f.path))
}

/// What files are sorted by: the larger rank first.
pub open spec fn rank_keys(files: Seq<FileView>) -> Seq<(int, Seq<char>)> {
    files.map_values(|f: FileView| (f.rank as int, Seq::<char>::empty()))
}

/// A file row with the names that the file exports.
pub open spec fn listed_file(symbols: Seq<SymbolView>, f: FileView) -> ListedFile {
    ListedFile {
        path: f.path,
        rank: f.rank,
        exports: exports_of(symbols, f.id),
        summary: f.summary,
        when_to_use: f.when_to_use,
    }
}

/// The listed files with the names that they export, by rank and path.
pub open spec fn listing(v: IndexView, unenriched_only: bool) -> Seq<ListedFile> {
    let files = listed(v.files, unenriched_only);
    order::order_of(rank_path_keys(files)).map_values(|i: int| listed_file(v.symbols, files[i]))
}

/// The names of the exported symbols of a file.
fn collect_exports(index: &Index, file_id: i64) -> (r: Vec<String>)
    ensures
        text::views(r@) == exports_of(index@.symbols, file_id),
{
    let ghost symbols = index@.symbols;
    let mut out: Vec<String> = Vec::new();
    proof {
        assert(symbols.take(0) =~= Seq::<SymbolView>::empty());
        assert(text::views(out@) =~= Seq::<Seq<char>>::empty());
    }
    for i in 0..index.symbols.len()
        invariant
            symbols == index@.symbols,
            text::views(out@) == exports_of(symbols.take(i as int), file_id),
    {
        let ghost before = text::views(out@);
        let row = &index.symbols[i];
        proof {
            assert(symbols.take(i + 1).drop_last() =~= symbols.take(i as int));
            assert(symbols.take(i + 1).last() == row@);
        }
        if row.file_id == file_id && row.is_exported {
            out.push(row.name.clone());
            assert(text::views(out@) =~= before.push(row.name@));
        }
    }
    assert(symbols.take(symbols.len() as int) =~= symbols);
    out
}

/// The rows at some positions.
pub open spec fn files_at(rows: Seq<FileRow>, at: Seq<usize>) -> Seq<FileView> {
    at.map_values(|i: usize| rows[i as int]@)
}

/// The listed files with the names that they export, by rank and path.
fn list_files(index: &Index, unenriched_only: bool) -> (r: Vec<FileWithExportsAndEnrichment>)
    ensures
        listed_views(r@) == listing(index@, unenriched_only),
{
    let ghost v = index@;
    let ghost keep = |f: FileView| !unenriched_only || f.summary is None;
    let mut at: Vec<usize> = Vec::new();
    let mut keys: Vec<SortKey> = Vec::new();
    proof {
        reveal(Seq::filter);
        assert(v.files.take(0) =~= Seq::<FileView>::empty());
    }
    for i in 0..index.files.len()
        invariant
            v == index@,
            keep == (|f: FileView| !unenriched_only || f.summary is None),
            forall|k: int| 0 <= k < at@.len() ==> #[trigger] at@[k] < i,
            files_at(index.files@, at@) == v.files.take(i as int).filter(keep),
            order::key_views(keys@) == rank_path_keys(files_at(index.files@, at@)),
    {
        reveal(Seq::filter);
        let ghost before = files_at(index.files@, at@);
        let ghost before_keys = order::key_views(keys@);
        let row = &index.files[i];
        proof {
            assert(v.files.take(i + 1).drop_last() =~= v.files.take(i as int));
            assert(v.files.take(i + 1).last() == row@);
        }
        if !unenriched_only || row.summary_enriched.is_none() {
            let key = SortKey { weight: row.rank as i128, name: row.path.clone() };
            let ghost shown = key@;
            at.push(i);
            keys.push(key);
            proof {
                assert(files_at(index.files@, at@) =~= before.push(row@));
                assert(order::key_views(keys@) =~= before_keys.push(shown));
                assert(order::key_views(keys@) =~= rank_path_keys(files_at(index.files@, at@)));
            }
        }
    }
    assert(v.files.take(v.files.len() as int) =~= v.files);
    let ghost files = listed(v.files, unenriched_only);
    let sorted = order::sort(&keys);
    let ghost positions = order::positions(sorted@);
    let ghost show = |i: int| listed_file(v.symbols, files[i]);
    let mut out: Vec<FileWithExportsAndEnrichment> = Vec::new();
    for k in 0..sorted.len()
        invariant
            v == index@,
            positions == order::positions(sorted@),
            order::is_order(rank_path_keys(files), positions),
            files == files_at(index.files@, at@),
            forall|k: int| 0 <= k < at@.len() ==> #[trigger] at@[k] < index.files@.len(),
            show == (|i: int| listed_file(v.symbols, files[i])),
            listed_views(out@) == positions.take(k as int).map_values(show),
    {
        let ghost before = listed_views(out@);
        assert(0 <= positions[k as int] < files.len());
        let row = &index.files[at[sorted[k]]];
        let file = FileWithExportsAndEnrichment {
            path: row.path.clone(),
            rank: row.rank,
            exports: collect_exports(index, row.id),
            summary_enriched: text::copy_opt(&row.summary_enriched),
            when_to_use_enriched: text::copy_opt(&row.when_to_use_enriched),
        };
        let ghost shown = file@;
        out.push(file);
        proof {
            assert(files[positions[k as int]] == row@);
            assert(shown =~= show(positions[k as int]));
            assert(listed_views(out@) =~= before.push(shown));
            assert(positions.take(k + 1).map_values(show) =~= before.push(
                show(positions[k as int]),
            ));
        }
    }
    assert(positions.take(positions.len() as int) =~= positions);
    out
}

/// Every file with the names that it exports, its summary and its note, by rank and path.
pub fn get_all_files_with_exports_and_enrichment(index: &Index) -> (r: Vec<
    FileWithExportsAndEnrichment,
>)
    requires
        index.wf(),
    ensures
        listed_views(r@) == listing(index@, false),
{
    list_files(index, false)
}

/// The files with the names that they export, by rank and path: all, or those without a summary.
pub fn get_files_with_exports(index: &Index, unenriched_only: bool) -> (r: Vec<FileWithExports>)
    requires
        index.wf(),
    ensures
        r@.len() == listing(index@, unenriched_only).len(),
        forall|k: int|
            0 <= k < r@.len() ==> lists_file(
                #[trigger] r@[k],
                listing(index@, unenriched_only)[k],
            ),
{
    let all = list_files(index, unenriched_only);
    let mut out: Vec<FileWithExports> = Vec::new();
    for k in 0..all.len()
        invariant
            listed_views(all@) == listing(index@, unenriched_only),
            out@.len() == k,
            forall|j: int|
                0 <= j < k ==> lists_file(
                    #[trigger] out@[j],
                    listing(index@, unenriched_only)[j],
                ),
    {
        let file = FileWithExports {
            path: all[k].path.clone(),
            rank: all[k].rank,
            exports: text::copy_all(&all[k].exports),
        };
        assert(listed_views(all@)[k as int] == all@[k as int]@);
        out.push(file);
    }
    out
}

/// A file row with its summary and the note on when to use it.
#[verifier::ext_equal]
pub struct RankedView {
    pub id: i64,
    pub path: Seq<char>,
    pub rank: u64,
    pub summary: Option<Seq<char>>,
    pub when_to_use: Option<Seq<char>>,
}

impl View for RankedFileWithEnrichment {
    type V = RankedView;

    open spec fn view(&self) -> RankedView {
        RankedView {
            id: self.id,
            path: self.path@,
            rank: self.rank,
            summary: text::opt_view(self.summary_enriched),
            when_to_use: text::opt_view(self.when_to_use_enriched),
        }
    }
}

/// What some ranked files say.
pub open spec fn ranked_views(v: Seq<RankedFileWithEnrichment>) -> Seq<RankedView> {
    v.map_values(|f: RankedFileWithEnrichment| f@)
}

/// What is said of a file.
pub open spec fn ranked_file(f: FileView) -> RankedView {
    RankedView {
        id: f.id,
        path: f.path,
        rank: f.rank,
        summary: f.summary,
        when_to_use: f.when_to_use,
    }
}

/// At most `limit` files, those of the larger ranks first.
pub open spec fn top_ranked(files: Seq<FileView>, limit: nat) -> Seq<RankedView> {
    first(order::order_of(rank_keys(files)), limit).map_values(|i: int| ranked_file(files[i]))
}

/// At most `limit` files with their summaries and notes, those of the larger ranks first.
pub fn get_ranked_files_with_enrichment(index: &Index, limit: usize) -> (r: Vec<
    RankedFileWithEnrichment,
>)
    requires
        index.wf(),
    ensures
        ranked_views(r@) == top_ranked(index@.files, limit as nat),
{
    let ghost files = index@.files;
    let mut keys: Vec<SortKey> = Vec::new();
    for i in 0..index.files.len()
        invariant
            files == index@.files,
            order::key_views(keys@) == rank_keys(files.take(i as int)),
    {
        let ghost before = order::key_views(keys@);
        let key = SortKey { weight: index.files[i].rank as i128, name: String::new() };
        let ghost shown = key@;
        keys.push(key);
        proof {
            assert(shown.1 =~= Seq::<char>::empty());
            assert(order::key_views(keys@) =~= before.push(shown));
            assert(files[i as int] == index.files@[i as int]@);
            assert(rank_keys(files.take(i + 1)) =~= before.push(shown));
        }
    }
    assert(files.take(files.len() as int) =~= files);
    let sorted = order::sort(&keys);
    let ghost positions = order::positions(sorted@);
    let n: usize = if limit < sorted.len() {
        limit
    } else {
        sorted.len()
    };
    let ghost show = |i: int| ranked_file(files[i]);
    let mut out: Vec<RankedFileWithEnrichment> = Vec::new();
    for k in 0..n
        invariant
            files == index@.files,
            n <= sorted@.len(),
            positions == order::positions(sorted@),
            order::is_order(rank_keys(files), positions),
            show == (|i: int| ranked_file(files[i])),
            ranked_views(out@) == positions.take(k as int).map_values(show),
    {
        let ghost before = ranked_views(out@);
        assert(0 <= positions[k as int] < files.len());
        let row = &index.files[sorted[k]];
        let file = RankedFileWithEnrichment {
            id: row.id,
            path: row.path.clone(),
            rank: row.rank,
            summary_enriched: text::copy_opt(&row.summary_enriched),
            when_to_use_enriched: text::copy_opt(&row.when_to_use_enriched),
        };
        let ghost shown = file@;
        out.push(file);
        proof {
            assert(files[positions[k as int]] == row@);
            assert(shown =~= show(positions[k as int]));
            assert(ranked_views(out@) =~= before.push(shown));
            assert(positions.take(k + 1).map_values(show) =~= before.push(
                show(positions[k as int]),
            ));
        }
    }
    assert(first(positions, limit as nat) =~= positions.take(n as int));
    out
}

// ---------------------------------------------------------------------------------------------
// What the questions are answered
// ---------------------------------------------------------------------------------------------

/// As many symbols are counted as are exported.
pub proof fn law_exported_counted(symbols: Seq<SymbolView>)
    ensures
        count_exported(symbols) == symbols.filter(|s: SymbolView| s.is_exported).len(),
{
    lists::lemma_count(
        symbols,
        |s: SymbolView| s.is_exported,
        |s: Seq<SymbolView>| count_exported(s),
    );
}

/// As many edges are counted for a file as lead to it.
pub proof fn law_importers_counted(edges: Seq<EdgeView>, id: i64)
    ensures
        count_to(edges, id) == edges.filter(|e: EdgeView| e.target_id == id).len(),
{
    lists::lemma_count(
        edges,
        |e: EdgeView| e.target_id == id,
        |s: Seq<EdgeView>| count_to(s, id),
    );
}

/// What a file imports are the edges that begin at it, each with the file that it leads to, its
/// type and its specifier; what imports it are the edges that lead to it, each with the file at
/// which it begins. A file that the index does not hold has neither.
pub proof fn law_dependencies(v: IndexView, path: Seq<char>)
    ensures
        db::has_path(v.files, path) ==> {
            let id = v.files[db::at_path(v.files, path)].id;
            &&& deps_of(v, path, false) == v.edges.filter(
                |e: EdgeView| e.source_id == id,
            ).map_values(
                |e: EdgeView|
                    DepView {
                        file_path: v.files[db::at_id(v.files, e.target_id)].path,
                        edge_type: e.edge_type,
                        specifier: e.specifier,
                    },
            )
            &&& deps_of(v, path, true) == v.edges.filter(
                |e: EdgeView| e.target_id == id,
            ).map_values(
                |e: EdgeView|
                    DepView {
                        file_path: v.files[db::at_id(v.files, e.source_id)].path,
                        edge_type: e.edge_type,
                        specifier: e.specifier,
                    },
            )
        },
        !db::has_path(v.files, path) ==> deps_of(v, path, false).len() == 0 && deps_of(
            v,
            path,
            true,
        ).len() == 0,
{
    if db::has_path(v.files, path) {
        let id = v.files[db::at_path(v.files, path)].id;
        lists::lemma_kept(
            v.edges,
            |e: EdgeView| e.source_id == id,
            |e: EdgeView|
                DepView {
                    file_path: v.files[db::at_id(v.files, e.target_id)].path,
                    edge_type: e.edge_type,
                    specifier: e.specifier,
                },
            |s: Seq<EdgeView>| deps_among(v.files, s, id, false),
        );
        lists::lemma_kept(
            v.edges,
            |e: EdgeView| e.target_id == id,
            |e: EdgeView|
                DepView {
                    file_path: v.files[db::at_id(v.files, e.source_id)].path,
                    edge_type: e.edge_type,
                    specifier: e.specifier,
                },
            |s: Seq<EdgeView>| deps_among(v.files, s, id, true),
        );
    }
}

/// Capitals of the Latin alphabet count as the small letters in a search, and every other character
/// as itself.
pub proof fn law_capitals_fold(c: char, d: char)
    ensures
        (fold_case(c) == fold_case(d)) == (c == d || ('A' as u32 <= c as u32 <= 'Z' as u32 && d as u32
            == c as u32 + 32) || ('A' as u32 <= d as u32 <= 'Z' as u32 && c as u32 == d as u32 + 32)),
{
    vstd::utf8::char_u32_cast(c, c as u32);
    vstd::utf8::char_u32_cast(d, d as u32);
}

/// An exact search finds the symbols of that name, and no others.
pub proof fn law_exact_search(name: Seq<char>, pattern: Seq<char>)
    ensures
        name_matches(name, pattern, true) == (name == pattern),
{
}

/// In a search `%` stands for any text, `_` for any one character, and every other character for
/// itself, in capitals or not.
pub proof fn law_wildcards(c: char, pattern: Seq<char>, s: Seq<char>)
    ensures
        like(Seq::empty(), s) == (s.len() == 0),
        like(seq!['%'] + pattern, s) == exists|i: int|
            0 <= i <= s.len() && #[trigger] like(pattern, s.skip(i)),
        like(seq!['_'] + pattern, s) == (s.len() > 0 && like(pattern, s.skip(1))),
        c != '%' && c != '_' ==> like(seq![c] + pattern, s) == (s.len() > 0 && fold_case(c)
            == fold_case(s[0]) && like(pattern, s.skip(1))),
{
    lemma_like_anywhere(pattern, s);
    assert((seq!['_'] + pattern).drop_first() =~= pattern);
    assert((seq![c] + pattern).drop_first() =~= pattern);
    if s.len() > 0 {
        assert(s.drop_first() =~= s.skip(1));
    }
}

/// A search answers with the symbols whose names match, at most `limit`: exported ones first, then
/// those with more references, then those that were kept first. Each is shown as it is kept, with
/// the path of its file. `at` are the positions of the answers among the symbols that match.
pub proof fn law_search_answers(
    v: IndexView,
    pattern: Seq<char>,
    limit: nat,
    exact: bool,
) -> (at: Seq<int>)
    ensures
        ({
            let all = v.symbols.filter(|s: SymbolView| name_matches(s.name, pattern, exact));
            let found = found_symbols(v, pattern, limit, exact);
            &&& at.no_duplicates()
            &&& at.len() == all.len()
            &&& forall|i: int| 0 <= i < all.len() ==> #[trigger] at.contains(i)
            &&& found.len() == (if limit < all.len() {
                limit
            } else {
                all.len()
            })
            &&& forall|k: int|
                0 <= k < found.len() ==> 0 <= at[k] < all.len() && #[trigger] found[k] == (
                SymbolResultView {
                    name: all[at[k]].name,
                    kind: all[at[k]].kind,
                    file_path: v.files[db::at_id(v.files, all[at[k]].file_id)].path,
                    line: all[at[k]].line,
                    is_exported: all[at[k]].is_exported,
                    ref_count: all[at[k]].ref_count,
                })
            &&& forall|a: int, b: int|
                0 <= a < b < all.len() ==> {
                    let x = all[#[trigger] at[a]];
                    let y = all[#[trigger] at[b]];
                    ||| x.is_exported && !y.is_exported
                    ||| x.is_exported == y.is_exported && x.ref_count > y.ref_count
                    ||| x.is_exported == y.is_exported && x.ref_count == y.ref_count && at[a]
                        < at[b]
                }
        }),
{
    let all = matching(v.symbols, pattern, exact);
    let keys = symbol_keys(all);
    order::law_sorted(keys);
    order::order_of(keys)
}

/// The files are listed by rank, the larger first, then by path: all of them, or those without a
/// summary. Each has the names of its exported symbols in the order in which they are kept. `at`
/// are the positions of the listed files among those that are to be listed.
pub proof fn law_listing(v: IndexView, unenriched_only: bool) -> (at: Seq<int>)
    ensures
        ({
            let files = v.files.filter(|f: FileView| !unenriched_only || f.summary is None);
            let listed = listing(v, unenriched_only);
            &&& at.no_duplicates()
            &&& at.len() == files.len() == listed.len()
            &&& forall|i: int| 0 <= i < files.len() ==> #[trigger] at.contains(i)
            &&& forall|k: int|
                0 <= k < listed.len() ==> 0 <= at[k] < files.len() && #[trigger] listed[k] == (
                ListedFile {
                    path: files[at[k]].path,
                    rank: files[at[k]].rank,
                    exports: v.symbols.filter(
                        |s: SymbolView| s.file_id == files[at[k]].id && s.is_exported,
                    ).map_values(|s: SymbolView| s.name),
                    summary: files[at[k]].summary,
                    when_to_use: files[at[k]].when_to_use,
                })
            &&& forall|a: int, b: int|
                0 <= a < b < files.len() ==> {
                    let x = files[#[trigger] at[a]];
                    let y = files[#[trigger] at[b]];
                    ||| x.rank > y.rank
                    ||| x.rank == y.rank && order::name_less(x.path, y.path)
                    ||| x.rank == y.rank && x.path == y.path && at[a] < at[b]
                }
        }),
{
    let files = listed(v.files, unenriched_only);
    let keys = rank_path_keys(files);
    order::law_sorted(keys);
    let at = order::order_of(keys);
    let shown = listing(v, unenriched_only);
    assert forall|k: int| 0 <= k < shown.len() implies #[trigger] shown[k] == (ListedFile {
        path: files[at[k]].path,
        rank: files[at[k]].rank,
        exports: v.symbols.filter(
            |s: SymbolView| s.file_id == files[at[k]].id && s.is_exported,
        ).map_values(|s: SymbolView| s.name),
        summary: files[at[k]].summary,
        when_to_use: files[at[k]].when_to_use,
    }) by {
        let id = files[at[k]].id;
        lists::lemma_kept(
            v.symbols,
            |s: SymbolView| s.file_id == id && s.is_exported,
            |s: SymbolView| s.name,
            |s: Seq<SymbolView>| exports_of(s, id),
        );
    }
    at
}

/// The files of the largest ranks come first, at most `limit`, each as the index keeps it; of two
/// files of one rank the one that was kept first.
pub proof fn law_top_ranked(files: Seq<FileView>, limit: nat) -> (at: Seq<int>)
    ensures
        ({
            let top = top_ranked(files, limit);
            &&& at.no_duplicates()
            &&& at.len() == files.len()
            &&& forall|i: int| 0 <= i < files.len() ==> #[trigger] at.contains(i)
            &&& top.len() == (if limit < files.len() {
                limit
            } else {
                files.len()
            })
            &&& forall|k: int|
                0 <= k < top.len() ==> 0 <= at[k] < files.len() && #[trigger] top[k] == (RankedView {
                    id: files[at[k]].id,
                    path: files[at[k]].path,
                    rank: files[at[k]].rank,
                    summary: files[at[k]].summary,
                    when_to_use: files[at[k]].when_to_use,
                })
            &&& forall|a: int, b: int|
                0 <= a < b < files.len() ==> {
                    let x = files[#[trigger] at[a]];
                    let y = files[#[trigger] at[b]];
                    x.rank > y.rank || (x.rank == y.rank && at[a] < at[b])
                }
        }),
{
    let keys = rank_keys(files);
    order::law_sorted(keys);
    order::order_of(keys)
}

/// A file that is listed has the path, the rank and all the exports that are said of it.
pub proof fn law_lists_file(f: FileWithExports, listed: ListedFile, k: int)
    requires
        lists_file(f, listed),
    ensures
        f.path@ == listed.path,
        f.rank == listed.rank,
        f.exports@.len() == listed.exports.len(),
        0 <= k < listed.exports.len() ==> f.exports@[k]@ == listed.exports[k],
{
    assert(text::views(f.exports@).len() == f.exports@.len());
    if 0 <= k < listed.exports.len() {
        assert(text::views(f.exports@)[k] == f.exports@[k]@);
    }
}

/// The first of some items are as many as are asked for, from the first on, or all where there are
/// fewer.
pub proof fn law_first<T>(items: Seq<T>, n: nat)
    ensures
        first(items, n).is_prefix_of(items),
        first(items, n).len() == vstd::math::min(n as int, items.len() as int),
{
    assert(items.take(items.len() as int) =~= items);
}

}
