//! The index: files, their symbols and the edges between them.
//!
//! A rank is kept as the bits of a float that is not negative; among such floats the order of the
//! bits, read as an unsigned number, is the order of the values.
use std::collections::HashSet;

use vstd::hash_set::StringHashSet;
use vstd::prelude::*;

use crate::lists;
use crate::text;

pub use crate::queries::{
    get_all_files_with_exports_and_enrichment, get_file_deps, get_files_with_exports,
    get_importer_counts, get_ranked_files_with_enrichment, get_stats, query_symbols, DepEdge,
    FileWithExports, FileWithExportsAndEnrichment, RankedFileWithEnrichment, SymbolResult,
};

verus! {

/// A file of the index.
#[derive(Debug)]
pub struct FileRow {
    pub id: i64,
    pub path: String,
    pub hash: String,
    pub rank: u64,
    pub updated_at: i64,
    pub mtime: Option<i64>,
    pub summary_enriched: Option<String>,
    pub when_to_use_enriched: Option<String>,
    pub enriched_at: Option<i64>,
}

/// A symbol of a file of the index.
#[derive(Debug)]
pub struct SymbolRow {
    pub id: i64,
    pub file_id: i64,
    pub name: String,
    pub kind: String,
    pub is_exported: bool,
    pub line: Option<i32>,
    pub ref_count: i64,
}

/// An edge from a file to a file that it depends on.
#[derive(Debug)]
pub struct EdgeRow {
    pub id: i64,
    pub source_id: i64,
    pub target_id: i64,
    pub edge_type: String,
    pub specifier: Option<String>,
}

/// The index of a project.
pub struct Index {
    pub files: Vec<FileRow>,
    pub symbols: Vec<SymbolRow>,
    pub edges: Vec<EdgeRow>,
}

/// Why the index was not changed as asked.
#[derive(Debug)]
pub enum IndexError {
    /// No file of the index has this path.
    FileNotFound { path: String },
    /// A row refers to a file that the index does not hold.
    UnknownFile,
    /// Every row number is taken.
    Full,
}

impl IndexError {
    /// The text of the error.
    pub open spec fn message_text(&self) -> Seq<char> {
        match self {
            IndexError::FileNotFound { path } => "File not found in index: "@ + path@,
            IndexError::UnknownFile => "FOREIGN KEY constraint failed"@,
            IndexError::Full => "database or disk is full"@,
        }
    }

    /// The error in words.
    pub fn message(&self) -> (r: String)
        ensures
            r@ == self.message_text(),
    {
        match self {
            IndexError::FileNotFound { path } =>
                "File not found in index: ".to_string().concat(path.as_str()),
            IndexError::UnknownFile => "FOREIGN KEY constraint failed".to_string(),
            IndexError::Full => "database or disk is full".to_string(),
        }
    }
}

// ---------------------------------------------------------------------------------------------
// What the index holds
// ---------------------------------------------------------------------------------------------

/// What a file row holds.
#[verifier::ext_equal]
pub struct FileView {
    pub id: i64,
    pub path: Seq<char>,
    pub hash: Seq<char>,
    pub rank: u64,
    pub updated_at: i64,
    pub mtime: Option<i64>,
    pub summary: Option<Seq<char>>,
    pub when_to_use: Option<Seq<char>>,
    pub enriched_at: Option<i64>,
}

/// What a symbol row holds.
#[verifier::ext_equal]
pub struct SymbolView {
    pub id: i64,
    pub file_id: i64,
    pub name: Seq<char>,
    pub kind: Seq<char>,
    pub is_exported: bool,
    pub line: Option<i32>,
    pub ref_count: i64,
}

/// What an edge row holds.
#[verifier::ext_equal]
pub struct EdgeView {
    pub id: i64,
    pub source_id: i64,
    pub target_id: i64,
    pub edge_type: Seq<char>,
    pub specifier: Option<Seq<char>>,
}

/// What an index holds.
#[verifier::ext_equal]
pub struct IndexView {
    pub files: Seq<FileView>,
    pub symbols: Seq<SymbolView>,
    pub edges: Seq<EdgeView>,
}

impl View for FileRow {
    type V = FileView;

    open spec fn view(&self) -> FileView {
        FileView {
            id: self.id,
            path: self.path@,
            hash: self.hash@,
            rank: self.rank,
            updated_at: self.updated_at,
            mtime: self.mtime,
            summary: text::opt_view(self.summary_enriched),
            when_to_use: text::opt_view(self.when_to_use_enriched),
            enriched_at: self.enriched_at,
        }
    }
}

impl View for SymbolRow {
    type V = SymbolView;

    open spec fn view(&self) -> SymbolView {
        SymbolView {
            id: self.id,
            file_id: self.file_id,
            name: self.name@,
            kind: self.kind@,
            is_exported: self.is_exported,
            line: self.line,
            ref_count: self.ref_count,
        }
    }
}

impl View for EdgeRow {
    type V = EdgeView;

    open spec fn view(&self) -> EdgeView {
        EdgeView {
            id: self.id,
            source_id: self.source_id,
            target_id: self.target_id,
            edge_type: self.edge_type@,
            specifier: text::opt_view(self.specifier),
        }
    }
}

/// What some file rows hold.
pub open spec fn file_views(rows: Seq<FileRow>) -> Seq<FileView> {
    rows.map_values(|f: FileRow| f@)
}

/// What some symbol rows hold.
pub open spec fn symbol_views(rows: Seq<SymbolRow>) -> Seq<SymbolView> {
    rows.map_values(|s: SymbolRow| s@)
}

/// What some edge rows hold.
pub open spec fn edge_views(rows: Seq<EdgeRow>) -> Seq<EdgeView> {
    rows.map_values(|e: EdgeRow| e@)
}

impl View for Index {
    type V = IndexView;

    open spec fn view(&self) -> IndexView {
        IndexView {
            files: file_views(self.files@),
            symbols: symbol_views(self.symbols@),
            edges: edge_views(self.edges@),
        }
    }
}

/// Whether a file has this path.
pub open spec fn has_path(files: Seq<FileView>, path: Seq<char>) -> bool {
    exists|i: int| 0 <= i < files.len() && (#[trigger] files[i]).path == path
}

/// The position of the file with this path.
pub open spec fn at_path(files: Seq<FileView>, path: Seq<char>) -> int {
    choose|i: int| 0 <= i < files.len() && (#[trigger] files[i]).path == path
}

/// Whether a file has this number.
pub open spec fn has_id(files: Seq<FileView>, id: i64) -> bool {
    exists|i: int| 0 <= i < files.len() && (#[trigger] files[i]).id == id
}

/// The position of the file with this number.
pub open spec fn at_id(files: Seq<FileView>, id: i64) -> int {
    choose|i: int| 0 <= i < files.len() && (#[trigger] files[i]).id == id
}

/// Files are numbered upwards from 1, and no two have the same path.
pub open spec fn files_wf(files: Seq<FileView>) -> bool {
    &&& forall|i: int| 0 <= i < files.len() ==> (#[trigger] files[i]).id >= 1
    &&& forall|i: int, j: int|
        0 <= i < j < files.len() ==> (#[trigger] files[i]).id < (#[trigger] files[j]).id
    &&& forall|i: int, j: int|
        0 <= i < j < files.len() ==> (#[trigger] files[i]).path != (#[trigger] files[j]).path
}

/// Symbols are numbered upwards from 1, and each belongs to a file.
pub open spec fn symbols_wf(files: Seq<FileView>, symbols: Seq<SymbolView>) -> bool {
    &&& forall|i: int| 0 <= i < symbols.len() ==> (#[trigger] symbols[i]).id >= 1
    &&& forall|i: int, j: int|
        0 <= i < j < symbols.len() ==> (#[trigger] symbols[i]).id < (#[trigger] symbols[j]).id
    &&& forall|i: int|
        0 <= i < symbols.len() ==> has_id(files, (#[trigger] symbols[i]).file_id)
}

/// Edges are numbered upwards from 1, and each joins two files.
pub open spec fn edges_wf(files: Seq<FileView>, edges: Seq<EdgeView>) -> bool {
    &&& forall|i: int| 0 <= i < edges.len() ==> (#[trigger] edges[i]).id >= 1
    &&& forall|i: int, j: int|
        0 <= i < j < edges.len() ==> (#[trigger] edges[i]).id < (#[trigger] edges[j]).id
    &&& forall|i: int|
        0 <= i < edges.len() ==> has_id(files, (#[trigger] edges[i]).source_id) && has_id(
            files,
            edges[i].target_id,
        )
}

/// Whether an index keeps its rules.
pub open spec fn view_wf(v: IndexView) -> bool {
    &&& files_wf(v.files)
    &&& symbols_wf(v.files, v.symbols)
    &&& edges_wf(v.files, v.edges)
}

impl Index {
    /// Whether the index keeps its rules: numbers go upwards, paths are unique, and symbols and
    /// edges belong to files.
    pub open spec fn wf(&self) -> bool {
        view_wf(self@)
    }
}

/// The position of a path that a file has.
pub proof fn lemma_at_path(files: Seq<FileView>, path: Seq<char>, i: int)
    requires
        files_wf(files),
        0 <= i < files.len(),
        files[i].path == path,
    ensures
        has_path(files, path),
        at_path(files, path) == i,
{
    let j = at_path(files, path);
    assert(0 <= j < files.len() && files[j].path == path);
    if i < j {
        assert(files[i].path != files[j].path);
    } else if j < i {
        assert(files[j].path != files[i].path);
    }
}

/// The position of a number that a file has.
pub proof fn lemma_at_id(files: Seq<FileView>, id: i64, i: int)
    requires
        files_wf(files),
        0 <= i < files.len(),
        files[i].id == id,
    ensures
        has_id(files, id),
        at_id(files, id) == i,
{
    let j = at_id(files, id);
    assert(0 <= j < files.len() && files[j].id == id);
    if i < j {
        assert(files[i].id < files[j].id);
    } else if j < i {
        assert(files[j].id < files[i].id);
    }
}

// ---------------------------------------------------------------------------------------------
// Files
// ---------------------------------------------------------------------------------------------

/// The number of the last file, or 0.
pub open spec fn last_file_id(files: Seq<FileView>) -> int {
    if files.len() == 0 {
        0
    } else {
        files.last().id as int
    }
}

/// A file with another hash and rank; what was said of its content is kept only while the hash is.
pub open spec fn refreshed(row: FileView, hash: Seq<char>, rank: u64, now: i64) -> FileView {
    FileView {
        hash,
        rank,
        updated_at: now,
        summary: if row.hash == hash {
            row.summary
        } else {
            None
        },
        when_to_use: if row.hash == hash {
            row.when_to_use
        } else {
            None
        },
        enriched_at: if row.hash == hash {
            row.enriched_at
        } else {
            None
        },
        ..row
    }
}

/// A file that is new to the index.
pub open spec fn new_file(
    id: i64,
    path: Seq<char>,
    hash: Seq<char>,
    rank: u64,
    now: i64,
) -> FileView {
    FileView {
        id,
        path,
        hash,
        rank,
        updated_at: now,
        mtime: None,
        summary: None,
        when_to_use: None,
        enriched_at: None,
    }
}

/// Whether the index has room for the file, or holds it already.
pub open spec fn has_room_for(v: IndexView, path: Seq<char>) -> bool {
    has_path(v.files, path) || last_file_id(v.files) < i64::MAX
}

/// The index with a file added or refreshed.
pub open spec fn upserted(
    v: IndexView,
    path: Seq<char>,
    hash: Seq<char>,
    rank: u64,
    now: i64,
) -> IndexView {
    if has_path(v.files, path) {
        let i = at_path(v.files, path);
        IndexView { files: v.files.update(i, refreshed(v.files[i], hash, rank, now)), ..v }
    } else {
        IndexView {
            files: v.files.push(
                new_file((last_file_id(v.files) + 1) as i64, path, hash, rank, now),
            ),
            ..v
        }
    }
}

/// The hash of the file with this path.
pub open spec fn hash_of(files: Seq<FileView>, path: Seq<char>) -> Option<Seq<char>> {
    if has_path(files, path) {
        Some(files[at_path(files, path)].hash)
    } else {
        None
    }
}

/// The number of the file with this path.
pub open spec fn id_of(files: Seq<FileView>, path: Seq<char>) -> Option<i64> {
    if has_path(files, path) {
        Some(files[at_path(files, path)].id)
    } else {
        None
    }
}

/// The modification time kept for the file with this path.
pub open spec fn mtime_of(files: Seq<FileView>, path: Seq<char>) -> Option<i64> {
    if has_path(files, path) {
        files[at_path(files, path)].mtime
    } else {
        None
    }
}

/// The files with the row of one path replaced, if there is one.
pub open spec fn with_row(files: Seq<FileView>, path: Seq<char>, row: FileView) -> Seq<FileView> {
    if has_path(files, path) {
        files.update(at_path(files, path), row)
    } else {
        files
    }
}

/// The index with another modification time for a file, if it holds the file.
pub open spec fn with_mtime(v: IndexView, path: Seq<char>, mtime: i64) -> IndexView {
    IndexView {
        files: with_row(
            v.files,
            path,
            FileView { mtime: Some(mtime), ..v.files[at_path(v.files, path)] },
        ),
        ..v
    }
}

/// The files with other ranks: each pair sets the rank of the file with that path, if there is one.
pub open spec fn reranked(files: Seq<FileView>, ranks: Seq<(Seq<char>, u64)>) -> Seq<FileView>
    decreases ranks.len(),
{
    if ranks.len() == 0 {
        files
    } else {
        let before = reranked(files, ranks.drop_last());
        let (path, rank) = ranks.last();
        with_row(before, path, FileView { rank, ..before[at_path(before, path)] })
    }
}

/// The paths and ranks of a list.
pub open spec fn rank_views(ranks: Seq<(String, u64)>) -> Seq<(Seq<char>, u64)> {
    ranks.map_values(|r: (String, u64)| (r.0@, r.1))
}

/// The index without the files of other paths, and without what belonged to them.
pub open spec fn without_stale(v: IndexView, known: Seq<Seq<char>>) -> IndexView {
    let files = v.files.filter(|f: FileView| known.contains(f.path));
    IndexView {
        files,
        symbols: v.symbols.filter(|s: SymbolView| has_id(files, s.file_id)),
        edges: v.edges.filter(
            |e: EdgeView| has_id(files, e.source_id) && has_id(files, e.target_id),
        ),
    }
}

/// Replacing a row by one with the same number and path keeps the rules.
proof fn lemma_update_wf(v: IndexView, i: int, row: FileView)
    requires
        view_wf(v),
        0 <= i < v.files.len(),
        row.id == v.files[i].id,
        row.path == v.files[i].path,
    ensures
        view_wf(IndexView { files: v.files.update(i, row), ..v }),
{
    let files = v.files.update(i, row);
    assert forall|id: i64| has_id(v.files, id) implies has_id(files, id) by {
        let k = at_id(v.files, id);
        assert(files[k].id == id);
    }
}

/// A file with a larger number and a new path keeps the rules.
proof fn lemma_push_wf(v: IndexView, row: FileView)
    requires
        view_wf(v),
        row.id >= 1,
        row.id > last_file_id(v.files),
        !has_path(v.files, row.path),
    ensures
        view_wf(IndexView { files: v.files.push(row), ..v }),
{
    let files = v.files.push(row);
    assert forall|id: i64| has_id(v.files, id) implies has_id(files, id) by {
        let k = at_id(v.files, id);
        assert(files[k].id == id);
    }
    assert forall|a: int, b: int| 0 <= a < b < files.len() implies (#[trigger] files[a]).id < (
    #[trigger] files[b]).id && files[a].path != files[b].path by {
        if b == v.files.len() {
            assert(v.files[a].path != row.path);
            if a < v.files.len() - 1 {
                assert(v.files[a].id < v.files[v.files.len() - 1].id);
            }
        }
    }
}

impl Index {
    /// An index without files.
    pub fn new() -> (r: Index)
        ensures
            r.wf(),
            r@.files.len() == 0,
            r@.symbols.len() == 0,
            r@.edges.len() == 0,
    {
        Index { files: Vec::new(), symbols: Vec::new(), edges: Vec::new() }
    }
}

/// Whether files are numbered upwards from 1 under different paths; `ids` takes their numbers.
fn check_files(files: &Vec<FileRow>, ids: &mut HashSet<i64>) -> (r: bool)
    requires
        old(ids)@ == Set::<i64>::empty(),
    ensures
        r == files_wf(file_views(files@)),
        r ==> forall|id: i64| #[trigger] final(ids)@.contains(id) == has_id(file_views(files@), id),
{
    broadcast use vstd::std_specs::hash::group_hash_axioms;

    let ghost all = file_views(files@);
    let mut paths = StringHashSet::new();
    for i in 0..files.len()
        invariant
            all == file_views(files@),
            files_wf(all.take(i as int)),
            forall|id: i64| #[trigger] ids@.contains(id) == has_id(all.take(i as int), id),
            forall|p: Seq<char>| #[trigger] paths@.contains(p) == has_path(all.take(i as int), p),
    {
        let row = &files[i];
        let ghost before = all.take(i as int);
        let ghost after = all.take(i + 1);
        proof {
            assert(all[i as int] == row@);
            assert(after =~= before.push(row@));
        }
        if row.id < 1 || (i > 0 && files[i - 1].id >= row.id) {
            proof {
                if i > 0 {
                    assert(all[i - 1] == files@[i - 1]@);
                }
            }
            return false;
        }
        if !paths.insert(row.path.clone()) {
            proof {
                let k = at_path(before, row@.path);
                assert(0 <= k < before.len() && before[k].path == row@.path);
                assert(all[k].path == all[i as int].path);
            }
            return false;
        }
        ids.insert(row.id);
        proof {
            assert forall|a: int, b: int| 0 <= a < b < after.len() implies (
            #[trigger] after[a]).id < (#[trigger] after[b]).id && after[a].path
                != after[b].path by {
                if b == i {
                    assert(after[a] == before[a]);
                    assert(before[i - 1] == files@[i - 1]@);
                    if a < i - 1 {
                        assert(before[a].id < before[i - 1].id);
                    }
                    assert(before[a].path != row@.path);
                } else {
                    assert(after[a] == before[a] && after[b] == before[b]);
                }
            }
            assert forall|id: i64| has_id(after, id) == (has_id(before, id) || id == row.id) by {
                if has_id(before, id) {
                    assert(after[at_id(before, id)].id == id);
                }
                assert(after[i as int].id == row.id);
                if has_id(after, id) && id != row.id {
                    let k = at_id(after, id);
                    assert(before[k].id == id);
                }
            }
            assert forall|p: Seq<char>| has_path(after, p) == (has_path(before, p) || p
                == row@.path) by {
                if has_path(before, p) {
                    assert(after[at_path(before, p)].path == p);
                }
                assert(after[i as int].path == row@.path);
                if has_path(after, p) && p != row@.path {
                    let k = at_path(after, p);
                    assert(before[k].path == p);
                }
            }
        }
    }
    assert(all.take(all.len() as int) =~= all);
    true
}

impl Index {
    /// The index with these rows, if they keep its rules.
    pub fn from_rows(
        files: Vec<FileRow>,
        symbols: Vec<SymbolRow>,
        edges: Vec<EdgeRow>,
    ) -> (r: Option<Index>)
        ensures
            ({
                let v = IndexView {
                    files: file_views(files@),
                    symbols: symbol_views(symbols@),
                    edges: edge_views(edges@),
                };
                match r {
                    Some(index) => index.wf() && index@ == v,
                    None => !view_wf(v),
                }
            }),
    {
        broadcast use vstd::std_specs::hash::group_hash_axioms;

        let mut ids: HashSet<i64> = HashSet::new();
        if !check_files(&files, &mut ids) {
            return None;
        }
        let ghost fv = file_views(files@);
        let ghost sv = symbol_views(symbols@);
        let ghost ev = edge_views(edges@);
        for i in 0..symbols.len()
            invariant
                fv == file_views(files@),
                sv == symbol_views(symbols@),
                ev == edge_views(edges@),
                forall|id: i64| #[trigger] ids@.contains(id) == has_id(fv, id),
                symbols_wf(fv, sv.take(i as int)),
        {
            let row = &symbols[i];
            assert(sv[i as int] == row@);
            if row.id < 1 || (i > 0 && symbols[i - 1].id >= row.id) || !ids.contains(
                &row.file_id,
            ) {
                proof {
                    if i > 0 {
                        assert(sv[i - 1] == symbols@[i - 1]@);
                    }
                }
                return None;
            }
            proof {
                let after = sv.take(i + 1);
                assert forall|a: int, b: int| 0 <= a < b < after.len() implies (
                #[trigger] after[a]).id < (#[trigger] after[b]).id by {
                    let before = sv.take(i as int);
                    if b == i {
                        assert(after[a] == before[a]);
                        assert(before[i - 1] == symbols@[i - 1]@);
                        if a < i - 1 {
                            assert(before[a].id < before[i - 1].id);
                        }
                    } else {
                        assert(after[a] == before[a] && after[b] == before[b]);
                    }
                }
                assert forall|k: int| 0 <= k < after.len() implies (#[trigger] after[k]).id >= 1
                    && has_id(fv, after[k].file_id) by {
                    if k < i {
                        assert(after[k] == sv.take(i as int)[k]);
                    }
                }
            }
        }
        for i in 0..edges.len()
            invariant
                fv == file_views(files@),
                sv == symbol_views(symbols@),
                ev == edge_views(edges@),
                forall|id: i64| #[trigger] ids@.contains(id) == has_id(fv, id),
                edges_wf(fv, ev.take(i as int)),
        {
            let row = &edges[i];
            assert(ev[i as int] == row@);
            if row.id < 1 || (i > 0 && edges[i - 1].id >= row.id) || !ids.contains(&row.source_id)
                || !ids.contains(&row.target_id) {
                proof {
                    if i > 0 {
                        assert(ev[i - 1] == edges@[i - 1]@);
                    }
                }
                return None;
            }
            proof {
                let after = ev.take(i + 1);
                assert forall|a: int, b: int| 0 <= a < b < after.len() implies (
                #[trigger] after[a]).id < (#[trigger] after[b]).id by {
                    let before = ev.take(i as int);
                    if b == i {
                        assert(after[a] == before[a]);
                        assert(before[i - 1] == edges@[i - 1]@);
                        if a < i - 1 {
                            assert(before[a].id < before[i - 1].id);
                        }
                    } else {
                        assert(after[a] == before[a] && after[b] == before[b]);
                    }
                }
                assert forall|k: int| 0 <= k < after.len() implies (#[trigger] after[k]).id >= 1
                    && has_id(fv, after[k].source_id) && has_id(fv, after[k].target_id) by {
                    if k < i {
                        assert(after[k] == ev.take(i as int)[k]);
                    }
                }
            }
        }
        proof {
            assert(sv.take(sv.len() as int) =~= sv);
            assert(ev.take(ev.len() as int) =~= ev);
        }
        Some(Index { files, symbols, edges })
    }
}

/// The position of the file with this path.
pub(crate) fn find(index: &Index, path: &str) -> (r: Option<usize>)
    requires
        index.wf(),
    ensures
        match r {
            Some(i) => i < index.files@.len() && index@.files[i as int].path == path@ && has_path(
                index@.files,
                path@,
            ) && at_path(index@.files, path@) == i,
            None => !has_path(index@.files, path@),
        },
{
    let wanted = path.to_string();
    for i in 0..index.files.len()
        invariant
            index.wf(),
            wanted@ == path@,
            forall|k: int| 0 <= k < i ==> (#[trigger] index@.files[k]).path != path@,
    {
        assert(index@.files[i as int] == index.files@[i as int]@);
        if index.files[i].path == wanted {
            proof {
                lemma_at_path(index@.files, path@, i as int);
            }
            return Some(i);
        }
    }
    None
}

/// Whether a file has this number.
pub(crate) fn find_id(index: &Index, id: i64) -> (r: Option<usize>)
    requires
        index.wf(),
    ensures
        match r {
            Some(i) => i < index.files@.len() && index@.files[i as int].id == id && has_id(
                index@.files,
                id,
            ) && at_id(index@.files, id) == i,
            None => !has_id(index@.files, id),
        },
{
    for i in 0..index.files.len()
        invariant
            index.wf(),
            forall|k: int| 0 <= k < i ==> (#[trigger] index@.files[k]).id != id,
    {
        assert(index@.files[i as int] == index.files@[i as int]@);
        if index.files[i].id == id {
            proof {
                lemma_at_id(index@.files, id, i as int);
            }
            return Some(i);
        }
    }
    None
}

/// The hash of the file with this path.
pub fn get_file_hash(index: &Index, path: &str) -> (r: Option<String>)
    requires
        index.wf(),
    ensures
        text::opt_view(r) == hash_of(index@.files, path@),
{
    match find(index, path) {
        Some(i) => Some(index.files[i].hash.clone()),
        None => None,
    }
}

/// The number of the file with this path.
pub fn get_file_id(index: &Index, path: &str) -> (r: Option<i64>)
    requires
        index.wf(),
    ensures
        r == id_of(index@.files, path@),
{
    match find(index, path) {
        Some(i) => Some(index.files[i].id),
        None => None,
    }
}

/// The modification time kept for the file with this path.
pub fn get_file_mtime(index: &Index, path: &str) -> (r: Option<i64>)
    requires
        index.wf(),
    ensures
        r == mtime_of(index@.files, path@),
{
    match find(index, path) {
        Some(i) => index.files[i].mtime,
        None => None,
    }
}

/// Adds a file, or gives the file with this path another hash and rank. A change of the hash
/// drops what was said of the content. Returns the number of the file.
pub fn upsert_file(index: &mut Index, path: &str, hash: &str, rank: u64, now: i64) -> (r: Result<
    i64,
    IndexError,
>)
    requires
        old(index).wf(),
    ensures
        final(index).wf(),
        has_room_for(old(index)@, path@) ==> {
            &&& final(index)@ == upserted(old(index)@, path@, hash@, rank, now)
            &&& r is Ok
            &&& Some(r->Ok_0) == id_of(final(index)@.files, path@)
        },
        !has_room_for(old(index)@, path@) ==> final(index)@ == old(index)@ && r == Err::<
            i64,
            IndexError,
        >(IndexError::Full),
{
    let ghost before = index@;
    match find(index, path) {
        Some(i) => {
            let id: i64 = index.files[i].id;
            let wanted = hash.to_string();
            let kept = index.files[i].hash == wanted;
            let row = FileRow {
                id,
                path: index.files[i].path.clone(),
                hash: wanted,
                rank,
                updated_at: now,
                mtime: index.files[i].mtime,
                summary_enriched: if kept {
                    text::copy_opt(&index.files[i].summary_enriched)
                } else {
                    None
                },
                when_to_use_enriched: if kept {
                    text::copy_opt(&index.files[i].when_to_use_enriched)
                } else {
                    None
                },
                enriched_at: if kept {
                    index.files[i].enriched_at
                } else {
                    None
                },
            };
            let ghost shown = row@;
            proof {
                assert(before.files[i as int] == index.files@[i as int]@);
                assert(shown =~= refreshed(before.files[i as int], hash@, rank, now));
                lemma_update_wf(before, i as int, shown);
            }
            index.files.set(i, row);
            proof {
                assert(index@.files =~= before.files.update(i as int, shown));
                assert(index@ =~= upserted(before, path@, hash@, rank, now));
                lemma_at_path(index@.files, path@, i as int);
            }
            Ok(id)
        },
        None => {
            let n: usize = index.files.len();
            let last: i64 = if n == 0 {
                0
            } else {
                index.files[n - 1].id
            };
            proof {
                if n > 0 {
                    assert(before.files.last() == index.files@[n - 1]@);
                    assert(before.files.last().id >= 1);
                }
            }
            if last == i64::MAX {
                return Err(IndexError::Full);
            }
            let row = FileRow {
                id: last + 1,
                path: path.to_string(),
                hash: hash.to_string(),
                rank,
                updated_at: now,
                mtime: None,
                summary_enriched: None,
                when_to_use_enriched: None,
                enriched_at: None,
            };
            let ghost shown = row@;
            proof {
                assert(shown =~= new_file((last + 1) as i64, path@, hash@, rank, now));
                lemma_push_wf(before, shown);
            }
            index.files.push(row);
            proof {
                assert(index@.files =~= before.files.push(shown));
                assert(index@ =~= upserted(before, path@, hash@, rank, now));
                lemma_at_path(index@.files, path@, n as int);
            }
            Ok(last + 1)
        },
    }
}

/// A copy of a file row.
fn copy_file(row: &FileRow) -> (r: FileRow)
    ensures
        r@ == row@,
{
    FileRow {
        id: row.id,
        path: row.path.clone(),
        hash: row.hash.clone(),
        rank: row.rank,
        updated_at: row.updated_at,
        mtime: row.mtime,
        summary_enriched: text::copy_opt(&row.summary_enriched),
        when_to_use_enriched: text::copy_opt(&row.when_to_use_enriched),
        enriched_at: row.enriched_at,
    }
}

/// A copy of a symbol row.
fn copy_symbol(row: &SymbolRow) -> (r: SymbolRow)
    ensures
        r@ == row@,
{
    SymbolRow {
        id: row.id,
        file_id: row.file_id,
        name: row.name.clone(),
        kind: row.kind.clone(),
        is_exported: row.is_exported,
        line: row.line,
        ref_count: row.ref_count,
    }
}

/// A copy of an edge row.
fn copy_edge(row: &EdgeRow) -> (r: EdgeRow)
    ensures
        r@ == row@,
{
    EdgeRow {
        id: row.id,
        source_id: row.source_id,
        target_id: row.target_id,
        edge_type: row.edge_type.clone(),
        specifier: text::copy_opt(&row.specifier),
    }
}

/// Keeps the modification time of a file, if the index holds the file.
pub fn update_file_mtime(index: &mut Index, path: &str, mtime: i64)
    requires
        old(index).wf(),
    ensures
        final(index).wf(),
        final(index)@ == with_mtime(old(index)@, path@, mtime),
{
    let ghost before = index@;
    match find(index, path) {
        Some(i) => {
            let mut row = copy_file(&index.files[i]);
            row.mtime = Some(mtime);
            let ghost shown = row@;
            proof {
                assert(before.files[i as int] == index.files@[i as int]@);
                assert(shown =~= (FileView { mtime: Some(mtime), ..before.files[i as int] }));
                lemma_update_wf(before, i as int, shown);
            }
            index.files.set(i, row);
            assert(index@.files =~= before.files.update(i as int, shown));
        },
        None => {},
    }
    assert(index@ =~= with_mtime(before, path@, mtime));
}

/// Replacing the row of a path by one with the same number and path keeps the rules.
proof fn lemma_with_row_wf(v: IndexView, path: Seq<char>, row: FileView)
    requires
        view_wf(v),
        has_path(v.files, path) ==> row.id == v.files[at_path(v.files, path)].id && row.path
            == path,
    ensures
        view_wf(IndexView { files: with_row(v.files, path, row), ..v }),
{
    if has_path(v.files, path) {
        let i = at_path(v.files, path);
        assert(0 <= i < v.files.len() && v.files[i].path == path);
        lemma_update_wf(v, i, row);
    } else {
        assert((IndexView { files: with_row(v.files, path, row), ..v }) =~= v);
    }
}

/// Setting ranks keeps the rules.
proof fn lemma_reranked_wf(v: IndexView, ranks: Seq<(Seq<char>, u64)>)
    requires
        view_wf(v),
    ensures
        view_wf(IndexView { files: reranked(v.files, ranks), ..v }),
    decreases ranks.len(),
{
    if ranks.len() == 0 {
        assert((IndexView { files: reranked(v.files, ranks), ..v }) =~= v);
    } else {
        lemma_reranked_wf(v, ranks.drop_last());
        let before = IndexView { files: reranked(v.files, ranks.drop_last()), ..v };
        let (path, rank) = ranks.last();
        lemma_with_row_wf(
            before,
            path,
            FileView { rank, ..before.files[at_path(before.files, path)] },
        );
    }
}

/// Sets the rank of each listed file that the index holds.
pub fn update_ranks(index: &mut Index, ranks: &Vec<(String, u64)>)
    requires
        old(index).wf(),
    ensures
        final(index).wf(),
        final(index)@ == (IndexView {
            files: reranked(old(index)@.files, rank_views(ranks@)),
            ..old(index)@
        }),
{
    let ghost start = index@;
    let ghost all = rank_views(ranks@);
    assert(all.take(0) =~= Seq::<(Seq<char>, u64)>::empty());
    for n in 0..ranks.len()
        invariant
            index.wf(),
            all == rank_views(ranks@),
            index@.files == reranked(start.files, all.take(n as int)),
            index@.symbols == start.symbols,
            index@.edges == start.edges,
    {
        let ghost before = index@;
        let rank: u64 = ranks[n].1;
        proof {
            assert(all.take(n + 1).drop_last() =~= all.take(n as int));
            assert(all.take(n + 1).last() == all[n as int]);
        }
        match find(index, ranks[n].0.as_str()) {
            Some(i) => {
                let mut row = copy_file(&index.files[i]);
                row.rank = rank;
                let ghost shown = row@;
                proof {
                    assert(before.files[i as int] == index.files@[i as int]@);
                    assert(shown =~= (FileView { rank, ..before.files[i as int] }));
                    lemma_update_wf(before, i as int, shown);
                }
                index.files.set(i, row);
                assert(index@.files =~= before.files.update(i as int, shown));
            },
            None => {},
        }
    }
    assert(all.take(all.len() as int) =~= all);
    assert(index@ =~= (IndexView { files: reranked(start.files, all), ..start }));
}

/// What holds of the rows that are kept: they stand in the same order, and a row is kept if and
/// only if the test holds.
proof fn lemma_filter_files(files: Seq<FileView>, keep: spec_fn(FileView) -> bool)
    requires
        files_wf(files),
    ensures
        files_wf(files.filter(keep)),
        forall|k: int|
            0 <= k < files.filter(keep).len() ==> files.contains(#[trigger] files.filter(keep)[k])
                && keep(files.filter(keep)[k]),
        forall|i: int|
            0 <= i < files.len() && keep(#[trigger] files[i]) ==> files.filter(keep).contains(
                files[i],
            ),
    decreases files.len(),
{
    reveal(Seq::filter);
    if files.len() > 0 {
        let rest = files.drop_last();
        let out = files.filter(keep);
        lemma_filter_files(rest, keep);
        assert forall|k: int| 0 <= k < out.len() implies files.contains(#[trigger] out[k]) && keep(
            out[k],
        ) by {
            if k < rest.filter(keep).len() {
                let p = choose|p: int| 0 <= p < rest.len() && rest[p] == out[k];
                assert(files[p] == out[k]);
            } else {
                assert(files[files.len() - 1] == out[k]);
            }
        }
        assert forall|a: int, b: int| 0 <= a < b < out.len() implies (#[trigger] out[a]).id < (
        #[trigger] out[b]).id && out[a].path != out[b].path by {
            if b == rest.filter(keep).len() {
                assert(rest.contains(rest.filter(keep)[a]));
                let p = choose|p: int| 0 <= p < rest.len() && rest[p] == out[a];
                assert(files[p] == out[a] && out[b] == files[files.len() - 1]);
            }
        }
        assert forall|i: int| 0 <= i < files.len() && keep(#[trigger] files[i]) implies out.contains(
            files[i],
        ) by {
            if i < rest.len() {
                assert(rest[i] == files[i]);
                assert(rest.filter(keep).contains(files[i]));
                let p = choose|p: int|
                    0 <= p < rest.filter(keep).len() && rest.filter(keep)[p] == files[i];
                assert(out[p] == files[i]);
            } else {
                assert(out.last() == files[i]);
            }
        }
    }
}

/// What holds of the symbols that are kept.
proof fn lemma_filter_symbols(
    files: Seq<FileView>,
    symbols: Seq<SymbolView>,
    keep: spec_fn(SymbolView) -> bool,
)
    requires
        symbols_wf(files, symbols),
    ensures
        symbols_wf(files, symbols.filter(keep)),
        forall|k: int|
            0 <= k < symbols.filter(keep).len() ==> symbols.contains(
                #[trigger] symbols.filter(keep)[k],
            ) && keep(symbols.filter(keep)[k]),
    decreases symbols.len(),
{
    reveal(Seq::filter);
    if symbols.len() > 0 {
        let rest = symbols.drop_last();
        let out = symbols.filter(keep);
        lemma_filter_symbols(files, rest, keep);
        assert forall|k: int| 0 <= k < out.len() implies symbols.contains(#[trigger] out[k])
            && keep(out[k]) by {
            if k < rest.filter(keep).len() {
                let p = choose|p: int| 0 <= p < rest.len() && rest[p] == out[k];
                assert(symbols[p] == out[k]);
            } else {
                assert(symbols[symbols.len() - 1] == out[k]);
            }
        }
        assert forall|a: int, b: int| 0 <= a < b < out.len() implies (#[trigger] out[a]).id < (
        #[trigger] out[b]).id by {
            if b == rest.filter(keep).len() {
                assert(rest.contains(rest.filter(keep)[a]));
                let p = choose|p: int| 0 <= p < rest.len() && rest[p] == out[a];
                assert(symbols[p] == out[a] && out[b] == symbols[symbols.len() - 1]);
            }
        }
    }
}

/// What holds of the edges that are kept.
proof fn lemma_filter_edges(
    files: Seq<FileView>,
    edges: Seq<EdgeView>,
    keep: spec_fn(EdgeView) -> bool,
)
    requires
        edges_wf(files, edges),
    ensures
        edges_wf(files, edges.filter(keep)),
        forall|k: int|
            0 <= k < edges.filter(keep).len() ==> edges.contains(#[trigger] edges.filter(keep)[k])
                && keep(edges.filter(keep)[k]),
    decreases edges.len(),
{
    reveal(Seq::filter);
    if edges.len() > 0 {
        let rest = edges.drop_last();
        let out = edges.filter(keep);
        lemma_filter_edges(files, rest, keep);
        assert forall|k: int| 0 <= k < out.len() implies edges.contains(#[trigger] out[k]) && keep(
            out[k],
        ) by {
            if k < rest.filter(keep).len() {
                let p = choose|p: int| 0 <= p < rest.len() && rest[p] == out[k];
                assert(edges[p] == out[k]);
            } else {
                assert(edges[edges.len() - 1] == out[k]);
            }
        }
        assert forall|a: int, b: int| 0 <= a < b < out.len() implies (#[trigger] out[a]).id < (
        #[trigger] out[b]).id by {
            if b == rest.filter(keep).len() {
                assert(rest.contains(rest.filter(keep)[a]));
                let p = choose|p: int| 0 <= p < rest.len() && rest[p] == out[a];
                assert(edges[p] == out[a] && out[b] == edges[edges.len() - 1]);
            }
        }
    }
}

/// Removing files with what belongs to them keeps the rules.
proof fn lemma_without_stale_wf(v: IndexView, known: Seq<Seq<char>>)
    requires
        view_wf(v),
    ensures
        view_wf(without_stale(v, known)),
{
    let keep = |f: FileView| known.contains(f.path);
    let files = v.files.filter(keep);
    let keep_symbol = |s: SymbolView| has_id(files, s.file_id);
    let keep_edge = |e: EdgeView| has_id(files, e.source_id) && has_id(files, e.target_id);
    lemma_filter_files(v.files, keep);
    lemma_filter_symbols(v.files, v.symbols, keep_symbol);
    lemma_filter_edges(v.files, v.edges, keep_edge);
}

/// Removes the files whose paths are not among the known ones, with their symbols and edges.
/// Returns how many files were removed.
pub fn delete_stale_files(index: &mut Index, known_paths: &Vec<String>) -> (r: usize)
    requires
        old(index).wf(),
    ensures
        final(index).wf(),
        final(index)@ == without_stale(old(index)@, text::views(known_paths@)),
        r == old(index)@.files.len() - final(index)@.files.len(),
{
    let ghost start = index@;
    let ghost known = text::views(known_paths@);
    let ghost keep = |f: FileView| known.contains(f.path);
    let mut files: Vec<FileRow> = Vec::new();
    proof {
        reveal(Seq::filter);
        assert(start.files.take(0) =~= Seq::<FileView>::empty());
    }
    for i in 0..index.files.len()
        invariant
            index@ == start,
            known == text::views(known_paths@),
            keep == (|f: FileView| known.contains(f.path)),
            file_views(files@) == start.files.take(i as int).filter(keep),
            files@.len() <= i,
    {
        reveal(Seq::filter);
        let ghost before = file_views(files@);
        proof {
            assert(start.files.take(i + 1).drop_last() =~= start.files.take(i as int));
            assert(start.files.take(i + 1).last() == index.files@[i as int]@);
        }
        if text::holds(known_paths, index.files[i].path.as_str()) {
            let row = copy_file(&index.files[i]);
            let ghost shown = row@;
            files.push(row);
            assert(file_views(files@) =~= before.push(shown));
        }
    }
    assert(start.files.take(start.files.len() as int) =~= start.files);
    let deleted: usize = index.files.len() - files.len();
    let kept = Index { files, symbols: Vec::new(), edges: Vec::new() };
    proof {
        lemma_filter_files(start.files, keep);
    }
    let ghost left = kept@.files;
    let ghost keep_symbol = |s: SymbolView| has_id(left, s.file_id);
    let ghost keep_edge = |e: EdgeView| has_id(left, e.source_id) && has_id(left, e.target_id);
    let mut symbols: Vec<SymbolRow> = Vec::new();
    assert(start.symbols.take(0) =~= Seq::<SymbolView>::empty());
    for i in 0..index.symbols.len()
        invariant
            index@ == start,
            kept.wf(),
            left == kept@.files,
            keep_symbol == (|s: SymbolView| has_id(left, s.file_id)),
            symbol_views(symbols@) == start.symbols.take(i as int).filter(keep_symbol),
    {
        reveal(Seq::filter);
        let ghost before = symbol_views(symbols@);
        proof {
            assert(start.symbols.take(i + 1).drop_last() =~= start.symbols.take(i as int));
            assert(start.symbols.take(i + 1).last() == index.symbols@[i as int]@);
        }
        if find_id(&kept, index.symbols[i].file_id).is_some() {
            let row = copy_symbol(&index.symbols[i]);
            let ghost shown = row@;
            symbols.push(row);
            assert(symbol_views(symbols@) =~= before.push(shown));
        }
    }
    let mut edges: Vec<EdgeRow> = Vec::new();
    assert(start.edges.take(0) =~= Seq::<EdgeView>::empty());
    for i in 0..index.edges.len()
        invariant
            index@ == start,
            kept.wf(),
            left == kept@.files,
            keep_edge == (|e: EdgeView| has_id(left, e.source_id) && has_id(left, e.target_id)),
            edge_views(edges@) == start.edges.take(i as int).filter(keep_edge),
    {
        reveal(Seq::filter);
        let ghost before = edge_views(edges@);
        proof {
            assert(start.edges.take(i + 1).drop_last() =~= start.edges.take(i as int));
            assert(start.edges.take(i + 1).last() == index.edges@[i as int]@);
        }
        if find_id(&kept, index.edges[i].source_id).is_some() && find_id(
            &kept,
            index.edges[i].target_id,
        ).is_some() {
            let row = copy_edge(&index.edges[i]);
            let ghost shown = row@;
            edges.push(row);
            assert(edge_views(edges@) =~= before.push(shown));
        }
    }
    proof {
        assert(start.symbols.take(start.symbols.len() as int) =~= start.symbols);
        assert(start.edges.take(start.edges.len() as int) =~= start.edges);
        lemma_without_stale_wf(start, known);
    }
    *index = Index { files: kept.files, symbols, edges };
    proof {
        assert(index@.files == left);
        assert(index@ =~= without_stale(start, known));
    }
    deleted
}

// ---------------------------------------------------------------------------------------------
// Symbols and edges
// ---------------------------------------------------------------------------------------------

/// A symbol to be inserted: name, kind, export flag, line and number of references.
pub type NewSymbol = (String, String, bool, Option<i32>, usize);

/// An edge to be inserted: number of the target, type and specifier.
pub type NewEdge = (i64, String, Option<String>);

/// What a symbol to be inserted says.
pub type NewSymbolView = (Seq<char>, Seq<char>, bool, Option<i32>, usize);

/// What an edge to be inserted says.
pub type NewEdgeView = (i64, Seq<char>, Option<Seq<char>>);

/// What some symbols to be inserted say.
pub open spec fn new_symbol_views(new: Seq<NewSymbol>) -> Seq<NewSymbolView> {
    new.map_values(|s: NewSymbol| (s.0@, s.1@, s.2, s.3, s.4))
}

/// What some edges to be inserted say.
pub open spec fn new_edge_views(new: Seq<NewEdge>) -> Seq<NewEdgeView> {
    new.map_values(|e: NewEdge| (e.0, e.1@, text::opt_view(e.2)))
}

/// The number of the last symbol, or 0.
pub open spec fn last_symbol_id(symbols: Seq<SymbolView>) -> int {
    if symbols.len() == 0 {
        0
    } else {
        symbols.last().id as int
    }
}

/// The number of the last edge, or 0.
pub open spec fn last_edge_id(edges: Seq<EdgeView>) -> int {
    if edges.len() == 0 {
        0
    } else {
        edges.last().id as int
    }
}

/// The row of a symbol that is inserted.
pub open spec fn symbol_row(id: i64, file_id: i64, new: NewSymbolView) -> SymbolView {
    SymbolView {
        id,
        file_id,
        name: new.0,
        kind: new.1,
        is_exported: new.2,
        line: new.3,
        ref_count: new.4 as i64,
    }
}

/// The row of an edge that is inserted.
pub open spec fn edge_row(id: i64, source_id: i64, new: NewEdgeView) -> EdgeView {
    EdgeView {
        id,
        source_id,
        target_id: new.0,
        edge_type: new.1,
        specifier: new.2,
    }
}

/// The symbols with more of a file, numbered on.
pub open spec fn with_symbols(
    symbols: Seq<SymbolView>,
    file_id: i64,
    new: Seq<NewSymbolView>,
) -> Seq<SymbolView>
    decreases new.len(),
{
    if new.len() == 0 {
        symbols
    } else {
        let before = with_symbols(symbols, file_id, new.drop_last());
        before.push(symbol_row((last_symbol_id(before) + 1) as i64, file_id, new.last()))
    }
}

/// The edges with more from a file, numbered on.
pub open spec fn with_edges(
    edges: Seq<EdgeView>,
    source_id: i64,
    new: Seq<NewEdgeView>,
) -> Seq<EdgeView>
    decreases new.len(),
{
    if new.len() == 0 {
        edges
    } else {
        let before = with_edges(edges, source_id, new.drop_last());
        before.push(edge_row((last_edge_id(before) + 1) as i64, source_id, new.last()))
    }
}

/// The symbols of the other files.
pub open spec fn symbols_besides(symbols: Seq<SymbolView>, file_id: i64) -> Seq<SymbolView> {
    symbols.filter(|s: SymbolView| s.file_id != file_id)
}

/// The edges from the other files.
pub open spec fn edges_besides(edges: Seq<EdgeView>, source_id: i64) -> Seq<EdgeView> {
    edges.filter(|e: EdgeView| e.source_id != source_id)
}

/// How many numbers are left after the last one.
pub open spec fn room_after(last: int) -> nat {
    (i64::MAX - last) as nat
}

/// How many of the edges at the start of a list lead to files of the index.
pub open spec fn leading_valid(files: Seq<FileView>, new: Seq<NewEdgeView>) -> nat
    decreases new.len(),
{
    if new.len() == 0 || !has_id(files, new[0].0) {
        0
    } else {
        1 + leading_valid(files, new.drop_first())
    }
}

/// How many edges of a list can be inserted before one is refused.
pub open spec fn edges_accepted(files: Seq<FileView>, source_id: i64, new: Seq<NewEdgeView>) -> nat {
    if has_id(files, source_id) {
        leading_valid(files, new)
    } else {
        0
    }
}

/// A leading number of edges that lead to files.
pub proof fn lemma_leading_valid(files: Seq<FileView>, new: Seq<NewEdgeView>, n: int)
    requires
        0 <= n <= new.len(),
        forall|k: int| 0 <= k < n ==> has_id(files, (#[trigger] new[k]).0),
        n < new.len() ==> !has_id(files, new[n].0),
    ensures
        leading_valid(files, new) == n,
    decreases new.len(),
{
    if n > 0 {
        let rest = new.drop_first();
        assert forall|k: int| 0 <= k < n - 1 implies has_id(files, (#[trigger] rest[k]).0) by {
            assert(rest[k] == new[k + 1]);
        }
        assert(has_id(files, new[0].0));
        lemma_leading_valid(files, rest, n - 1);
    }
}

/// A leading number of edges that lead to files is at most the whole leading part.
proof fn lemma_leading_at_least(files: Seq<FileView>, new: Seq<NewEdgeView>, n: int)
    requires
        0 <= n <= new.len(),
        forall|k: int| 0 <= k < n ==> has_id(files, (#[trigger] new[k]).0),
    ensures
        n <= leading_valid(files, new) <= new.len(),
    decreases new.len(),
{
    if new.len() > 0 {
        let rest = new.drop_first();
        if n > 0 {
            assert forall|k: int| 0 <= k < n - 1 implies has_id(files, (#[trigger] rest[k]).0) by {
                assert(rest[k] == new[k + 1]);
            }
            assert(has_id(files, new[0].0));
            lemma_leading_at_least(files, rest, n - 1);
        } else {
            lemma_leading_at_least(files, rest, 0);
        }
    }
}

/// Replaces the symbols of a file. Symbols for a file that the index does not hold are refused.
pub fn insert_symbols(index: &mut Index, file_id: i64, symbols: &Vec<NewSymbol>) -> (r: Result<
    (),
    IndexError,
>)
    requires
        old(index).wf(),
    ensures
        final(index).wf(),
        final(index)@.files == old(index)@.files,
        final(index)@.edges == old(index)@.edges,
        ({
            let kept = symbols_besides(old(index)@.symbols, file_id);
            let room = room_after(last_symbol_id(kept));
            if symbols@.len() == 0 {
                r is Ok && final(index)@.symbols == kept
            } else if !has_id(old(index)@.files, file_id) {
                r == Err::<(), IndexError>(IndexError::UnknownFile) && final(index)@.symbols == kept
            } else if symbols@.len() <= room {
                r is Ok && final(index)@.symbols == with_symbols(kept, file_id, new_symbol_views(symbols@))
            } else {
                r == Err::<(), IndexError>(IndexError::Full) && final(index)@.symbols
                    == with_symbols(kept, file_id, new_symbol_views(symbols@).take(room as int))
            }
        }),
{
    let ghost start = index@;
    let ghost keep = |s: SymbolView| s.file_id != file_id;
    let mut rows: Vec<SymbolRow> = Vec::new();
    proof {
        reveal(Seq::filter);
        assert(start.symbols.take(0) =~= Seq::<SymbolView>::empty());
    }
    for i in 0..index.symbols.len()
        invariant
            index@ == start,
            keep == (|s: SymbolView| s.file_id != file_id),
            symbol_views(rows@) == start.symbols.take(i as int).filter(keep),
    {
        reveal(Seq::filter);
        let ghost before = symbol_views(rows@);
        proof {
            assert(start.symbols.take(i + 1).drop_last() =~= start.symbols.take(i as int));
            assert(start.symbols.take(i + 1).last() == index.symbols@[i as int]@);
        }
        if index.symbols[i].file_id != file_id {
            let row = copy_symbol(&index.symbols[i]);
            let ghost shown = row@;
            rows.push(row);
            assert(symbol_views(rows@) =~= before.push(shown));
        }
    }
    proof {
        assert(start.symbols.take(start.symbols.len() as int) =~= start.symbols);
        lemma_filter_symbols(start.files, start.symbols, keep);
    }
    let ghost kept = symbols_besides(start.symbols, file_id);
    index.symbols = rows;
    if symbols.len() == 0 {
        return Ok(());
    }
    if find_id(index, file_id).is_none() {
        return Err(IndexError::UnknownFile);
    }
    let ghost new = new_symbol_views(symbols@);
    assert(new.take(0) =~= Seq::<NewSymbolView>::empty());
    for i in 0..symbols.len()
        invariant
            index.wf(),
            has_id(index@.files, file_id),
            index@.files == start.files,
            index@.edges == start.edges,
            index@.symbols == with_symbols(kept, file_id, new.take(i as int)),
            last_symbol_id(index@.symbols) == last_symbol_id(kept) + i,
            kept == symbols_besides(start.symbols, file_id),
            start == old(index)@,
            symbols@.len() > 0,
            new == new_symbol_views(symbols@),
            has_id(old(index)@.files, file_id),
    {
        let ghost before = index@.symbols;
        let n: usize = index.symbols.len();
        let last: i64 = if n == 0 {
            0
        } else {
            index.symbols[n - 1].id
        };
        proof {
            if n > 0 {
                assert(before.last() == index.symbols@[n - 1]@);
                assert(before.last().id >= 1);
            }
            assert(last == last_symbol_id(before));
            assert(new.take(i + 1).drop_last() =~= new.take(i as int));
            assert(new.take(i + 1).last() == new[i as int]);
        }
        if last == i64::MAX {
            return Err(IndexError::Full);
        }
        let row = SymbolRow {
            id: last + 1,
            file_id,
            name: symbols[i].0.clone(),
            kind: symbols[i].1.clone(),
            is_exported: symbols[i].2,
            line: symbols[i].3,
            ref_count: symbols[i].4 as i64,
        };
        let ghost shown = row@;
        index.symbols.push(row);
        proof {
            assert(index@.symbols =~= before.push(shown));
            assert(shown =~= symbol_row((last + 1) as i64, file_id, new[i as int]));
            assert forall|a: int, b: int| 0 <= a < b < index@.symbols.len() implies (
            #[trigger] index@.symbols[a]).id < (#[trigger] index@.symbols[b]).id by {
                if b == before.len() && a < before.len() - 1 {
                    assert(before[a].id < before[before.len() - 1].id);
                }
            }
        }
    }
    assert(new.take(new.len() as int) =~= new);
    Ok(())
}

/// Replaces the edges from a file. The edges are inserted one by one until one of them joins a
/// file that the index does not hold.
pub fn insert_edges(index: &mut Index, source_id: i64, edges: &Vec<NewEdge>) -> (r: Result<
    (),
    IndexError,
>)
    requires
        old(index).wf(),
    ensures
        final(index).wf(),
        final(index)@.files == old(index)@.files,
        final(index)@.symbols == old(index)@.symbols,
        ({
            let kept = edges_besides(old(index)@.edges, source_id);
            let room = room_after(last_edge_id(kept));
            let accepted = edges_accepted(old(index)@.files, source_id, new_edge_views(edges@));
            if accepted <= room {
                &&& final(index)@.edges == with_edges(
                    kept,
                    source_id,
                    new_edge_views(edges@).take(accepted as int),
                )
                &&& if accepted == edges@.len() {
                    r is Ok
                } else {
                    r == Err::<(), IndexError>(IndexError::UnknownFile)
                }
            } else {
                &&& final(index)@.edges == with_edges(
                    kept,
                    source_id,
                    new_edge_views(edges@).take(room as int),
                )
                &&& r == Err::<(), IndexError>(IndexError::Full)
            }
        }),
{
    let ghost start = index@;
    let ghost keep = |e: EdgeView| e.source_id != source_id;
    let mut rows: Vec<EdgeRow> = Vec::new();
    proof {
        reveal(Seq::filter);
        assert(start.edges.take(0) =~= Seq::<EdgeView>::empty());
    }
    for i in 0..index.edges.len()
        invariant
            index@ == start,
            keep == (|e: EdgeView| e.source_id != source_id),
            edge_views(rows@) == start.edges.take(i as int).filter(keep),
    {
        reveal(Seq::filter);
        let ghost before = edge_views(rows@);
        proof {
            assert(start.edges.take(i + 1).drop_last() =~= start.edges.take(i as int));
            assert(start.edges.take(i + 1).last() == index.edges@[i as int]@);
        }
        if index.edges[i].source_id != source_id {
            let row = copy_edge(&index.edges[i]);
            let ghost shown = row@;
            rows.push(row);
            assert(edge_views(rows@) =~= before.push(shown));
        }
    }
    proof {
        assert(start.edges.take(start.edges.len() as int) =~= start.edges);
        lemma_filter_edges(start.files, start.edges, keep);
    }
    let ghost kept = edges_besides(start.edges, source_id);
    let ghost new = new_edge_views(edges@);
    index.edges = rows;
    proof {
        assert(new.take(0) =~= Seq::<NewEdgeView>::empty());
        if kept.len() > 0 {
            assert(kept.last().id >= 1);
        }
    }
    if find_id(index, source_id).is_none() {
        return if edges.len() == 0 {
            Ok(())
        } else {
            Err(IndexError::UnknownFile)
        };
    }
    for i in 0..edges.len()
        invariant
            index.wf(),
            has_id(index@.files, source_id),
            index@.files == start.files,
            index@.symbols == start.symbols,
            index@.edges == with_edges(kept, source_id, new.take(i as int)),
            last_edge_id(index@.edges) == last_edge_id(kept) + i,
            last_edge_id(kept) + i <= i64::MAX,
            forall|k: int| 0 <= k < i ==> has_id(start.files, (#[trigger] new[k]).0),
            new == new_edge_views(edges@),
            kept == edges_besides(start.edges, source_id),
            start == old(index)@,
    {
        let ghost before = index@.edges;
        if find_id(index, edges[i].0).is_none() {
            proof {
                lemma_leading_valid(start.files, new, i as int);
            }
            return Err(IndexError::UnknownFile);
        }
        let n: usize = index.edges.len();
        let last: i64 = if n == 0 {
            0
        } else {
            index.edges[n - 1].id
        };
        proof {
            if n > 0 {
                assert(before.last() == index.edges@[n - 1]@);
                assert(before.last().id >= 1);
            }
            assert(last == last_edge_id(before));
            assert(new.take(i + 1).drop_last() =~= new.take(i as int));
            assert(new.take(i + 1).last() == new[i as int]);
        }
        if last == i64::MAX {
            proof {
                lemma_leading_at_least(start.files, new, i + 1);
            }
            return Err(IndexError::Full);
        }
        let row = EdgeRow {
            id: last + 1,
            source_id,
            target_id: edges[i].0,
            edge_type: edges[i].1.clone(),
            specifier: text::copy_opt(&edges[i].2),
        };
        let ghost shown = row@;
        index.edges.push(row);
        proof {
            assert(index@.edges =~= before.push(shown));
            assert(shown =~= edge_row((last + 1) as i64, source_id, new[i as int]));
            assert forall|a: int, b: int| 0 <= a < b < index@.edges.len() implies (
            #[trigger] index@.edges[a]).id < (#[trigger] index@.edges[b]).id by {
                if b == before.len() && a < before.len() - 1 {
                    assert(before[a].id < before[before.len() - 1].id);
                }
            }
        }
    }
    proof {
        lemma_leading_valid(start.files, new, new.len() as int);
    }
    Ok(())
}

// ---------------------------------------------------------------------------------------------
// Enrichment
// ---------------------------------------------------------------------------------------------

/// How many files the index holds, and how many of them have a summary.
#[derive(Debug)]
pub struct EnrichmentStats {
    pub total_files: i64,
    pub enriched_files: i64,
}

/// A file with a summary and a note on when to use it.
pub open spec fn enriched(
    row: FileView,
    summary: Seq<char>,
    when_to_use: Seq<char>,
    now: i64,
) -> FileView {
    FileView {
        summary: Some(summary),
        when_to_use: Some(when_to_use),
        enriched_at: Some(now),
        ..row
    }
}

/// A file without summary and note.
pub open spec fn plain(row: FileView) -> FileView {
    FileView { summary: None, when_to_use: None, enriched_at: None, ..row }
}

/// The index with a summary and a note for a file, if it holds the file.
pub open spec fn with_enrichment(
    v: IndexView,
    path: Seq<char>,
    summary: Seq<char>,
    when_to_use: Seq<char>,
    now: i64,
) -> IndexView {
    IndexView {
        files: with_row(
            v.files,
            path,
            enriched(v.files[at_path(v.files, path)], summary, when_to_use, now),
        ),
        ..v
    }
}

/// The index without summary and note for a file, if it holds the file.
pub open spec fn without_enrichment(v: IndexView, path: Seq<char>) -> IndexView {
    IndexView { files: with_row(v.files, path, plain(v.files[at_path(v.files, path)])), ..v }
}

/// The files, each without summary and note if it had a summary.
pub open spec fn all_plain(files: Seq<FileView>) -> Seq<FileView> {
    files.map_values(
        |f: FileView|
            if f.summary is Some {
                plain(f)
            } else {
                f
            },
    )
}

/// How many files have a summary.
pub open spec fn count_enriched(files: Seq<FileView>) -> nat
    decreases files.len(),
{
    if files.len() == 0 {
        0
    } else {
        count_enriched(files.drop_last()) + (if files.last().summary is Some {
            1nat
        } else {
            0nat
        })
    }
}

/// Puts another row with the same number and path at a position.
fn replace_row(index: &mut Index, i: usize, row: FileRow)
    requires
        old(index).wf(),
        i < old(index).files@.len(),
        row@.id == old(index)@.files[i as int].id,
        row@.path == old(index)@.files[i as int].path,
    ensures
        final(index).wf(),
        final(index)@ == (IndexView {
            files: old(index)@.files.update(i as int, row@),
            ..old(index)@
        }),
{
    let ghost before = index@;
    let ghost shown = row@;
    proof {
        lemma_update_wf(before, i as int, shown);
    }
    index.files.set(i, row);
    assert(index@.files =~= before.files.update(i as int, shown));
}

/// Keeps a summary of a file and a note on when to use it.
pub fn set_enrichment(
    index: &mut Index,
    path: &str,
    summary: &str,
    when_to_use: &str,
    now: i64,
) -> (r: Result<(), IndexError>)
    requires
        old(index).wf(),
    ensures
        final(index).wf(),
        final(index)@ == with_enrichment(old(index)@, path@, summary@, when_to_use@, now),
        has_path(old(index)@.files, path@) ==> r is Ok,
        !has_path(old(index)@.files, path@) ==> (r matches Err(IndexError::FileNotFound { path: p })
            && p@ == path@),
{
    match find(index, path) {
        Some(i) => {
            let mut row = copy_file(&index.files[i]);
            row.summary_enriched = Some(summary.to_string());
            row.when_to_use_enriched = Some(when_to_use.to_string());
            row.enriched_at = Some(now);
            proof {
                assert(index@.files[i as int] == index.files@[i as int]@);
                assert(row@ =~= enriched(index@.files[i as int], summary@, when_to_use@, now));
            }
            replace_row(index, i, row);
            Ok(())
        },
        None => Err(IndexError::FileNotFound { path: path.to_string() }),
    }
}

/// Drops the summary of a file and the note on when to use it.
pub fn clear_enrichment(index: &mut Index, path: &str) -> (r: Result<(), IndexError>)
    requires
        old(index).wf(),
    ensures
        final(index).wf(),
        final(index)@ == without_enrichment(old(index)@, path@),
        has_path(old(index)@.files, path@) ==> r is Ok,
        !has_path(old(index)@.files, path@) ==> (r matches Err(IndexError::FileNotFound { path: p })
            && p@ == path@),
{
    match find(index, path) {
        Some(i) => {
            let mut row = copy_file(&index.files[i]);
            row.summary_enriched = None;
            row.when_to_use_enriched = None;
            row.enriched_at = None;
            proof {
                assert(index@.files[i as int] == index.files@[i as int]@);
                assert(row@ =~= plain(index@.files[i as int]));
            }
            replace_row(index, i, row);
            Ok(())
        },
        None => Err(IndexError::FileNotFound { path: path.to_string() }),
    }
}

/// Drops every summary and note. Returns how many files had a summary.
pub fn clear_all_enrichments(index: &mut Index) -> (r: usize)
    requires
        old(index).wf(),
    ensures
        final(index).wf(),
        final(index)@ == (IndexView { files: all_plain(old(index)@.files), ..old(index)@ }),
        r == count_enriched(old(index)@.files),
{
    let ghost start = index@;
    let n: usize = index.files.len();
    let mut cleared: usize = 0;
    assert(start.files.take(0) =~= Seq::<FileView>::empty());
    for i in 0..n
        invariant
            n == start.files.len(),
            index.wf(),
            index@.files.len() == n,
            index@.symbols == start.symbols,
            index@.edges == start.edges,
            forall|k: int| 0 <= k < i ==> #[trigger] index@.files[k] == all_plain(start.files)[k],
            forall|k: int| i <= k < n ==> #[trigger] index@.files[k] == start.files[k],
            cleared == count_enriched(start.files.take(i as int)),
            cleared <= i,
    {
        proof {
            assert(start.files.take(i + 1).drop_last() =~= start.files.take(i as int));
            assert(start.files.take(i + 1).last() == start.files[i as int]);
            assert(index@.files[i as int] == index.files@[i as int]@);
        }
        if index.files[i].summary_enriched.is_some() {
            let mut row = copy_file(&index.files[i]);
            row.summary_enriched = None;
            row.when_to_use_enriched = None;
            row.enriched_at = None;
            assert(row@ =~= plain(start.files[i as int]));
            replace_row(index, i, row);
            cleared += 1;
        }
    }
    assert(start.files.take(n as int) =~= start.files);
    assert(index@.files =~= all_plain(start.files));
    cleared
}

/// The number of files is at most the last number of one.
pub proof fn lemma_file_count(files: Seq<FileView>)
    requires
        files_wf(files),
    ensures
        files.len() <= last_file_id(files) <= i64::MAX,
    decreases files.len(),
{
    if files.len() > 1 {
        lemma_file_count(files.drop_last());
        assert(files[files.len() - 2].id < files[files.len() - 1].id);
    } else if files.len() == 1 {
        assert(files[0].id >= 1);
    }
}

/// How many files have a summary is at most how many there are.
pub proof fn lemma_count_enriched(files: Seq<FileView>)
    ensures
        count_enriched(files) <= files.len(),
    decreases files.len(),
{
    if files.len() > 0 {
        lemma_count_enriched(files.drop_last());
    }
}

/// How many files the index holds, and how many of them have a summary.
pub fn get_enrichment_stats(index: &Index) -> (r: EnrichmentStats)
    requires
        index.wf(),
    ensures
        r.total_files == index@.files.len(),
        r.enriched_files == count_enriched(index@.files),
{
    let ghost files = index@.files;
    let mut enriched: usize = 0;
    proof {
        assert(files.take(0) =~= Seq::<FileView>::empty());
        lemma_file_count(files);
        lemma_count_enriched(files);
    }
    for i in 0..index.files.len()
        invariant
            files == index@.files,
            enriched == count_enriched(files.take(i as int)),
            enriched <= i,
    {
        proof {
            assert(files.take(i + 1).drop_last() =~= files.take(i as int));
            assert(files.take(i + 1).last() == index.files@[i as int]@);
        }
        if index.files[i].summary_enriched.is_some() {
            enriched += 1;
        }
    }
    assert(files.take(files.len() as int) =~= files);
    EnrichmentStats { total_files: index.files.len() as i64, enriched_files: enriched as i64 }
}

// ---------------------------------------------------------------------------------------------
// Laws
// ---------------------------------------------------------------------------------------------

/// The rows of the other paths are untouched where one row is replaced by one of the same path.
proof fn lemma_with_row_others(
    files: Seq<FileView>,
    path: Seq<char>,
    row: FileView,
    other: Seq<char>,
)
    requires
        files_wf(files),
        has_path(files, path) ==> row.path == path && row.id == files[at_path(files, path)].id,
    ensures
        files_wf(with_row(files, path, row)),
        has_path(with_row(files, path, row), other) == has_path(files, other),
        has_path(with_row(files, path, row), path) == has_path(files, path),
        has_path(files, path) ==> with_row(files, path, row)[at_path(
            with_row(files, path, row),
            path,
        )] == row,
        other != path && has_path(files, other) ==> with_row(files, path, row)[at_path(
            with_row(files, path, row),
            other,
        )] == files[at_path(files, other)],
{
    let after = with_row(files, path, row);
    if has_path(files, path) {
        let i = at_path(files, path);
        assert(0 <= i < files.len() && files[i].path == path);
        assert(after[i] == row);
        lemma_at_path(after, path, i);
        if has_path(files, other) {
            let j = at_path(files, other);
            assert(0 <= j < files.len() && files[j].path == other);
            assert(after[j].path == other);
            lemma_at_path(after, other, j);
        }
        if has_path(after, other) {
            let j = at_path(after, other);
            assert(0 <= j < after.len() && after[j].path == other);
            assert(files[j].path == other);
        }
    }
}

/// What an upsert writes is read back, and no other file is changed: the hash and rank of the file
/// are the ones written, its number and modification time are kept, and so are its summary and
/// note if and only if the hash is the one it had.
pub proof fn law_upsert_read_back(
    v: IndexView,
    path: Seq<char>,
    hash: Seq<char>,
    rank: u64,
    now: i64,
    other: Seq<char>,
)
    requires
        view_wf(v),
        has_room_for(v, path),
        other != path,
    ensures
        hash_of(upserted(v, path, hash, rank, now).files, path) == Some(hash),
        upserted(v, path, hash, rank, now).files[at_path(
            upserted(v, path, hash, rank, now).files,
            path,
        )].rank == rank,
        has_path(v.files, path) ==> {
            let row = v.files[at_path(v.files, path)];
            let after = upserted(v, path, hash, rank, now).files;
            let new = after[at_path(after, path)];
            &&& new.id == row.id
            &&& new.mtime == row.mtime
            &&& row.hash == hash ==> new.summary == row.summary && new.when_to_use
                == row.when_to_use && new.enriched_at == row.enriched_at
            &&& row.hash != hash ==> new.summary is None && new.when_to_use is None
                && new.enriched_at is None
        },
        has_path(upserted(v, path, hash, rank, now).files, other) == has_path(v.files, other),
        has_path(v.files, other) ==> upserted(v, path, hash, rank, now).files[at_path(
            upserted(v, path, hash, rank, now).files,
            other,
        )] == v.files[at_path(v.files, other)],
        upserted(v, path, hash, rank, now).symbols == v.symbols,
        upserted(v, path, hash, rank, now).edges == v.edges,
{
    let after = upserted(v, path, hash, rank, now).files;
    if has_path(v.files, path) {
        let i = at_path(v.files, path);
        assert(0 <= i < v.files.len() && v.files[i].path == path);
        lemma_with_row_others(v.files, path, refreshed(v.files[i], hash, rank, now), other);
        assert(after == with_row(v.files, path, refreshed(v.files[i], hash, rank, now)));
    } else {
        let row = new_file((last_file_id(v.files) + 1) as i64, path, hash, rank, now);
        if v.files.len() > 0 {
            assert(v.files.last().id >= 1);
        }
        lemma_push_wf(v, row);
        assert(after == v.files.push(row));
        assert(after[v.files.len() as int] == row);
        lemma_at_path(after, path, v.files.len() as int);
        if has_path(v.files, other) {
            let j = at_path(v.files, other);
            assert(0 <= j < v.files.len() && v.files[j].path == other);
            assert(after[j].path == other);
            lemma_at_path(after, other, j);
        }
        if has_path(after, other) {
            let j = at_path(after, other);
            assert(0 <= j < after.len() && after[j].path == other);
            assert(v.files[j].path == other);
        }
    }
}

/// A modification time that is written for a file of the index is read back; the other files keep
/// theirs.
pub proof fn law_mtime_read_back(v: IndexView, path: Seq<char>, mtime: i64, other: Seq<char>)
    requires
        view_wf(v),
        has_path(v.files, path),
        other != path,
    ensures
        mtime_of(with_mtime(v, path, mtime).files, path) == Some(mtime),
        mtime_of(with_mtime(v, path, mtime).files, other) == mtime_of(v.files, other),
        hash_of(with_mtime(v, path, mtime).files, path) == hash_of(v.files, path),
{
    let i = at_path(v.files, path);
    assert(0 <= i < v.files.len() && v.files[i].path == path);
    lemma_with_row_others(v.files, path, FileView { mtime: Some(mtime), ..v.files[i] }, other);
}

/// A summary that is written is read back, and dropping it again leaves the file as it would be
/// without one; the other files are untouched.
pub proof fn law_enrichment_read_back(
    v: IndexView,
    path: Seq<char>,
    summary: Seq<char>,
    when_to_use: Seq<char>,
    now: i64,
    other: Seq<char>,
)
    requires
        view_wf(v),
        has_path(v.files, path),
        other != path,
    ensures
        ({
            let after = with_enrichment(v, path, summary, when_to_use, now);
            let row = after.files[at_path(after.files, path)];
            &&& row.summary == Some(summary)
            &&& row.when_to_use == Some(when_to_use)
            &&& row.hash == v.files[at_path(v.files, path)].hash
            &&& without_enrichment(after, path) == without_enrichment(v, path)
            &&& has_path(v.files, other) ==> after.files[at_path(after.files, other)]
                == v.files[at_path(v.files, other)]
        }),
{
    let i = at_path(v.files, path);
    assert(0 <= i < v.files.len() && v.files[i].path == path);
    let row = enriched(v.files[i], summary, when_to_use, now);
    lemma_with_row_others(v.files, path, row, other);
    let after = with_enrichment(v, path, summary, when_to_use, now);
    lemma_at_path(after.files, path, i);
    assert(without_enrichment(after, path).files =~= without_enrichment(v, path).files);
}

/// After the stale files are removed, exactly the files with known paths are left, unchanged.
pub proof fn law_stale_removed(v: IndexView, known: Seq<Seq<char>>, path: Seq<char>)
    requires
        view_wf(v),
    ensures
        view_wf(without_stale(v, known)),
        has_path(without_stale(v, known).files, path) == (has_path(v.files, path) && known.contains(
            path,
        )),
        has_path(without_stale(v, known).files, path) ==> without_stale(v, known).files[at_path(
            without_stale(v, known).files,
            path,
        )] == v.files[at_path(v.files, path)],
{
    let keep = |f: FileView| known.contains(f.path);
    let after = without_stale(v, known).files;
    lemma_without_stale_wf(v, known);
    lemma_filter_files(v.files, keep);
    if has_path(after, path) {
        let k = at_path(after, path);
        assert(0 <= k < after.len() && after[k].path == path);
        assert(v.files.contains(after[k]));
        let i = choose|i: int| 0 <= i < v.files.len() && v.files[i] == after[k];
        assert(v.files[i].path == path);
        lemma_at_path(v.files, path, i);
    }
    if has_path(v.files, path) && known.contains(path) {
        let i = at_path(v.files, path);
        assert(0 <= i < v.files.len() && v.files[i].path == path);
        assert(keep(v.files[i]));
        assert(after.contains(v.files[i]));
        let k = choose|k: int| 0 <= k < after.len() && after[k] == v.files[i];
        assert(after[k].path == path);
    }
}

/// A file whose path is known is left.
pub proof fn lemma_left(files: Seq<FileView>, known: Seq<Seq<char>>, i: int)
    requires
        files_wf(files),
        0 <= i < files.len(),
        known.contains(files[i].path),
    ensures
        files_wf(files.filter(|f: FileView| known.contains(f.path))),
        files.filter(|f: FileView| known.contains(f.path)).contains(files[i]),
{
    let keep = |f: FileView| known.contains(f.path);
    lemma_filter_files(files, keep);
    assert(keep(files[i]));
}

/// The symbols of a file after an insertion are the inserted ones, in their order, and nothing
/// else: what was there before is replaced.
pub proof fn law_symbols_replaced(symbols: Seq<SymbolView>, file_id: i64, new: Seq<NewSymbolView>)
    ensures
        ({
            let after = with_symbols(symbols_besides(symbols, file_id), file_id, new);
            let kept = symbols_besides(symbols, file_id);
            &&& after.len() == kept.len() + new.len()
            &&& forall|k: int| 0 <= k < kept.len() ==> (#[trigger] after[k]).file_id != file_id
            &&& forall|k: int|
                0 <= k < new.len() ==> {
                    let row = #[trigger] after[kept.len() + k];
                    row.file_id == file_id && row.name == new[k].0 && row.kind == new[k].1
                        && row.is_exported == new[k].2 && row.line == new[k].3
                }
        }),
    decreases new.len(),
{
    let kept = symbols_besides(symbols, file_id);
    if new.len() > 0 {
        law_symbols_replaced(symbols, file_id, new.drop_last());
        let before = with_symbols(kept, file_id, new.drop_last());
        let after = with_symbols(kept, file_id, new);
        assert forall|k: int| 0 <= k < new.len() implies {
            let row = #[trigger] after[kept.len() + k];
            row.file_id == file_id && row.name == new[k].0 && row.kind == new[k].1
                && row.is_exported == new[k].2 && row.line == new[k].3
        } by {
            if k < new.len() - 1 {
                assert(after[kept.len() + k] == before[kept.len() + k]);
                assert(new.drop_last()[k] == new[k]);
            }
        }
    } else {
        let keep = |s: SymbolView| s.file_id != file_id;
        lemma_filter_keeps(symbols, keep);
    }
}

/// Each symbol that a filter keeps passes its test.
proof fn lemma_filter_keeps(symbols: Seq<SymbolView>, keep: spec_fn(SymbolView) -> bool)
    ensures
        forall|k: int|
            0 <= k < symbols.filter(keep).len() ==> keep(#[trigger] symbols.filter(keep)[k]),
    decreases symbols.len(),
{
    reveal(Seq::filter);
    if symbols.len() > 0 {
        lemma_filter_keeps(symbols.drop_last(), keep);
    }
}

/// After every summary is dropped, no file has one.
pub proof fn law_all_plain(files: Seq<FileView>)
    ensures
        count_enriched(all_plain(files)) == 0,
    decreases files.len(),
{
    if files.len() > 0 {
        law_all_plain(files.drop_last());
        assert(all_plain(files).drop_last() =~= all_plain(files.drop_last()));
    }
}

/// Adding or refreshing a file keeps the rules.
pub proof fn lemma_upserted_wf(
    v: IndexView,
    path: Seq<char>,
    hash: Seq<char>,
    rank: u64,
    now: i64,
)
    requires
        view_wf(v),
        has_room_for(v, path),
    ensures
        view_wf(upserted(v, path, hash, rank, now)),
        has_path(upserted(v, path, hash, rank, now).files, path),
{
    if has_path(v.files, path) {
        let i = at_path(v.files, path);
        assert(0 <= i < v.files.len() && v.files[i].path == path);
        lemma_update_wf(v, i, refreshed(v.files[i], hash, rank, now));
        assert(upserted(v, path, hash, rank, now).files[i].path == path);
    } else {
        let row = new_file((last_file_id(v.files) + 1) as i64, path, hash, rank, now);
        if v.files.len() > 0 {
            assert(v.files.last().id >= 1);
        }
        lemma_push_wf(v, row);
        assert(upserted(v, path, hash, rank, now).files[v.files.len() as int].path == path);
    }
}

/// Keeping a modification time keeps the rules, and every hash.
pub proof fn lemma_with_mtime(v: IndexView, path: Seq<char>, mtime: i64, other: Seq<char>)
    requires
        view_wf(v),
        other != path,
    ensures
        view_wf(with_mtime(v, path, mtime)),
        hash_of(with_mtime(v, path, mtime).files, path) == hash_of(v.files, path),
        hash_of(with_mtime(v, path, mtime).files, other) == hash_of(v.files, other),
{
    let row = FileView { mtime: Some(mtime), ..v.files[at_path(v.files, path)] };
    if has_path(v.files, path) {
        let i = at_path(v.files, path);
        assert(0 <= i < v.files.len() && v.files[i].path == path);
    }
    lemma_with_row_wf(v, path, row);
    lemma_with_row_others(v.files, path, row, other);
}

/// Setting ranks keeps every hash and modification time.
pub proof fn lemma_reranked_hash(
    files: Seq<FileView>,
    ranks: Seq<(Seq<char>, u64)>,
    path: Seq<char>,
)
    requires
        files_wf(files),
    ensures
        files_wf(reranked(files, ranks)),
        hash_of(reranked(files, ranks), path) == hash_of(files, path),
        mtime_of(reranked(files, ranks), path) == mtime_of(files, path),
    decreases ranks.len(),
{
    if ranks.len() > 0 {
        lemma_reranked_hash(files, ranks.drop_last(), path);
        let before = reranked(files, ranks.drop_last());
        let (at, rank) = ranks.last();
        let row = FileView { rank, ..before[at_path(before, at)] };
        if has_path(before, at) {
            let i = at_path(before, at);
            assert(0 <= i < before.len() && before[i].path == at);
        }
        lemma_with_row_others(before, at, row, path);
    }
}

/// What the index keeps of the symbols of a file after an insertion is the inserted ones, each with
/// its name, kind, export flag, line and number of references; the symbols of every other file
/// stay.
pub proof fn law_symbols_put_in(
    symbols: Seq<SymbolView>,
    file_id: i64,
    new: Seq<NewSymbolView>,
    id: i64,
)
    ensures
        ({
            let after = with_symbols(symbols_besides(symbols, file_id), file_id, new).filter(
                |s: SymbolView| s.file_id == id,
            );
            &&& id != file_id ==> after == symbols.filter(|s: SymbolView| s.file_id == id)
            &&& id == file_id ==> after.len() == new.len() && forall|k: int|
                0 <= k < new.len() ==> {
                    &&& (#[trigger] after[k]).name == new[k].0
                    &&& after[k].kind == new[k].1
                    &&& after[k].is_exported == new[k].2
                    &&& after[k].line == new[k].3
                    &&& after[k].ref_count == new[k].4 as i64
                }
        }),
    decreases new.len(),
{
    let kept = symbols_besides(symbols, file_id);
    let besides = |s: SymbolView| s.file_id != file_id;
    let own = |s: SymbolView| s.file_id == id;
    if new.len() == 0 {
        if id == file_id {
            lists::lemma_chosen_away(symbols, besides, own);
        } else {
            lists::lemma_chosen_again(symbols, besides, own);
        }
    } else {
        law_symbols_put_in(symbols, file_id, new.drop_last(), id);
        reveal(Seq::filter);
        let before = with_symbols(kept, file_id, new.drop_last());
        let after = with_symbols(kept, file_id, new);
        assert(after.drop_last() =~= before);
        assert forall|k: int| 0 <= k < new.len() - 1 implies new.drop_last()[k]
            == #[trigger] new[k] by {
        }
    }
}

/// What the index keeps of the edges of a file after an insertion is the inserted ones, each with
/// its target, kind and specifier; the edges of every other file stay.
pub proof fn law_edges_put_in(
    edges: Seq<EdgeView>,
    source_id: i64,
    new: Seq<NewEdgeView>,
    id: i64,
)
    ensures
        ({
            let after = with_edges(edges_besides(edges, source_id), source_id, new).filter(
                |e: EdgeView| e.source_id == id,
            );
            &&& id != source_id ==> after == edges.filter(|e: EdgeView| e.source_id == id)
            &&& id == source_id ==> after.len() == new.len() && forall|k: int|
                0 <= k < new.len() ==> {
                    &&& (#[trigger] after[k]).target_id == new[k].0
                    &&& after[k].edge_type == new[k].1
                    &&& after[k].specifier == new[k].2
                }
        }),
    decreases new.len(),
{
    let kept = edges_besides(edges, source_id);
    let besides = |e: EdgeView| e.source_id != source_id;
    let own = |e: EdgeView| e.source_id == id;
    if new.len() == 0 {
        if id == source_id {
            lists::lemma_chosen_away(edges, besides, own);
        } else {
            lists::lemma_chosen_again(edges, besides, own);
        }
    } else {
        law_edges_put_in(edges, source_id, new.drop_last(), id);
        reveal(Seq::filter);
        let before = with_edges(kept, source_id, new.drop_last());
        let after = with_edges(kept, source_id, new);
        assert(after.drop_last() =~= before);
        assert forall|k: int| 0 <= k < new.len() - 1 implies new.drop_last()[k]
            == #[trigger] new[k] by {
        }
    }
}

/// A file that is new to the index has the next number, the hash, rank and time that it came with,
/// no modification time and no summary; one that is there gets the time that it came with.
pub proof fn law_file_row(v: IndexView, path: Seq<char>, hash: Seq<char>, rank: u64, now: i64)
    requires
        view_wf(v),
        has_room_for(v, path),
    ensures
        ({
            let after = upserted(v, path, hash, rank, now).files;
            let row = after[at_path(after, path)];
            &&& row.path == path
            &&& row.hash == hash
            &&& row.rank == rank
            &&& row.updated_at == now
            &&& after.len() == v.files.len() + (if has_path(v.files, path) {
                0int
            } else {
                1int
            })
            &&& !has_path(v.files, path) ==> {
                &&& row.mtime is None
                &&& row.summary is None
                &&& row.when_to_use is None
                &&& row.enriched_at is None
                &&& forall|i: int| 0 <= i < v.files.len() ==> (#[trigger] v.files[i]).id < row.id
            }
        }),
{
    let after = upserted(v, path, hash, rank, now).files;
    lemma_upserted_wf(v, path, hash, rank, now);
    if has_path(v.files, path) {
        let i = at_path(v.files, path);
        assert(0 <= i < v.files.len() && v.files[i].path == path);
        assert(after[i].path == path);
        lemma_at_path(after, path, i);
    } else {
        lemma_at_path(after, path, v.files.len() as int);
        assert forall|i: int| 0 <= i < v.files.len() implies (#[trigger] v.files[i]).id
            < after.last().id by {
            if i < v.files.len() - 1 {
                assert(v.files[i].id < v.files[v.files.len() - 1].id);
            }
        }
    }
}

/// As many files count as enriched as have a summary.
pub proof fn law_enriched_counted(files: Seq<FileView>)
    ensures
        count_enriched(files) == files.filter(|f: FileView| f.summary is Some).len(),
{
    lists::lemma_count(
        files,
        |f: FileView| f.summary is Some,
        |s: Seq<FileView>| count_enriched(s),
    );
}

/// Dropping every summary leaves each file its number, path, hash, rank, and times.
pub proof fn law_plain_files(files: Seq<FileView>, i: int)
    requires
        0 <= i < files.len(),
    ensures
        all_plain(files).len() == files.len(),
        all_plain(files)[i].summary is None,
        all_plain(files)[i].id == files[i].id,
        all_plain(files)[i].path == files[i].path,
        all_plain(files)[i].hash == files[i].hash,
        all_plain(files)[i].rank == files[i].rank,
        all_plain(files)[i].updated_at == files[i].updated_at,
        all_plain(files)[i].mtime == files[i].mtime,
        files[i].summary is Some ==> all_plain(files)[i].when_to_use is None
            && all_plain(files)[i].enriched_at is None,
        files[i].summary is None ==> all_plain(files)[i] == files[i],
{
}

/// Giving a file a summary sets its summary, its advice and its time, and taking them away drops
/// all three; nothing else of the file changes, and nothing of other files.
pub proof fn law_enrichment_fields(
    v: IndexView,
    path: Seq<char>,
    summary: Seq<char>,
    when_to_use: Seq<char>,
    now: i64,
    other: Seq<char>,
)
    requires
        view_wf(v),
        has_path(v.files, path),
        has_path(v.files, other),
        other != path,
    ensures
        ({
            let row = v.files[at_path(v.files, path)];
            let given = with_enrichment(v, path, summary, when_to_use, now);
            let taken = without_enrichment(v, path);
            &&& given.files[at_path(given.files, path)] == (FileView {
                summary: Some(summary),
                when_to_use: Some(when_to_use),
                enriched_at: Some(now),
                ..row
            })
            &&& taken.files[at_path(taken.files, path)] == (FileView {
                summary: None,
                when_to_use: None,
                enriched_at: None,
                ..row
            })
            &&& given.files[at_path(given.files, other)] == v.files[at_path(v.files, other)]
            &&& taken.files[at_path(taken.files, other)] == v.files[at_path(v.files, other)]
            &&& given.symbols == v.symbols && taken.symbols == v.symbols
            &&& given.edges == v.edges && taken.edges == v.edges
        }),
{
    let i = at_path(v.files, path);
    assert(0 <= i < v.files.len() && v.files[i].path == path);
    lemma_with_row_others(
        v.files,
        path,
        enriched(v.files[i], summary, when_to_use, now),
        other,
    );
    lemma_with_row_others(v.files, path, plain(v.files[i]), other);
}

/// The edges that are accepted are those before the first one that leads to no file.
pub proof fn law_edges_accepted(files: Seq<FileView>, source_id: i64, new: Seq<NewEdgeView>)
    ensures
        ({
            let n = edges_accepted(files, source_id, new);
            &&& n <= new.len()
            &&& !has_id(files, source_id) ==> n == 0
            &&& forall|k: int| 0 <= k < n ==> has_id(files, (#[trigger] new[k]).0)
            &&& has_id(files, source_id) && n < new.len() ==> !has_id(files, new[n as int].0)
        }),
    decreases new.len(),
{
    if has_id(files, source_id) && new.len() > 0 && has_id(files, new[0].0) {
        let rest = new.drop_first();
        law_edges_accepted(files, source_id, rest);
        let n = edges_accepted(files, source_id, new);
        assert forall|k: int| 0 <= k < n implies has_id(files, (#[trigger] new[k]).0) by {
            if k > 0 {
                assert(rest[k - 1] == new[k]);
            }
        }
    }
}

/// Removing stale files keeps a symbol if and only if its file is kept, and an edge if and only if
/// both of its files are.
pub proof fn law_rows_of_stale_files(
    v: IndexView,
    known: Seq<Seq<char>>,
    symbol: SymbolView,
    edge: EdgeView,
)
    requires
        view_wf(v),
    ensures
        ({
            let after = without_stale(v, known);
            let kept = |id: i64|
                exists|i: int|
                    0 <= i < v.files.len() && (#[trigger] v.files[i]).id == id && known.contains(
                        v.files[i].path,
                    );
            &&& after.symbols.contains(symbol) == (v.symbols.contains(symbol) && kept(
                symbol.file_id,
            ))
            &&& after.edges.contains(edge) == (v.edges.contains(edge) && kept(edge.source_id)
                && kept(edge.target_id))
        }),
{
    let keep = |f: FileView| known.contains(f.path);
    let files = v.files.filter(keep);
    lemma_filter_files(v.files, keep);
    let kept = |id: i64|
        exists|i: int|
            0 <= i < v.files.len() && (#[trigger] v.files[i]).id == id && known.contains(
                v.files[i].path,
            );
    assert forall|id: i64| has_id(files, id) == #[trigger] kept(id) by {
        if has_id(files, id) {
            let k = choose|k: int| 0 <= k < files.len() && (#[trigger] files[k]).id == id;
            assert(v.files.contains(files[k]) && keep(files[k]));
            let i = choose|i: int| 0 <= i < v.files.len() && v.files[i] == files[k];
            assert(v.files[i].id == id);
        }
        if kept(id) {
            let i = choose|i: int|
                0 <= i < v.files.len() && (#[trigger] v.files[i]).id == id && known.contains(
                    v.files[i].path,
                );
            assert(keep(v.files[i]));
            assert(files.contains(v.files[i]));
            let k = choose|k: int| 0 <= k < files.len() && files[k] == v.files[i];
            assert(files[k].id == id);
        }
    }
    assert(kept(symbol.file_id) == has_id(files, symbol.file_id));
    assert(kept(edge.source_id) == has_id(files, edge.source_id));
    assert(kept(edge.target_id) == has_id(files, edge.target_id));
    lists::lemma_kept_items(v.symbols, |s: SymbolView| has_id(files, s.file_id), symbol);
    lists::lemma_kept_items(
        v.edges,
        |e: EdgeView| has_id(files, e.source_id) && has_id(files, e.target_id),
        edge,
    );
}

}
