//! Indexing: which files are read anew, which edges they have, and what the index keeps of them.
use vstd::prelude::*;

use crate::db;
use crate::db::{Index, IndexError, IndexView, NewEdge, NewEdgeView, NewSymbol, NewSymbolView};
use crate::deps;
use crate::graph;
use crate::graph::{DependencyGraph, EdgeKind, GraphView};
use crate::hash;
use crate::lists;
use crate::order;
use crate::text;
use crate::text::CharClass;
use crate::types;
use crate::types::{Export, ExportKind, FileAnalysis, Import, ImportKind, ReExport, SymbolInfo};

verus! {

// ---------------------------------------------------------------------------------------------
// The scan
// ---------------------------------------------------------------------------------------------

/// A file that is read anew.
pub struct SourceFile {
    pub path: String,
    pub abs_path: String,
    pub hash: String,
    pub source: String,
}

/// What is said of a file that is read anew.
#[verifier::ext_equal]
pub struct SourceView {
    pub path: Seq<char>,
    pub abs_path: Seq<char>,
    pub hash: Seq<char>,
    pub source: Seq<char>,
}

impl View for SourceFile {
    type V = SourceView;

    open spec fn view(&self) -> SourceView {
        SourceView {
            path: self.path@,
            abs_path: self.abs_path@,
            hash: self.hash@,
            source: self.source@,
        }
    }
}

/// What is said of some files that are read anew.
pub open spec fn source_views(v: Seq<SourceFile>) -> Seq<SourceView> {
    v.map_values(|s: SourceFile| s@)
}

/// How files are chosen: all of them, or only those that changed since the last time.
#[derive(Clone, Copy)]
pub struct ScanMode {
    pub force: bool,
    pub incremental: bool,
}

/// A scan of the files of a project: the paths seen, the files to be read anew, and the number of
/// files skipped.
pub struct Scan {
    pub all_paths: Vec<String>,
    pub changed: Vec<SourceFile>,
    pub skipped: usize,
}

/// What a scan has found.
#[verifier::ext_equal]
pub struct ScanView {
    pub all_paths: Seq<Seq<char>>,
    pub changed: Seq<SourceView>,
    pub skipped: nat,
}

impl View for Scan {
    type V = ScanView;

    open spec fn view(&self) -> ScanView {
        ScanView {
            all_paths: text::views(self.all_paths@),
            changed: source_views(self.changed@),
            skipped: self.skipped as nat,
        }
    }
}

/// Whether a file is skipped for its modification time: an incremental scan does so where the time
/// on disk is not later than the one kept.
pub open spec fn unchanged_by_time(
    v: IndexView,
    path: Seq<char>,
    fs_mtime: Option<i64>,
    mode: ScanMode,
) -> bool {
    mode.incremental && !mode.force && match (db::mtime_of(v.files, path), fs_mtime) {
        (Some(kept), Some(now)) => now <= kept,
        _ => false,
    }
}

/// Whether a file is skipped for its content: its hash is the one kept.
pub open spec fn unchanged_by_hash(
    v: IndexView,
    path: Seq<char>,
    hash: Seq<char>,
    mode: ScanMode,
) -> bool {
    !mode.force && db::hash_of(v.files, path) == Some(hash)
}

impl Scan {
    /// Whether no more files are skipped or changed than were seen.
    pub open spec fn wf(&self) -> bool {
        self.skipped + self.changed@.len() <= self.all_paths@.len()
    }

    /// A scan that has seen no file.
    pub fn new() -> (r: Scan)
        ensures
            r.wf(),
            r@.all_paths.len() == 0,
            r@.changed.len() == 0,
            r@.skipped == 0,
    {
        Scan { all_paths: Vec::new(), changed: Vec::new(), skipped: 0 }
    }

    /// Sees a file. Returns whether its content is to be looked at.
    pub fn see_file(
        &mut self,
        index: &Index,
        path: &str,
        fs_mtime: Option<i64>,
        mode: ScanMode,
    ) -> (r: bool)
        requires
            old(self).wf(),
            index.wf(),
        ensures
            final(self).wf(),
            r == !unchanged_by_time(index@, path@, fs_mtime, mode),
            r ==> final(self).skipped + final(self).changed@.len() < final(self).all_paths@.len(),
            final(self)@ == (ScanView {
                all_paths: old(self)@.all_paths.push(path@),
                skipped: if r {
                    old(self)@.skipped
                } else {
                    old(self)@.skipped + 1
                },
                ..old(self)@
            }),
    {
        let ghost before = self@;
        self.all_paths.push(path.to_string());
        assert(self@.all_paths =~= before.all_paths.push(path@));
        let seen: usize = self.all_paths.len();
        assert(self.skipped < seen);
        let skip = if mode.incremental && !mode.force {
            match (db::get_file_mtime(index, path), fs_mtime) {
                (Some(kept), Some(now)) => now <= kept,
                _ => false,
            }
        } else {
            false
        };
        if skip {
            self.skipped = self.skipped + 1;
        }
        !skip
    }

    /// Looks at the content of the file seen last: it is skipped if the index keeps the same hash,
    /// and is to be read anew otherwise. An incremental scan keeps the modification time of a file
    /// that is skipped here.
    pub fn look_at(
        &mut self,
        index: &mut Index,
        path: &str,
        abs_path: &str,
        source: String,
        fs_mtime: Option<i64>,
        mode: ScanMode,
    )
        requires
            old(self).wf(),
            old(self).skipped + old(self).changed@.len() < old(self).all_paths@.len(),
            old(index).wf(),
        ensures
            final(self).wf(),
            final(index).wf(),
            ({
                let hash = hash::digest(vstd::utf8::encode_utf8(source@));
                looked_at(
                    old(self)@,
                    final(self)@,
                    old(index)@,
                    final(index)@,
                    SourceView { path: path@, abs_path: abs_path@, hash, source: source@ },
                    fs_mtime,
                    mode,
                )
            }),
    {
        let hash = hash::hash_bytes(source.as_str().as_bytes());
        let file = SourceFile {
            path: path.to_string(),
            abs_path: abs_path.to_string(),
            hash,
            source,
        };
        self.compare(index, file, fs_mtime, mode)
    }

    /// Looks at the content of the file seen last, given its hash.
    pub fn compare(
        &mut self,
        index: &mut Index,
        file: SourceFile,
        fs_mtime: Option<i64>,
        mode: ScanMode,
    )
        requires
            old(self).wf(),
            old(self).skipped + old(self).changed@.len() < old(self).all_paths@.len(),
            old(index).wf(),
        ensures
            final(self).wf(),
            final(index).wf(),
            looked_at(
                old(self)@,
                final(self)@,
                old(index)@,
                final(index)@,
                file@,
                fs_mtime,
                mode,
            ),
    {
        let ghost before = self@;
        let seen: usize = self.all_paths.len();
        assert(self.skipped < seen);
        let same = if mode.force {
            false
        } else {
            match db::get_file_hash(index, file.path.as_str()) {
                Some(kept) => kept == file.hash,
                None => false,
            }
        };
        if same {
            if mode.incremental {
                match fs_mtime {
                    Some(mtime) => {
                        db::update_file_mtime(index, file.path.as_str(), mtime);
                    },
                    None => {},
                }
            }
            self.skipped = self.skipped + 1;
        } else {
            let ghost shown = file@;
            self.changed.push(file);
            assert(self@.changed =~= before.changed.push(shown));
        }
    }
}

/// What looking at a file does to a scan and to the index.
pub open spec fn looked_at(
    scan: ScanView,
    after: ScanView,
    v: IndexView,
    v_after: IndexView,
    file: SourceView,
    fs_mtime: Option<i64>,
    mode: ScanMode,
) -> bool {
    if unchanged_by_hash(v, file.path, file.hash, mode) {
        &&& after == (ScanView { skipped: scan.skipped + 1, ..scan })
        &&& v_after == match fs_mtime {
            Some(mtime) => if mode.incremental {
                db::with_mtime(v, file.path, mtime)
            } else {
                v
            },
            None => v,
        }
    } else {
        &&& after == (ScanView { changed: scan.changed.push(file), ..scan })
        &&& v_after == v
    }
}

/// A forced scan skips no file.
pub proof fn law_force_skips_nothing(
    v: IndexView,
    path: Seq<char>,
    hash: Seq<char>,
    fs_mtime: Option<i64>,
    incremental: bool,
)
    ensures
        !unchanged_by_time(v, path, fs_mtime, ScanMode { force: true, incremental }),
        !unchanged_by_hash(v, path, hash, ScanMode { force: true, incremental }),
{
}

// ---------------------------------------------------------------------------------------------
// Edges
// ---------------------------------------------------------------------------------------------

/// An edge to another file of the project.
pub struct ResolvedEdge {
    pub target: String,
    pub kind: EdgeKind,
    pub specifier: String,
}

/// What is said of an edge.
#[verifier::ext_equal]
pub struct ResolvedView {
    pub target: Seq<char>,
    pub kind: EdgeKind,
    pub specifier: Seq<char>,
}

impl View for ResolvedEdge {
    type V = ResolvedView;

    open spec fn view(&self) -> ResolvedView {
        ResolvedView { target: self.target@, kind: self.kind, specifier: self.specifier@ }
    }
}

/// What is said of some edges.
pub open spec fn resolved_views(v: Seq<ResolvedEdge>) -> Seq<ResolvedView> {
    v.map_values(|e: ResolvedEdge| e@)
}

/// The path of a file below a root, or the path itself where it lies elsewhere.
pub open spec fn relative(abs: Seq<char>, root: Seq<char>) -> Seq<char> {
    match deps::below(abs, root) {
        Some(rest) => rest,
        None => abs,
    }
}

/// The path of a file below a root, or the path itself where it lies elsewhere.
pub fn to_relative(abs: &str, root: &str) -> (r: String)
    ensures
        r@ == relative(abs@, root@),
{
    match deps::strip_root(abs, root) {
        Some(rest) => rest,
        None => abs.to_string(),
    }
}

/// The kind of edge of an import.
pub open spec fn edge_kind(type_only: bool) -> EdgeKind {
    if type_only {
        EdgeKind::TypeImport
    } else {
        EdgeKind::Import
    }
}

/// The edges with one more, if its target is known.
pub open spec fn with_target(
    edges: Seq<ResolvedView>,
    resolved: Option<Seq<char>>,
    root: Seq<char>,
    known: Seq<Seq<char>>,
    kind: EdgeKind,
    specifier: Seq<char>,
) -> Seq<ResolvedView> {
    match resolved {
        Some(abs) => if known.contains(relative(abs, root)) {
            edges.push(ResolvedView { target: relative(abs, root), kind, specifier })
        } else {
            edges
        },
        None => edges,
    }
}

/// What some resolutions say.
pub open spec fn opt_views(v: Seq<Option<String>>) -> Seq<Option<Seq<char>>> {
    v.map_values(|s: Option<String>| text::opt_view(s))
}

/// The edges of some imports, each with what it resolves to.
pub open spec fn import_edges(
    imports: Seq<(Seq<char>, Seq<char>, ImportKind, bool)>,
    resolved: Seq<Option<Seq<char>>>,
    root: Seq<char>,
    known: Seq<Seq<char>>,
) -> Seq<ResolvedView>
    decreases imports.len(),
{
    if imports.len() == 0 {
        Seq::empty()
    } else {
        with_target(
            import_edges(imports.drop_last(), resolved, root, known),
            resolved[imports.len() - 1],
            root,
            known,
            edge_kind(imports.last().3),
            imports.last().0,
        )
    }
}

/// The edges after those of some re-exports, each with what it resolves to.
pub open spec fn reexport_edges(
    edges: Seq<ResolvedView>,
    reexports: Seq<(Seq<char>, Seq<char>, Seq<char>)>,
    resolved: Seq<Option<Seq<char>>>,
    root: Seq<char>,
    known: Seq<Seq<char>>,
) -> Seq<ResolvedView>
    decreases reexports.len(),
{
    if reexports.len() == 0 {
        edges
    } else {
        with_target(
            reexport_edges(edges, reexports.drop_last(), resolved, root, known),
            resolved[reexports.len() - 1],
            root,
            known,
            EdgeKind::ReExport,
            reexports.last().0,
        )
    }
}

/// The edges of a file: those of its imports, then those of its re-exports.
pub open spec fn file_edges(
    imports: Seq<(Seq<char>, Seq<char>, ImportKind, bool)>,
    reexports: Seq<(Seq<char>, Seq<char>, Seq<char>)>,
    import_targets: Seq<Option<Seq<char>>>,
    reexport_targets: Seq<Option<Seq<char>>>,
    root: Seq<char>,
    known: Seq<Seq<char>>,
) -> Seq<ResolvedView> {
    reexport_edges(
        import_edges(imports, import_targets, root, known),
        reexports,
        reexport_targets,
        root,
        known,
    )
}

/// Adds an edge, if its target is known.
fn push_target(
    out: &mut Vec<ResolvedEdge>,
    resolved: &Option<String>,
    root: &str,
    known: &Vec<String>,
    kind: EdgeKind,
    specifier: &String,
)
    ensures
        resolved_views(final(out)@) == with_target(
            resolved_views(old(out)@),
            text::opt_view(*resolved),
            root@,
            text::views(known@),
            kind,
            specifier@,
        ),
{
    let ghost before = resolved_views(out@);
    match resolved {
        Some(abs) => {
            let target = to_relative(abs.as_str(), root);
            if text::holds(known, target.as_str()) {
                let edge = ResolvedEdge { target, kind, specifier: specifier.clone() };
                let ghost shown = edge@;
                out.push(edge);
                assert(resolved_views(out@) =~= before.push(shown));
            }
        },
        None => {},
    }
}

/// The edges of a file, given what its imports and re-exports resolve to: those that lead to known
/// files.
pub fn resolve_edges(
    analysis: &FileAnalysis,
    import_targets: &Vec<Option<String>>,
    reexport_targets: &Vec<Option<String>>,
    root: &str,
    known: &Vec<String>,
) -> (r: Vec<ResolvedEdge>)
    requires
        import_targets@.len() == analysis.imports@.len(),
        reexport_targets@.len() == analysis.reexports@.len(),
    ensures
        resolved_views(r@) == file_edges(
            types::import_views(analysis.imports@),
            types::reexport_views(analysis.reexports@),
            opt_views(import_targets@),
            opt_views(reexport_targets@),
            root@,
            text::views(known@),
        ),
{
    let ghost iv = types::import_views(analysis.imports@);
    let ghost rv = types::reexport_views(analysis.reexports@);
    let ghost it = opt_views(import_targets@);
    let ghost rt = opt_views(reexport_targets@);
    let ghost kv = text::views(known@);
    let mut out: Vec<ResolvedEdge> = Vec::new();
    assert(iv.take(0) =~= Seq::empty());
    assert(resolved_views(out@) =~= Seq::<ResolvedView>::empty());
    for i in 0..analysis.imports.len()
        invariant
            import_targets@.len() == analysis.imports@.len(),
            iv == types::import_views(analysis.imports@),
            it == opt_views(import_targets@),
            kv == text::views(known@),
            resolved_views(out@) == import_edges(iv.take(i as int), it, root@, kv),
    {
        let import = &analysis.imports[i];
        proof {
            assert(iv.take(i + 1).drop_last() =~= iv.take(i as int));
            assert(iv.take(i + 1).last() == import@);
            assert(it[i as int] == text::opt_view(import_targets@[i as int]));
        }
        let kind = if import.type_only {
            EdgeKind::TypeImport
        } else {
            EdgeKind::Import
        };
        push_target(&mut out, &import_targets[i], root, known, kind, &import.source);
    }
    assert(iv.take(iv.len() as int) =~= iv);
    let ghost first = resolved_views(out@);
    assert(rv.take(0) =~= Seq::empty());
    for i in 0..analysis.reexports.len()
        invariant
            reexport_targets@.len() == analysis.reexports@.len(),
            rv == types::reexport_views(analysis.reexports@),
            rt == opt_views(reexport_targets@),
            kv == text::views(known@),
            resolved_views(out@) == reexport_edges(first, rv.take(i as int), rt, root@, kv),
    {
        let reexport = &analysis.reexports[i];
        proof {
            assert(rv.take(i + 1).drop_last() =~= rv.take(i as int));
            assert(rv.take(i + 1).last() == reexport@);
            assert(rt[i as int] == text::opt_view(reexport_targets@[i as int]));
        }
        push_target(
            &mut out,
            &reexport_targets[i],
            root,
            known,
            EdgeKind::ReExport,
            &reexport.source,
        );
    }
    assert(rv.take(rv.len() as int) =~= rv);
    out
}

/// Edges lead only to known files.
pub proof fn law_edges_lead_to_known_files(
    imports: Seq<(Seq<char>, Seq<char>, ImportKind, bool)>,
    reexports: Seq<(Seq<char>, Seq<char>, Seq<char>)>,
    import_targets: Seq<Option<Seq<char>>>,
    reexport_targets: Seq<Option<Seq<char>>>,
    root: Seq<char>,
    known: Seq<Seq<char>>,
)
    ensures
        forall|k: int|
            0 <= k < file_edges(
                imports,
                reexports,
                import_targets,
                reexport_targets,
                root,
                known,
            ).len() ==> known.contains(
                (#[trigger] file_edges(
                    imports,
                    reexports,
                    import_targets,
                    reexport_targets,
                    root,
                    known,
                )[k]).target,
            ),
{
    lemma_import_targets(imports, import_targets, root, known);
    lemma_reexport_targets(
        import_edges(imports, import_targets, root, known),
        reexports,
        reexport_targets,
        root,
        known,
    );
}

/// The edges of imports lead only to known files.
proof fn lemma_import_targets(
    imports: Seq<(Seq<char>, Seq<char>, ImportKind, bool)>,
    resolved: Seq<Option<Seq<char>>>,
    root: Seq<char>,
    known: Seq<Seq<char>>,
)
    ensures
        forall|k: int|
            0 <= k < import_edges(imports, resolved, root, known).len() ==> known.contains(
                (#[trigger] import_edges(imports, resolved, root, known)[k]).target,
            ),
    decreases imports.len(),
{
    if imports.len() > 0 {
        lemma_import_targets(imports.drop_last(), resolved, root, known);
    }
}

/// The edges of re-exports lead only to known files.
proof fn lemma_reexport_targets(
    edges: Seq<ResolvedView>,
    reexports: Seq<(Seq<char>, Seq<char>, Seq<char>)>,
    resolved: Seq<Option<Seq<char>>>,
    root: Seq<char>,
    known: Seq<Seq<char>>,
)
    requires
        forall|k: int| 0 <= k < edges.len() ==> known.contains((#[trigger] edges[k]).target),
    ensures
        forall|k: int|
            0 <= k < reexport_edges(edges, reexports, resolved, root, known).len()
                ==> known.contains(
                (#[trigger] reexport_edges(edges, reexports, resolved, root, known)[k]).target,
            ),
    decreases reexports.len(),
{
    if reexports.len() > 0 {
        lemma_reexport_targets(edges, reexports.drop_last(), resolved, root, known);
    }
}

// ---------------------------------------------------------------------------------------------
// The graph
// ---------------------------------------------------------------------------------------------

/// What is known of a file that was read anew and parsed.
pub struct FileData {
    pub analysis: FileAnalysis,
    pub edges: Vec<ResolvedEdge>,
}

/// A file that was read anew; without data where it could not be parsed.
pub struct ChangedFile {
    pub path: String,
    pub hash: String,
    pub mtime: Option<i64>,
    pub data: Option<FileData>,
}

/// The edges of a file that was read anew.
pub open spec fn edges_of(file: ChangedFile) -> Seq<ResolvedView> {
    match file.data {
        Some(data) => resolved_views(data.edges@),
        None => Seq::empty(),
    }
}

/// What an edge leads to, and how.
pub type Link = (String, EdgeKind);

/// What some edges lead to.
pub open spec fn link_views(links: Seq<Link>) -> Seq<(Seq<char>, EdgeKind)> {
    links.map_values(|l: Link| (l.0@, l.1))
}

/// What the edges of a file that was read anew lead to.
pub open spec fn new_links(edges: Seq<ResolvedView>) -> Seq<(Seq<char>, EdgeKind)> {
    edges.map_values(|e: ResolvedView| (e.target, e.kind))
}

/// What the edges that the index keeps of a file lead to.
pub open spec fn kept_links(
    files: Seq<db::FileView>,
    edges: Seq<db::EdgeView>,
    source_id: i64,
) -> Seq<(Seq<char>, EdgeKind)>
    decreases edges.len(),
{
    if edges.len() == 0 {
        Seq::empty()
    } else {
        let before = kept_links(files, edges.drop_last(), source_id);
        let last = edges.last();
        if last.source_id == source_id {
            before.push(
                (
                    files[db::at_id(files, last.target_id)].path,
                    graph::edge_kind_named(last.edge_type),
                ),
            )
        } else {
            before
        }
    }
}

/// The position of the file with a path among those that were read anew; the last one counts.
pub open spec fn position_of(files: Seq<ChangedFile>, path: Seq<char>) -> Option<int>
    decreases files.len(),
{
    if files.len() == 0 {
        None
    } else if files.last().path@ == path {
        Some(files.len() - 1)
    } else {
        position_of(files.drop_last(), path)
    }
}

/// What the edges of a file lead to: as it was read anew, or as the index keeps it.
pub open spec fn links_of(v: IndexView, files: Seq<ChangedFile>, path: Seq<char>) -> Seq<
    (Seq<char>, EdgeKind),
> {
    match position_of(files, path) {
        Some(k) => new_links(edges_of(files[k])),
        None => match db::id_of(v.files, path) {
            Some(id) => kept_links(v.files, v.edges, id),
            None => Seq::empty(),
        },
    }
}

/// The graph with some files.
pub open spec fn graph_with_files(v: GraphView, paths: Seq<Seq<char>>) -> GraphView
    decreases paths.len(),
{
    if paths.len() == 0 {
        v
    } else {
        graph::with_file(graph_with_files(v, paths.drop_last()), paths.last())
    }
}

/// The graph with the edges of a file.
pub open spec fn graph_with_links(
    v: GraphView,
    path: Seq<char>,
    links: Seq<(Seq<char>, EdgeKind)>,
) -> GraphView
    decreases links.len(),
{
    if links.len() == 0 {
        v
    } else {
        graph::with_edge(
            graph_with_links(v, path, links.drop_last()),
            path,
            links.last().0,
            links.last().1,
        )
    }
}

/// The graph with the edges of some files.
pub open spec fn graph_with_all(
    g: GraphView,
    v: IndexView,
    files: Seq<ChangedFile>,
    paths: Seq<Seq<char>>,
) -> GraphView
    decreases paths.len(),
{
    if paths.len() == 0 {
        g
    } else {
        graph_with_links(
            graph_with_all(g, v, files, paths.drop_last()),
            paths.last(),
            links_of(v, files, paths.last()),
        )
    }
}

/// The graph of a project: its files, and the edges of each, file by file. Files that were not read
/// anew have the edges that the index keeps of them.
pub open spec fn project_graph(
    v: IndexView,
    all_paths: Seq<Seq<char>>,
    files: Seq<ChangedFile>,
) -> GraphView {
    let empty = GraphView { nodes: Seq::empty(), edges: Seq::empty() };
    graph_with_all(graph_with_files(empty, all_paths), v, files, all_paths)
}

/// What the edges that the index keeps of a file lead to.
fn find_kept_links(index: &Index, source_id: i64) -> (r: Vec<Link>)
    requires
        index.wf(),
    ensures
        link_views(r@) == kept_links(index@.files, index@.edges, source_id),
{
    let ghost ev = index@.edges;
    let mut out: Vec<Link> = Vec::new();
    assert(ev.take(0) =~= Seq::<db::EdgeView>::empty());
    assert(link_views(out@) =~= Seq::<(Seq<char>, EdgeKind)>::empty());
    for i in 0..index.edges.len()
        invariant
            index.wf(),
            ev == index@.edges,
            link_views(out@) == kept_links(index@.files, ev.take(i as int), source_id),
    {
        let e = &index.edges[i];
        let ghost before = link_views(out@);
        proof {
            assert(ev.take(i + 1).drop_last() =~= ev.take(i as int));
            assert(ev.take(i + 1).last() == e@);
            assert(db::has_id(index@.files, ev[i as int].target_id));
        }
        if e.source_id == source_id {
            match db::find_id(index, e.target_id) {
                Some(at) => {
                    let link: Link = (
                        index.files[at].path.clone(),
                        EdgeKind::named(e.edge_type.as_str()),
                    );
                    let ghost shown = (link.0@, link.1);
                    assert(index@.files[at as int] == index.files@[at as int]@);
                    out.push(link);
                    assert(link_views(out@) =~= before.push(shown));
                },
                None => {},
            }
        }
    }
    assert(ev.take(ev.len() as int) =~= ev);
    out
}

/// What the edges of a file that was read anew lead to.
fn find_new_links(file: &ChangedFile) -> (r: Vec<Link>)
    ensures
        link_views(r@) == new_links(edges_of(*file)),
{
    let ghost ev = edges_of(*file);
    let mut out: Vec<Link> = Vec::new();
    match &file.data {
        Some(data) => {
            for i in 0..data.edges.len()
                invariant
                    ev == resolved_views(data.edges@),
                    link_views(out@) == new_links(ev.take(i as int)),
            {
                let ghost before = link_views(out@);
                let link: Link = (data.edges[i].target.clone(), data.edges[i].kind);
                let ghost shown = (link.0@, link.1);
                out.push(link);
                proof {
                    assert(ev[i as int] == data.edges@[i as int]@);
                    assert(link_views(out@) =~= before.push(shown));
                    assert(new_links(ev.take(i + 1)) =~= before.push(shown));
                }
            }
            assert(ev.take(ev.len() as int) =~= ev);
        },
        None => {
            assert(link_views(out@) =~= new_links(ev));
        },
    }
    out
}

/// What the edges of a file lead to.
fn find_links(index: &Index, files: &Vec<ChangedFile>, path: &str) -> (r: Vec<Link>)
    requires
        index.wf(),
    ensures
        link_views(r@) == links_of(index@, files@, path@),
{
    let mut i: usize = files.len();
    assert(files@.take(files@.len() as int) =~= files@);
    while i > 0
        invariant
            i <= files@.len(),
            position_of(files@, path@) == position_of(files@.take(i as int), path@),
        decreases i,
    {
        proof {
            assert(files@.take(i as int).last() == files@[i - 1]);
            assert(files@.take(i as int).drop_last() =~= files@.take(i - 1));
        }
        if text::same(files[i - 1].path.as_str(), path) {
            return find_new_links(&files[i - 1]);
        }
        i -= 1;
    }
    match db::find(index, path) {
        Some(at) => {
            assert(index@.files[at as int] == index.files@[at as int]@);
            find_kept_links(index, index.files[at].id)
        },
        None => {
            let none: Vec<Link> = Vec::new();
            assert(link_views(none@) =~= Seq::<(Seq<char>, EdgeKind)>::empty());
            none
        },
    }
}

/// Whether there is room in a graph for the files of a project and their edges.
pub open spec fn fits(v: IndexView, all_paths: Seq<Seq<char>>, files: Seq<ChangedFile>) -> bool {
    graph::has_room(project_graph(v, all_paths, files))
}

/// A graph grows with each file and edge.
proof fn lemma_graph_links_grow(
    g: GraphView,
    path: Seq<char>,
    links: Seq<(Seq<char>, EdgeKind)>,
    n: int,
)
    requires
        0 <= n <= links.len(),
    ensures
        graph_with_links(g, path, links.take(n)).nodes.len() <= graph_with_links(
            g,
            path,
            links,
        ).nodes.len(),
        graph_with_links(g, path, links.take(n)).edges.len() <= graph_with_links(
            g,
            path,
            links,
        ).edges.len(),
    decreases links.len(),
{
    if n == links.len() {
        assert(links.take(n) =~= links);
    } else {
        lemma_graph_links_grow(g, path, links.drop_last(), n);
        assert(links.drop_last().take(n) =~= links.take(n));
    }
}

/// A graph grows with each file.
proof fn lemma_files_grow(g: GraphView, paths: Seq<Seq<char>>, n: int)
    requires
        0 <= n <= paths.len(),
    ensures
        graph_with_files(g, paths.take(n)).nodes.len() <= graph_with_files(g, paths).nodes.len(),
        graph_with_files(g, paths).edges == g.edges,
    decreases paths.len(),
{
    if n == paths.len() {
        assert(paths.take(n) =~= paths);
        if n > 0 {
            lemma_files_grow(g, paths.drop_last(), 0);
        }
    } else {
        lemma_files_grow(g, paths.drop_last(), n);
        assert(paths.drop_last().take(n) =~= paths.take(n));
    }
}

/// A graph grows with the edges of each file.
proof fn lemma_all_grow(
    g: GraphView,
    v: IndexView,
    files: Seq<ChangedFile>,
    paths: Seq<Seq<char>>,
    n: int,
)
    requires
        0 <= n <= paths.len(),
    ensures
        graph_with_all(g, v, files, paths.take(n)).nodes.len() <= graph_with_all(
            g,
            v,
            files,
            paths,
        ).nodes.len(),
        graph_with_all(g, v, files, paths.take(n)).edges.len() <= graph_with_all(
            g,
            v,
            files,
            paths,
        ).edges.len(),
    decreases paths.len(),
{
    if n == paths.len() {
        assert(paths.take(n) =~= paths);
    } else {
        let before = graph_with_all(g, v, files, paths.drop_last());
        let links = links_of(v, files, paths.last());
        lemma_all_grow(g, v, files, paths.drop_last(), n);
        assert(paths.drop_last().take(n) =~= paths.take(n));
        lemma_graph_links_grow(before, paths.last(), links, 0);
        assert(links.take(0) =~= Seq::<(Seq<char>, EdgeKind)>::empty());
    }
}

/// Adds the edges of a file to a graph, as far as there is room. Returns whether there was.
fn add_links(g: &mut DependencyGraph, path: &str, links: &Vec<Link>) -> (r: bool)
    requires
        old(g).wf(),
        graph::has_room(old(g)@),
    ensures
        final(g).wf(),
        r == graph::has_room(graph_with_links(old(g)@, path@, link_views(links@))),
        r ==> final(g)@ == graph_with_links(old(g)@, path@, link_views(links@)),
{
    let ghost start = g@;
    let ghost lv = link_views(links@);
    assert(lv.take(0) =~= Seq::<(Seq<char>, EdgeKind)>::empty());
    for i in 0..links.len()
        invariant
            g.wf(),
            graph::has_room(g@),
            start == old(g)@,
            lv == link_views(links@),
            g@ == graph_with_links(start, path@, lv.take(i as int)),
    {
        proof {
            assert(lv.take(i + 1).drop_last() =~= lv.take(i as int));
            assert(lv.take(i + 1).last() == (links@[i as int].0@, links@[i as int].1));
            lemma_graph_links_grow(start, path@, lv, i + 1);
        }
        if !g.fits_edge(path, links[i].0.as_str(), links[i].1) {
            return false;
        }
        g.add_edge(path, links[i].0.as_str(), links[i].1);
    }
    assert(lv.take(lv.len() as int) =~= lv);
    true
}

/// The graph of a project, if there is room for it.
fn grow_graph(index: &Index, all_paths: &Vec<String>, files: &Vec<ChangedFile>) -> (r: Option<
    DependencyGraph,
>)
    requires
        index.wf(),
    ensures
        r is Some == fits(index@, text::views(all_paths@), files@),
        r is Some ==> r->0.wf() && r->0@ == project_graph(
            index@,
            text::views(all_paths@),
            files@,
        ),
{
    let mut g = DependencyGraph::new();
    let ghost empty = GraphView { nodes: Seq::empty(), edges: Seq::empty() };
    let ghost paths = text::views(all_paths@);
    let ghost start = graph_with_files(empty, paths);
    proof {
        assert(g@ =~= empty);
        assert(paths.take(0) =~= Seq::<Seq<char>>::empty());
        assert(paths.len() == all_paths@.len());
        lemma_all_grow(start, index@, files@, paths, 0);
    }
    for i in 0..all_paths.len()
        invariant
            g.wf(),
            graph::has_room(g@),
            paths == text::views(all_paths@),
            start == graph_with_files(empty, paths),
            empty.edges.len() == 0,
            start.nodes.len() <= project_graph(index@, paths, files@).nodes.len(),
            empty == (GraphView { nodes: Seq::empty(), edges: Seq::empty() }),
            g@ == graph_with_files(empty, paths.take(i as int)),
    {
        proof {
            assert(paths.take(i + 1).drop_last() =~= paths.take(i as int));
            assert(paths.take(i + 1).last() == all_paths@[i as int]@);
            lemma_files_grow(empty, paths, i + 1);
        }
        if !g.fits_file(all_paths[i].as_str()) {
            return None;
        }
        g.add_file(all_paths[i].as_str());
    }
    assert(paths.take(paths.len() as int) =~= paths);
    for i in 0..all_paths.len()
        invariant
            g.wf(),
            graph::has_room(g@),
            index.wf(),
            paths == text::views(all_paths@),
            empty == (GraphView { nodes: Seq::empty(), edges: Seq::empty() }),
            start == graph_with_files(empty, paths),
            g@ == graph_with_all(start, index@, files@, paths.take(i as int)),
    {
        proof {
            assert(paths.take(i + 1).drop_last() =~= paths.take(i as int));
            assert(paths.take(i + 1).last() == all_paths@[i as int]@);
            lemma_all_grow(start, index@, files@, paths, i + 1);
        }
        let links = find_links(index, files, all_paths[i].as_str());
        if !add_links(&mut g, all_paths[i].as_str(), &links) {
            return None;
        }
    }
    assert(paths.take(paths.len() as int) =~= paths);
    Some(g)
}

/// Whether there is room in a graph for the files of a project and their edges.
pub fn fits_graph(index: &Index, all_paths: &Vec<String>, files: &Vec<ChangedFile>) -> (r: bool)
    requires
        index.wf(),
    ensures
        r == fits(index@, text::views(all_paths@), files@),
{
    grow_graph(index, all_paths, files).is_some()
}

/// The graph of a project: its files, and the edges of each. Files that were not read anew have the
/// edges that the index keeps of them.
pub fn build_graph(
    index: &Index,
    all_paths: &Vec<String>,
    files: &Vec<ChangedFile>,
) -> (r: DependencyGraph)
    requires
        index.wf(),
        fits(index@, text::views(all_paths@), files@),
    ensures
        r.wf(),
        r@ == project_graph(index@, text::views(all_paths@), files@),
{
    grow_graph(index, all_paths, files).unwrap()
}

// ---------------------------------------------------------------------------------------------
// What the index keeps
// ---------------------------------------------------------------------------------------------

/// The kind of the first export with this name.
pub open spec fn export_kind(exports: Seq<(Seq<char>, ExportKind)>, name: Seq<char>) -> Option<
    ExportKind,
>
    decreases exports.len(),
{
    if exports.len() == 0 {
        None
    } else if exports[0].0 == name {
        Some(exports[0].1)
    } else {
        export_kind(exports.drop_first(), name)
    }
}

/// The kind that the index keeps of a symbol: that of the export with its name, if it is exported.
pub open spec fn symbol_kind(
    exports: Seq<(Seq<char>, ExportKind)>,
    symbol: (Seq<char>, bool, usize),
) -> Seq<char> {
    if symbol.1 {
        match export_kind(exports, symbol.0) {
            Some(kind) => types::kind_name(kind),
            None => "Variable"@,
        }
    } else {
        "Variable"@
    }
}

/// The rows of the symbols of a file.
pub open spec fn symbol_rows(
    exports: Seq<(Seq<char>, ExportKind)>,
    symbols: Seq<(Seq<char>, bool, usize)>,
) -> Seq<NewSymbolView> {
    symbols.map_values(
        |s: (Seq<char>, bool, usize)| (s.0, symbol_kind(exports, s), s.1, None::<i32>, s.2),
    )
}

/// The rows of the edges of a file: those to files of the index.
pub open spec fn edge_rows(files: Seq<db::FileView>, edges: Seq<ResolvedView>) -> Seq<NewEdgeView>
    decreases edges.len(),
{
    if edges.len() == 0 {
        Seq::empty()
    } else {
        let before = edge_rows(files, edges.drop_last());
        let last = edges.last();
        match db::id_of(files, last.target) {
            Some(id) => before.push(
                (id, graph::edge_kind_name(last.kind), Some(last.specifier)),
            ),
            None => before,
        }
    }
}

/// The rank that a list gives a path; the last one counts.
pub open spec fn rank_in(ranks: Seq<(Seq<char>, u64)>, path: Seq<char>) -> u64
    decreases ranks.len(),
{
    if ranks.len() == 0 {
        0
    } else if ranks.last().0 == path {
        ranks.last().1
    } else {
        rank_in(ranks.drop_last(), path)
    }
}

/// The index with a file that was read anew: its hash, rank and modification time.
pub open spec fn file_stored(
    v: IndexView,
    file: ChangedFile,
    ranks: Seq<(Seq<char>, u64)>,
    now: i64,
) -> IndexView {
    let upserted = db::upserted(v, file.path@, file.hash@, rank_in(ranks, file.path@), now);
    match file.mtime {
        Some(mtime) => db::with_mtime(upserted, file.path@, mtime),
        None => upserted,
    }
}

/// The index with the symbols of a file that was parsed; nothing where it has no numbers left for
/// them.
pub open spec fn symbols_stored(v: IndexView, file: ChangedFile) -> Option<IndexView> {
    match (file.data, db::id_of(v.files, file.path@)) {
        (Some(data), Some(id)) => {
            let kept = db::symbols_besides(v.symbols, id);
            let rows = symbol_rows(
                types::export_views(data.analysis.exports@),
                types::symbol_views(data.analysis.symbols@),
            );
            if rows.len() <= db::room_after(db::last_symbol_id(kept)) {
                Some(IndexView { symbols: db::with_symbols(kept, id, rows), ..v })
            } else {
                None
            }
        },
        _ => Some(v),
    }
}

/// The index with the edges of a file that was parsed; nothing where it has no numbers left for
/// them.
pub open spec fn edges_stored(v: IndexView, file: ChangedFile) -> Option<IndexView> {
    match (file.data, db::id_of(v.files, file.path@)) {
        (Some(data), Some(id)) => {
            let kept = db::edges_besides(v.edges, id);
            let rows = edge_rows(v.files, resolved_views(data.edges@));
            if rows.len() <= db::room_after(db::last_edge_id(kept)) {
                Some(IndexView { edges: db::with_edges(kept, id, rows), ..v })
            } else {
                None
            }
        },
        _ => Some(v),
    }
}

/// The index with some files that were read anew, and their symbols.
pub open spec fn files_stored(
    v: IndexView,
    files: Seq<ChangedFile>,
    ranks: Seq<(Seq<char>, u64)>,
    now: i64,
) -> Option<IndexView>
    decreases files.len(),
{
    if files.len() == 0 {
        Some(v)
    } else {
        match files_stored(v, files.drop_last(), ranks, now) {
            Some(before) => if db::has_room_for(before, files.last().path@) {
                symbols_stored(file_stored(before, files.last(), ranks, now), files.last())
            } else {
                None
            },
            None => None,
        }
    }
}

/// The index with the edges of some files.
pub open spec fn all_edges_stored(v: IndexView, files: Seq<ChangedFile>) -> Option<IndexView>
    decreases files.len(),
{
    if files.len() == 0 {
        Some(v)
    } else {
        match all_edges_stored(v, files.drop_last()) {
            Some(before) => edges_stored(before, files.last()),
            None => None,
        }
    }
}

/// The index after the files that were read anew: their rows and symbols, then their edges, then
/// the ranks of all files. Nothing where it has no numbers left for the rows.
pub open spec fn persisted(
    v: IndexView,
    files: Seq<ChangedFile>,
    ranks: Seq<(Seq<char>, u64)>,
    now: i64,
) -> Option<IndexView> {
    match files_stored(v, files, ranks, now) {
        Some(stored) => match all_edges_stored(stored, files) {
            Some(linked) => Some(
                IndexView { files: db::reranked(linked.files, ranks), ..linked },
            ),
            None => None,
        },
        None => None,
    }
}

/// The kind that the index keeps of a symbol.
fn kind_of_symbol(analysis: &FileAnalysis, symbol: &SymbolInfo) -> (r: String)
    ensures
        r@ == symbol_kind(types::export_views(analysis.exports@), symbol@),
{
    if symbol.is_exported {
        let ghost all = types::export_views(analysis.exports@);
        assert(all.skip(0) =~= all);
        for i in 0..analysis.exports.len()
            invariant
                all == types::export_views(analysis.exports@),
                symbol.is_exported,
                export_kind(all, symbol.name@) == export_kind(all.skip(i as int), symbol.name@),
        {
            assert(all.skip(i as int)[0] == analysis.exports@[i as int]@);
            if analysis.exports[i].name == symbol.name {
                return analysis.exports[i].kind.name();
            }
            assert(all.skip(i as int).drop_first() =~= all.skip(i + 1));
        }
    }
    "Variable".to_string()
}

/// The rows of the symbols of a file.
fn rows_of_symbols(analysis: &FileAnalysis) -> (r: Vec<NewSymbol>)
    ensures
        db::new_symbol_views(r@) == symbol_rows(
            types::export_views(analysis.exports@),
            types::symbol_views(analysis.symbols@),
        ),
{
    let ghost exports = types::export_views(analysis.exports@);
    let ghost symbols = types::symbol_views(analysis.symbols@);
    let mut out: Vec<NewSymbol> = Vec::new();
    for i in 0..analysis.symbols.len()
        invariant
            exports == types::export_views(analysis.exports@),
            symbols == types::symbol_views(analysis.symbols@),
            db::new_symbol_views(out@) == symbol_rows(exports, symbols.take(i as int)),
    {
        let s = &analysis.symbols[i];
        let ghost before = db::new_symbol_views(out@);
        let row: NewSymbol = (
            s.name.clone(),
            kind_of_symbol(analysis, s),
            s.is_exported,
            None,
            s.reference_count,
        );
        let ghost shown = (row.0@, row.1@, row.2, row.3, row.4);
        out.push(row);
        proof {
            assert(db::new_symbol_views(out@) =~= before.push(shown));
            assert(symbols[i as int] == s@);
            assert(symbol_rows(exports, symbols.take(i + 1)) =~= before.push(shown));
        }
    }
    assert(symbols.take(symbols.len() as int) =~= symbols);
    out
}

/// The rows of the edges of a file.
fn rows_of_edges(index: &Index, edges: &Vec<ResolvedEdge>) -> (r: Vec<NewEdge>)
    requires
        index.wf(),
    ensures
        db::new_edge_views(r@) == edge_rows(index@.files, resolved_views(edges@)),
        forall|k: int|
            0 <= k < r@.len() ==> db::has_id(
                index@.files,
                (#[trigger] db::new_edge_views(r@)[k]).0,
            ),
{
    let ghost files = index@.files;
    let ghost ev = resolved_views(edges@);
    let mut out: Vec<NewEdge> = Vec::new();
    assert(ev.take(0) =~= Seq::<ResolvedView>::empty());
    assert(db::new_edge_views(out@) =~= Seq::<NewEdgeView>::empty());
    for i in 0..edges.len()
        invariant
            index.wf(),
            files == index@.files,
            ev == resolved_views(edges@),
            db::new_edge_views(out@) == edge_rows(files, ev.take(i as int)),
            forall|k: int|
                0 <= k < out@.len() ==> db::has_id(
                    files,
                    (#[trigger] db::new_edge_views(out@)[k]).0,
                ),
    {
        let e = &edges[i];
        let ghost before = db::new_edge_views(out@);
        proof {
            assert(ev.take(i + 1).drop_last() =~= ev.take(i as int));
            assert(ev.take(i + 1).last() == e@);
        }
        match db::find(index, e.target.as_str()) {
            Some(at) => {
                let id: i64 = index.files[at].id;
                let row: NewEdge = (id, e.kind.name(), Some(e.specifier.clone()));
                let ghost shown = (row.0, row.1@, text::opt_view(row.2));
                out.push(row);
                proof {
                    assert(files[at as int] == index.files@[at as int]@);
                    assert(db::new_edge_views(out@) =~= before.push(shown));
                    assert forall|k: int| 0 <= k < out@.len() implies db::has_id(
                        files,
                        (#[trigger] db::new_edge_views(out@)[k]).0,
                    ) by {
                        if k < before.len() {
                            assert(before[k] == db::new_edge_views(out@)[k]);
                        } else {
                            assert(files[at as int].id == id);
                        }
                    }
                }
            },
            None => {},
        }
    }
    assert(ev.take(ev.len() as int) =~= ev);
    out
}

/// The rank that a list gives a path; the last one counts.
fn find_rank(ranks: &Vec<(String, u64)>, path: &String) -> (r: u64)
    ensures
        r == rank_in(db::rank_views(ranks@), path@),
{
    let ghost all = db::rank_views(ranks@);
    let mut i: usize = ranks.len();
    assert(all.take(all.len() as int) =~= all);
    while i > 0
        invariant
            i <= ranks@.len(),
            all == db::rank_views(ranks@),
            rank_in(all, path@) == rank_in(all.take(i as int), path@),
        decreases i,
    {
        proof {
            assert(all.take(i as int).last() == (ranks@[i - 1].0@, ranks@[i - 1].1));
            assert(all.take(i as int).drop_last() =~= all.take(i - 1));
        }
        if ranks[i - 1].0 == *path {
            return ranks[i - 1].1;
        }
        i -= 1;
    }
    0
}

/// Keeps a file that was read anew, and its symbols.
fn store_file(index: &mut Index, file: &ChangedFile, ranks: &Vec<(String, u64)>, now: i64) -> (r:
    Result<(), IndexError>)
    requires
        old(index).wf(),
    ensures
        final(index).wf(),
        ({
            let rv = db::rank_views(ranks@);
            let after = if db::has_room_for(old(index)@, file.path@) {
                symbols_stored(file_stored(old(index)@, *file, rv, now), *file)
            } else {
                None
            };
            match r {
                Ok(_) => after == Some(final(index)@),
                Err(e) => after is None && e == IndexError::Full,
            }
        }),
{
    let ghost before = index@;
    let rank: u64 = find_rank(ranks, &file.path);
    let id: i64 = match db::upsert_file(index, file.path.as_str(), file.hash.as_str(), rank, now) {
        Ok(id) => id,
        Err(e) => {
            return Err(e);
        },
    };
    let ghost upserted = index@;
    match file.mtime {
        Some(mtime) => {
            proof {
                if before.files.len() > 0 {
                    let other = seq!['x'] + file.path@;
                    assert(other.len() != file.path@.len());
                    db::law_mtime_read_back(upserted, file.path@, mtime, other);
                }
                let at = db::at_path(upserted.files, file.path@);
                assert(0 <= at < upserted.files.len() && upserted.files[at].path == file.path@);
            }
            db::update_file_mtime(index, file.path.as_str(), mtime);
            proof {
                let at = db::at_path(upserted.files, file.path@);
                assert(index@.files[at].path == file.path@);
                db::lemma_at_path(index@.files, file.path@, at);
            }
        },
        None => {},
    }
    assert(index@ == file_stored(before, *file, db::rank_views(ranks@), now));
    assert(db::id_of(index@.files, file.path@) == Some(id));
    match &file.data {
        Some(data) => {
            let rows = rows_of_symbols(&data.analysis);
            proof {
                let at = db::at_path(index@.files, file.path@);
                assert(0 <= at < index@.files.len() && index@.files[at].id == id);
                assert(db::has_id(index@.files, id));
                assert(db::new_symbol_views(rows@).len() == rows@.len());
            }
            let ghost middle = index@;
            let r = db::insert_symbols(index, id, &rows);
            proof {
                let kept = db::symbols_besides(middle.symbols, id);
                if rows@.len() == 0 {
                    assert(db::new_symbol_views(rows@) =~= Seq::<NewSymbolView>::empty());
                }
                if r is Ok {
                    assert(index@ =~= (IndexView {
                        symbols: db::with_symbols(kept, id, db::new_symbol_views(rows@)),
                        ..middle
                    }));
                }
            }
            r
        },
        None => Ok(()),
    }
}

/// Keeps the edges of a file that was parsed.
fn store_edges(index: &mut Index, file: &ChangedFile) -> (r: Result<(), IndexError>)
    requires
        old(index).wf(),
    ensures
        final(index).wf(),
        match r {
            Ok(_) => edges_stored(old(index)@, *file) == Some(final(index)@),
            Err(e) => edges_stored(old(index)@, *file) is None && e == IndexError::Full,
        },
{
    let ghost before = index@;
    match (&file.data, db::get_file_id(index, file.path.as_str())) {
        (Some(data), Some(id)) => {
            let rows = rows_of_edges(index, &data.edges);
            let ghost views = db::new_edge_views(rows@);
            proof {
                let at = db::at_path(before.files, file.path@);
                assert(0 <= at < before.files.len() && before.files[at].id == id);
                assert(db::has_id(before.files, id));
                db::lemma_leading_valid(before.files, views, views.len() as int);
                assert(views.take(views.len() as int) =~= views);
            }
            let r = db::insert_edges(index, id, &rows);
            proof {
                let kept = db::edges_besides(before.edges, id);
                if r is Ok {
                    assert(index@ =~= (IndexView {
                        edges: db::with_edges(kept, id, views),
                        ..before
                    }));
                }
            }
            r
        },
        _ => Ok(()),
    }
}

/// Keeps the files that were read anew, with their symbols and edges, and the ranks of all files;
/// all of it or nothing.
pub fn persist(
    index: Index,
    files: &Vec<ChangedFile>,
    ranks: &Vec<(String, u64)>,
    now: i64,
) -> (r: Result<Index, IndexError>)
    requires
        index.wf(),
    ensures
        match r {
            Ok(after) => after.wf() && persisted(index@, files@, db::rank_views(ranks@), now)
                == Some(after@),
            Err(e) => persisted(index@, files@, db::rank_views(ranks@), now) is None && e
                == IndexError::Full,
        },
{
    let ghost start = index@;
    let ghost rv = db::rank_views(ranks@);
    let mut current = index;
    assert(files@.take(0) =~= Seq::<ChangedFile>::empty());
    for i in 0..files.len()
        invariant
            start == index@,
            current.wf(),
            rv == db::rank_views(ranks@),
            files_stored(start, files@.take(i as int), rv, now) == Some(current@),
    {
        proof {
            assert(files@.take(i + 1).drop_last() =~= files@.take(i as int));
            assert(files@.take(i + 1).last() == files@[i as int]);
        }
        match store_file(&mut current, &files[i], ranks, now) {
            Ok(_) => {},
            Err(e) => {
                proof {
                    lemma_files_not_stored(start, files@, rv, now, i + 1);
                }
                return Err(e);
            },
        }
    }
    let ghost stored = current@;
    assert(files@.take(files@.len() as int) =~= files@);
    for i in 0..files.len()
        invariant
            start == index@,
            current.wf(),
            all_edges_stored(stored, files@.take(i as int)) == Some(current@),
            files_stored(start, files@, rv, now) == Some(stored),
            rv == db::rank_views(ranks@),
    {
        proof {
            assert(files@.take(i + 1).drop_last() =~= files@.take(i as int));
            assert(files@.take(i + 1).last() == files@[i as int]);
        }
        match store_edges(&mut current, &files[i]) {
            Ok(_) => {},
            Err(e) => {
                proof {
                    lemma_edges_not_stored(stored, files@, i + 1);
                }
                return Err(e);
            },
        }
    }
    db::update_ranks(&mut current, ranks);
    Ok(current)
}

/// Where some files cannot be kept, more of them cannot either.
proof fn lemma_files_not_stored(
    v: IndexView,
    files: Seq<ChangedFile>,
    ranks: Seq<(Seq<char>, u64)>,
    now: i64,
    n: int,
)
    requires
        0 <= n <= files.len(),
        files_stored(v, files.take(n), ranks, now) is None,
    ensures
        files_stored(v, files, ranks, now) is None,
    decreases files.len(),
{
    if n == files.len() {
        assert(files.take(n) =~= files);
    } else {
        assert(files.drop_last().take(n) =~= files.take(n));
        lemma_files_not_stored(v, files.drop_last(), ranks, now, n);
    }
}

/// Where the edges of some files cannot be kept, those of more files cannot either.
proof fn lemma_edges_not_stored(v: IndexView, files: Seq<ChangedFile>, n: int)
    requires
        0 <= n <= files.len(),
        all_edges_stored(v, files.take(n)) is None,
    ensures
        all_edges_stored(v, files) is None,
    decreases files.len(),
{
    if n == files.len() {
        assert(files.take(n) =~= files);
    } else {
        assert(files.drop_last().take(n) =~= files.take(n));
        lemma_edges_not_stored(v, files.drop_last(), n);
    }
}

/// An index with only the files of another.
spec fn only_files(v: IndexView) -> IndexView {
    IndexView { files: v.files, symbols: Seq::empty(), edges: Seq::empty() }
}

/// Keeping a file gives it its hash and modification time, and no other file another.
proof fn lemma_file_stored(
    v: IndexView,
    file: ChangedFile,
    ranks: Seq<(Seq<char>, u64)>,
    now: i64,
    other: Seq<char>,
)
    requires
        db::files_wf(v.files),
        db::has_room_for(v, file.path@),
        other != file.path@,
    ensures
        db::files_wf(file_stored(v, file, ranks, now).files),
        db::hash_of(file_stored(v, file, ranks, now).files, file.path@) == Some(file.hash@),
        db::hash_of(file_stored(v, file, ranks, now).files, other) == db::hash_of(v.files, other),
        db::id_of(file_stored(v, file, ranks, now).files, other) == db::id_of(v.files, other),
        db::has_path(v.files, file.path@) ==> db::id_of(
            file_stored(v, file, ranks, now).files,
            file.path@,
        ) == db::id_of(v.files, file.path@),
        file.mtime is Some ==> db::mtime_of(file_stored(v, file, ranks, now).files, file.path@)
            == file.mtime,
        db::mtime_of(file_stored(v, file, ranks, now).files, other) == db::mtime_of(
            v.files,
            other,
        ),
{
    let w = only_files(v);
    let rank = rank_in(ranks, file.path@);
    let up = db::upserted(v, file.path@, file.hash@, rank, now);
    let up_only = db::upserted(w, file.path@, file.hash@, rank, now);
    assert(up.files == up_only.files);
    db::law_upsert_read_back(w, file.path@, file.hash@, rank, now, other);
    db::lemma_upserted_wf(w, file.path@, file.hash@, rank, now);
    match file.mtime {
        Some(mtime) => {
            db::law_mtime_read_back(up_only, file.path@, mtime, other);
            db::lemma_with_mtime(up_only, file.path@, mtime, other);
            assert(db::with_mtime(up, file.path@, mtime).files == db::with_mtime(
                up_only,
                file.path@,
                mtime,
            ).files);
        },
        None => {},
    }
}

/// Keeping files gives each its hash and modification time.
proof fn lemma_files_stored(
    v: IndexView,
    files: Seq<ChangedFile>,
    ranks: Seq<(Seq<char>, u64)>,
    now: i64,
)
    requires
        db::files_wf(v.files),
        files_stored(v, files, ranks, now) is Some,
        forall|a: int, b: int|
            0 <= a < b < files.len() ==> (#[trigger] files[a]).path@ != (#[trigger] files[b]).path@,
    ensures
        db::files_wf(files_stored(v, files, ranks, now)->0.files),
        forall|k: int|
            0 <= k < files.len() ==> db::hash_of(
                files_stored(v, files, ranks, now)->0.files,
                (#[trigger] files[k]).path@,
            ) == Some(files[k].hash@),
        forall|k: int|
            0 <= k < files.len() && (#[trigger] files[k]).mtime is Some ==> db::mtime_of(
                files_stored(v, files, ranks, now)->0.files,
                files[k].path@,
            ) == files[k].mtime,
    decreases files.len(),
{
    if files.len() > 0 {
        let rest = files.drop_last();
        let last = files.last();
        assert forall|a: int, b: int| 0 <= a < b < rest.len() implies (#[trigger] rest[a]).path@ != (
        #[trigger] rest[b]).path@ by {
            assert(files[a].path@ != files[b].path@);
        }
        lemma_files_stored(v, rest, ranks, now);
        let before = files_stored(v, rest, ranks, now)->0;
        let after = files_stored(v, files, ranks, now)->0;
        let stored = file_stored(before, last, ranks, now);
        assert(after.files == stored.files);
        let longer = last.path@.push('x');
        assert(longer.len() != last.path@.len());
        lemma_file_stored(before, last, ranks, now, longer);
        assert forall|k: int| 0 <= k < files.len() implies db::hash_of(
            after.files,
            (#[trigger] files[k]).path@,
        ) == Some(files[k].hash@) by {
            if k < rest.len() {
                assert(rest[k] == files[k]);
                assert(files[k].path@ != files[files.len() - 1].path@);
                lemma_file_stored(before, last, ranks, now, files[k].path@);
            }
        }
        assert forall|k: int|
            0 <= k < files.len() && (#[trigger] files[k]).mtime is Some implies db::mtime_of(
            after.files,
            files[k].path@,
        ) == files[k].mtime by {
            if k < rest.len() {
                assert(rest[k] == files[k]);
                assert(files[k].path@ != files[files.len() - 1].path@);
                lemma_file_stored(before, last, ranks, now, files[k].path@);
            }
        }
    }
}

/// Keeping edges changes no file.
proof fn lemma_edges_keep_files(v: IndexView, files: Seq<ChangedFile>)
    requires
        all_edges_stored(v, files) is Some,
    ensures
        all_edges_stored(v, files)->0.files == v.files,
    decreases files.len(),
{
    if files.len() > 0 {
        lemma_edges_keep_files(v, files.drop_last());
    }
}

/// After the files of a scan are kept, a scan of the same content skips them: the hash of each is
/// the one kept.
pub proof fn law_second_scan_skips(
    v: IndexView,
    files: Seq<ChangedFile>,
    ranks: Seq<(Seq<char>, u64)>,
    now: i64,
    k: int,
    incremental: bool,
)
    requires
        db::view_wf(v),
        forall|a: int, b: int|
            0 <= a < b < files.len() ==> (#[trigger] files[a]).path@ != (#[trigger] files[b]).path@,
        persisted(v, files, ranks, now) is Some,
        0 <= k < files.len(),
    ensures
        unchanged_by_hash(
            persisted(v, files, ranks, now)->0,
            files[k].path@,
            files[k].hash@,
            ScanMode { force: false, incremental },
        ),
{
    let stored = files_stored(v, files, ranks, now)->0;
    lemma_files_stored(v, files, ranks, now);
    lemma_edges_keep_files(stored, files);
    let linked = all_edges_stored(stored, files)->0;
    db::lemma_reranked_hash(linked.files, ranks, files[k].path@);
    assert(db::hash_of(stored.files, files[k].path@) == Some(files[k].hash@));
}

/// After the files of a scan are kept, an incremental scan looks only at those with a later
/// modification time.
pub proof fn law_incremental_scan_goes_by_time(
    v: IndexView,
    files: Seq<ChangedFile>,
    ranks: Seq<(Seq<char>, u64)>,
    now: i64,
    k: int,
    fs_mtime: i64,
)
    requires
        db::view_wf(v),
        forall|a: int, b: int|
            0 <= a < b < files.len() ==> (#[trigger] files[a]).path@ != (#[trigger] files[b]).path@,
        persisted(v, files, ranks, now) is Some,
        0 <= k < files.len(),
        files[k].mtime is Some,
    ensures
        unchanged_by_time(
            persisted(v, files, ranks, now)->0,
            files[k].path@,
            Some(fs_mtime),
            ScanMode { force: false, incremental: true },
        ) == (fs_mtime <= files[k].mtime->0),
{
    let stored = files_stored(v, files, ranks, now)->0;
    lemma_files_stored(v, files, ranks, now);
    lemma_edges_keep_files(stored, files);
    let linked = all_edges_stored(stored, files)->0;
    db::lemma_reranked_hash(linked.files, ranks, files[k].path@);
    assert(db::mtime_of(stored.files, files[k].path@) == files[k].mtime);
}

// ---------------------------------------------------------------------------------------------
// Ranks after a run over some files
// ---------------------------------------------------------------------------------------------

/// Whether files have the same numbers and paths, whatever else is kept of them.
pub open spec fn same_names(a: Seq<db::FileView>, b: Seq<db::FileView>) -> bool {
    a.len() == b.len() && forall|i: int|
        0 <= i < a.len() ==> (#[trigger] a[i]).id == b[i].id && a[i].path == b[i].path
}

/// Whether the edges of some files are found by number in both lists of files, with the same path.
spec fn targets_alike(
    a: Seq<db::FileView>,
    b: Seq<db::FileView>,
    edges: Seq<db::EdgeView>,
) -> bool {
    forall|k: int|
        0 <= k < edges.len() ==> a[db::at_id(a, (#[trigger] edges[k]).target_id)].path == b[db::at_id(
            b,
            edges[k].target_id,
        )].path
}

/// What edges lead to depends on the numbers and paths of the files alone.
proof fn lemma_links_alike(
    a: Seq<db::FileView>,
    b: Seq<db::FileView>,
    edges: Seq<db::EdgeView>,
    id: i64,
)
    requires
        targets_alike(a, b, edges),
    ensures
        kept_links(a, edges, id) == kept_links(b, edges, id),
    decreases edges.len(),
{
    if edges.len() > 0 {
        let rest = edges.drop_last();
        assert forall|k: int| 0 <= k < rest.len() implies a[db::at_id(
            a,
            (#[trigger] rest[k]).target_id,
        )].path == b[db::at_id(b, rest[k].target_id)].path by {
            assert(rest[k] == edges[k]);
        }
        lemma_links_alike(a, b, rest, id);
        assert(edges[edges.len() - 1] == edges.last());
    }
}

/// Files with the same names find the same by a number.
proof fn lemma_same_names(
    a: Seq<db::FileView>,
    b: Seq<db::FileView>,
    edges: Seq<db::EdgeView>,
    path: Seq<char>,
)
    requires
        db::files_wf(a),
        db::files_wf(b),
        same_names(a, b),
        db::edges_wf(a, edges),
    ensures
        db::edges_wf(b, edges),
        targets_alike(a, b, edges),
        db::id_of(a, path) == db::id_of(b, path),
        db::has_path(a, path) == db::has_path(b, path),
{
    assert forall|id: i64| db::has_id(a, id) implies #[trigger] db::has_id(b, id) && a[db::at_id(
        a,
        id,
    )].path == b[db::at_id(b, id)].path by {
        let i = db::at_id(a, id);
        assert(0 <= i < a.len() && a[i].id == id);
        assert(b[i].id == id);
        db::lemma_at_id(b, b[i].id, i);
    }
    assert forall|k: int| 0 <= k < edges.len() implies db::has_id(
        b,
        (#[trigger] edges[k]).source_id,
    ) && db::has_id(b, edges[k].target_id) && a[db::at_id(a, edges[k].target_id)].path == b[db::at_id(
        b,
        edges[k].target_id,
    )].path by {
        assert(db::has_id(a, edges[k].source_id));
        assert(db::has_id(a, edges[k].target_id));
    }
    if db::has_path(a, path) {
        let i = db::at_path(a, path);
        assert(0 <= i < a.len() && a[i].path == path);
        assert(b[i].path == path);
        db::lemma_at_path(b, path, i);
    }
    if db::has_path(b, path) {
        let i = db::at_path(b, path);
        assert(0 <= i < b.len() && b[i].path == path);
        assert(a[i].path == path);
        db::lemma_at_path(a, path, i);
    }
}

/// What edges that are put in lead to.
pub open spec fn row_links(files: Seq<db::FileView>, rows: Seq<NewEdgeView>) -> Seq<
    (Seq<char>, EdgeKind),
> {
    rows.map_values(
        |r: NewEdgeView| (files[db::at_id(files, r.0)].path, graph::edge_kind_named(r.1)),
    )
}

/// Edges that are put in are found behind the others of their file, and nowhere else.
proof fn lemma_links_put_in(
    files: Seq<db::FileView>,
    edges: Seq<db::EdgeView>,
    source_id: i64,
    rows: Seq<NewEdgeView>,
    id: i64,
)
    ensures
        kept_links(files, db::with_edges(edges, source_id, rows), id) == (if id == source_id {
            kept_links(files, edges, id) + row_links(files, rows)
        } else {
            kept_links(files, edges, id)
        }),
    decreases rows.len(),
{
    if rows.len() == 0 {
        assert(kept_links(files, edges, id) + row_links(files, rows) =~= kept_links(
            files,
            edges,
            id,
        ));
    } else {
        lemma_links_put_in(files, edges, source_id, rows.drop_last(), id);
        let before = db::with_edges(edges, source_id, rows.drop_last());
        let after = db::with_edges(edges, source_id, rows);
        assert(after.drop_last() =~= before);
        if id == source_id {
            assert(kept_links(files, edges, id) + row_links(files, rows) =~= (kept_links(
                files,
                edges,
                id,
            ) + row_links(files, rows.drop_last())).push(row_links(files, rows).last()));
        }
    }
}

/// Taking out the edges of one file takes out no edge of another.
proof fn lemma_links_besides(
    files: Seq<db::FileView>,
    edges: Seq<db::EdgeView>,
    source_id: i64,
    id: i64,
)
    ensures
        kept_links(files, db::edges_besides(edges, source_id), id) == (if id == source_id {
            Seq::empty()
        } else {
            kept_links(files, edges, id)
        }),
    decreases edges.len(),
{
    reveal(Seq::filter);
    if edges.len() > 0 {
        lemma_links_besides(files, edges.drop_last(), source_id, id);
        let rest = db::edges_besides(edges.drop_last(), source_id);
        let all = db::edges_besides(edges, source_id);
        if edges.last().source_id != source_id {
            assert(all == rest.push(edges.last()));
            assert(all.drop_last() =~= rest);
        } else {
            assert(all == rest);
        }
    }
}

/// The rows of edges to files of the index lead where the edges do.
proof fn lemma_row_links(files: Seq<db::FileView>, edges: Seq<ResolvedView>)
    requires
        db::files_wf(files),
        forall|k: int| 0 <= k < edges.len() ==> db::has_path(files, (#[trigger] edges[k]).target),
    ensures
        row_links(files, edge_rows(files, edges)) == new_links(edges),
    decreases edges.len(),
{
    if edges.len() > 0 {
        let rest = edges.drop_last();
        let last = edges.last();
        assert forall|k: int| 0 <= k < rest.len() implies db::has_path(
            files,
            (#[trigger] rest[k]).target,
        ) by {
            assert(rest[k] == edges[k]);
        }
        lemma_row_links(files, rest);
        assert(edges[edges.len() - 1] == last);
        let at = db::at_path(files, last.target);
        assert(0 <= at < files.len() && files[at].path == last.target);
        db::lemma_at_id(files, files[at].id, at);
        graph::lemma_edge_kind_named(last.kind);
        let row = (files[at].id, graph::edge_kind_name(last.kind), Some(last.specifier));
        assert(edge_rows(files, edges) == edge_rows(files, rest).push(row));
        assert(row_links(files, edge_rows(files, edges)) =~= row_links(
            files,
            edge_rows(files, rest),
        ).push((last.target, last.kind)));
        assert(new_links(edges) =~= new_links(rest).push((last.target, last.kind)));
    } else {
        assert(row_links(files, edge_rows(files, edges)) =~= new_links(edges));
    }
}

/// Whether a file was parsed and all that it leads to stands in the index.
pub open spec fn leads_to_files(files: Seq<db::FileView>, file: ChangedFile) -> bool {
    file.data is Some && forall|j: int|
        0 <= j < edges_of(file).len() ==> db::has_path(files, (#[trigger] edges_of(file)[j]).target)
}

/// Keeping the edges of a file makes them the edges of that file, and changes those of no other.
proof fn lemma_edges_stored(v: IndexView, file: ChangedFile, id: i64)
    requires
        db::files_wf(v.files),
        edges_stored(v, file) is Some,
    ensures
        edges_stored(v, file)->0.files == v.files,
        db::id_of(v.files, file.path@) != Some(id) ==> kept_links(
            v.files,
            edges_stored(v, file)->0.edges,
            id,
        ) == kept_links(v.files, v.edges, id),
        db::id_of(v.files, file.path@) == Some(id) && leads_to_files(v.files, file) ==> kept_links(
            v.files,
            edges_stored(v, file)->0.edges,
            id,
        ) == new_links(edges_of(file)),
{
    match (file.data, db::id_of(v.files, file.path@)) {
        (Some(data), Some(source_id)) => {
            let kept = db::edges_besides(v.edges, source_id);
            let rows = edge_rows(v.files, resolved_views(data.edges@));
            lemma_links_besides(v.files, v.edges, source_id, id);
            lemma_links_put_in(v.files, kept, source_id, rows, id);
            if leads_to_files(v.files, file) {
                lemma_row_links(v.files, resolved_views(data.edges@));
            }
            assert(Seq::<(Seq<char>, EdgeKind)>::empty() + row_links(v.files, rows) =~= row_links(
                v.files,
                rows,
            ));
        },
        _ => {},
    }
}

/// Keeping the edges of some files makes them the edges of those files.
proof fn lemma_all_edges_stored(v: IndexView, files: Seq<ChangedFile>, k: int)
    requires
        db::files_wf(v.files),
        all_edges_stored(v, files) is Some,
        forall|a: int, b: int|
            0 <= a < b < files.len() ==> (#[trigger] files[a]).path@ != (#[trigger] files[b]).path@,
        0 <= k < files.len(),
        db::has_path(v.files, files[k].path@),
        leads_to_files(v.files, files[k]),
    ensures
        kept_links(
            v.files,
            all_edges_stored(v, files)->0.edges,
            db::id_of(v.files, files[k].path@)->0,
        ) == new_links(edges_of(files[k])),
    decreases files.len(),
{
    let rest = files.drop_last();
    let before = all_edges_stored(v, rest)->0;
    let id = db::id_of(v.files, files[k].path@)->0;
    lemma_edges_keep_files(v, rest);
    lemma_edges_stored(before, files.last(), id);
    if k < rest.len() {
        assert forall|a: int, b: int| 0 <= a < b < rest.len() implies (#[trigger] rest[a]).path@ != (
        #[trigger] rest[b]).path@ by {
            assert(files[a].path@ != files[b].path@);
        }
        assert(rest[k] == files[k]);
        lemma_all_edges_stored(v, rest, k);
        assert(files[k].path@ != files[files.len() - 1].path@);
        if db::id_of(v.files, files.last().path@) == Some(id) {
            let i = db::at_path(v.files, files[k].path@);
            let j = db::at_path(v.files, files.last().path@);
            assert(0 <= i < v.files.len() && v.files[i].path == files[k].path@);
            assert(0 <= j < v.files.len() && v.files[j].path == files.last().path@);
            db::lemma_at_id(v.files, v.files[i].id, i);
            db::lemma_at_id(v.files, v.files[j].id, j);
        }
    }
}

/// Keeping the edges of some files changes those of no other.
proof fn lemma_other_edges_stay(v: IndexView, files: Seq<ChangedFile>, id: i64)
    requires
        db::files_wf(v.files),
        all_edges_stored(v, files) is Some,
        forall|k: int|
            0 <= k < files.len() ==> db::id_of(v.files, (#[trigger] files[k]).path@) != Some(id),
    ensures
        kept_links(v.files, all_edges_stored(v, files)->0.edges, id) == kept_links(
            v.files,
            v.edges,
            id,
        ),
    decreases files.len(),
{
    if files.len() > 0 {
        let rest = files.drop_last();
        assert forall|k: int| 0 <= k < rest.len() implies db::id_of(
            v.files,
            (#[trigger] rest[k]).path@,
        ) != Some(id) by {
            assert(rest[k] == files[k]);
        }
        lemma_other_edges_stay(v, rest, id);
        lemma_edges_keep_files(v, rest);
        assert(files[files.len() - 1] == files.last());
        lemma_edges_stored(all_edges_stored(v, rest)->0, files.last(), id);
    }
}

/// Ranks change no number and no path.
proof fn lemma_reranked_names(files: Seq<db::FileView>, ranks: Seq<(Seq<char>, u64)>)
    requires
        db::files_wf(files),
    ensures
        db::files_wf(db::reranked(files, ranks)),
        same_names(files, db::reranked(files, ranks)),
    decreases ranks.len(),
{
    if ranks.len() > 0 {
        lemma_reranked_names(files, ranks.drop_last());
        let before = db::reranked(files, ranks.drop_last());
        let (at, rank) = ranks.last();
        db::lemma_reranked_hash(files, ranks, at);
        if db::has_path(before, at) {
            let i = db::at_path(before, at);
            assert(0 <= i < before.len() && before[i].path == at);
        }
    }
}

/// Keeping files changes the number of no file, and no edge.
proof fn lemma_ids_stay(
    v: IndexView,
    files: Seq<ChangedFile>,
    ranks: Seq<(Seq<char>, u64)>,
    now: i64,
    path: Seq<char>,
)
    requires
        db::files_wf(v.files),
        files_stored(v, files, ranks, now) is Some,
        db::has_path(v.files, path),
    ensures
        db::files_wf(files_stored(v, files, ranks, now)->0.files),
        db::has_path(files_stored(v, files, ranks, now)->0.files, path),
        db::id_of(files_stored(v, files, ranks, now)->0.files, path) == db::id_of(v.files, path),
        files_stored(v, files, ranks, now)->0.edges == v.edges,
    decreases files.len(),
{
    if files.len() > 0 {
        let rest = files.drop_last();
        let last = files.last();
        lemma_ids_stay(v, rest, ranks, now, path);
        let before = files_stored(v, rest, ranks, now)->0;
        if path == last.path@ {
            let longer = path.push('x');
            assert(longer.len() != path.len());
            lemma_file_stored(before, last, ranks, now, longer);
        } else {
            lemma_file_stored(before, last, ranks, now, path);
        }
    }
}

/// The edges that a file was read with are the edges that the index then keeps of it.
pub proof fn law_edges_read_back(
    v: IndexView,
    files: Seq<ChangedFile>,
    ranks: Seq<(Seq<char>, u64)>,
    now: i64,
    after: IndexView,
    k: int,
)
    requires
        db::view_wf(v),
        persisted(v, files, ranks, now) == Some(after),
        db::view_wf(after),
        forall|a: int, b: int|
            0 <= a < b < files.len() ==> (#[trigger] files[a]).path@ != (#[trigger] files[b]).path@,
        0 <= k < files.len(),
        leads_to_files(after.files, files[k]),
    ensures
        db::has_path(after.files, files[k].path@),
        kept_links(after.files, after.edges, db::id_of(after.files, files[k].path@)->0)
            == new_links(edges_of(files[k])),
{
    let stored = files_stored(v, files, ranks, now)->0;
    let path = files[k].path@;
    lemma_files_stored(v, files, ranks, now);
    assert(db::hash_of(stored.files, path) is Some);
    lemma_edges_keep_files(stored, files);
    lemma_reranked_names(stored.files, ranks);
    assert(same_names(after.files, stored.files));
    lemma_same_names(after.files, stored.files, after.edges, path);
    assert forall|j: int| 0 <= j < edges_of(files[k]).len() implies db::has_path(
        stored.files,
        (#[trigger] edges_of(files[k])[j]).target,
    ) by {
        lemma_same_names(after.files, stored.files, after.edges, edges_of(files[k])[j].target);
    }
    lemma_all_edges_stored(stored, files, k);
    lemma_links_alike(
        after.files,
        stored.files,
        after.edges,
        db::id_of(after.files, path)->0,
    );
}

/// The edges that the index keeps of a file stay while other files are read anew.
pub proof fn law_other_edges_stay(
    v: IndexView,
    files: Seq<ChangedFile>,
    ranks: Seq<(Seq<char>, u64)>,
    now: i64,
    after: IndexView,
    path: Seq<char>,
)
    requires
        db::view_wf(v),
        persisted(v, files, ranks, now) == Some(after),
        db::view_wf(after),
        db::has_path(v.files, path),
        forall|k: int| 0 <= k < files.len() ==> (#[trigger] files[k]).path@ != path,
    ensures
        db::id_of(after.files, path) == db::id_of(v.files, path),
        kept_links(after.files, after.edges, db::id_of(after.files, path)->0) == kept_links(
            v.files,
            v.edges,
            db::id_of(v.files, path)->0,
        ),
{
    let stored = files_stored(v, files, ranks, now)->0;
    let id = db::id_of(v.files, path)->0;
    lemma_ids_stay(v, files, ranks, now, path);
    lemma_edges_keep_files(stored, files);
    lemma_reranked_names(stored.files, ranks);
    lemma_same_names(after.files, stored.files, after.edges, path);
    lemma_links_alike(after.files, stored.files, after.edges, id);
    assert forall|k: int| 0 <= k < v.edges.len() implies v.files[db::at_id(
        v.files,
        (#[trigger] v.edges[k]).target_id,
    )].path == stored.files[db::at_id(stored.files, v.edges[k].target_id)].path by {
        let target = v.edges[k].target_id;
        assert(db::has_id(v.files, target));
        let i = db::at_id(v.files, target);
        assert(0 <= i < v.files.len() && v.files[i].id == target);
        let there = v.files[i].path;
        db::lemma_at_path(v.files, there, i);
        lemma_ids_stay(v, files, ranks, now, there);
        let j = db::at_path(stored.files, there);
        assert(0 <= j < stored.files.len() && stored.files[j].path == there);
        db::lemma_at_id(stored.files, target, j);
    }
    lemma_links_alike(v.files, stored.files, v.edges, id);
    assert forall|k: int| 0 <= k < files.len() implies db::id_of(
        stored.files,
        (#[trigger] files[k]).path@,
    ) != Some(id) by {
        if db::id_of(stored.files, files[k].path@) == Some(id) {
            let i = db::at_path(stored.files, path);
            let j = db::at_path(stored.files, files[k].path@);
            assert(0 <= i < stored.files.len() && stored.files[i].path == path);
            assert(0 <= j < stored.files.len() && stored.files[j].path == files[k].path@);
            db::lemma_at_id(stored.files, id, i);
            db::lemma_at_id(stored.files, id, j);
        }
    }
    lemma_other_edges_stay(stored, files, id);
}

/// What the edges of a file lead to, for some edges and one more.
proof fn lemma_links_grow(
    files: Seq<db::FileView>,
    edges: Seq<db::EdgeView>,
    id: i64,
    known: Seq<Seq<char>>,
)
    requires
        edges.len() > 0,
        forall|k: int|
            0 <= k < kept_links(files, edges, id).len() ==> known.contains(
                (#[trigger] kept_links(files, edges, id)[k]).0,
            ),
    ensures
        forall|k: int|
            0 <= k < kept_links(files, edges.drop_last(), id).len() ==> known.contains(
                (#[trigger] kept_links(files, edges.drop_last(), id)[k]).0,
            ),
        edges.last().source_id == id ==> known.contains(
            files[db::at_id(files, edges.last().target_id)].path,
        ),
{
    let all = kept_links(files, edges, id);
    let rest = kept_links(files, edges.drop_last(), id);
    assert forall|k: int| 0 <= k < rest.len() implies known.contains((#[trigger] rest[k]).0) by {
        assert(all[k] == rest[k]);
    }
    if edges.last().source_id == id {
        assert(all[rest.len() as int] == all.last());
    }
}

/// Removing files that no edge of a file leads to leaves its edges.
proof fn lemma_links_of_known(
    files: Seq<db::FileView>,
    left: Seq<db::FileView>,
    edges: Seq<db::EdgeView>,
    id: i64,
    known: Seq<Seq<char>>,
)
    requires
        db::files_wf(files),
        left == files.filter(|f: db::FileView| known.contains(f.path)),
        db::has_id(left, id),
        forall|k: int|
            0 <= k < edges.len() ==> db::has_id(files, (#[trigger] edges[k]).target_id),
        forall|k: int|
            0 <= k < kept_links(files, edges, id).len() ==> known.contains(
                (#[trigger] kept_links(files, edges, id)[k]).0,
            ),
    ensures
        kept_links(
            left,
            edges.filter(
                |e: db::EdgeView| db::has_id(left, e.source_id) && db::has_id(left, e.target_id),
            ),
            id,
        ) == kept_links(files, edges, id),
    decreases edges.len(),
{
    let keep = |e: db::EdgeView| db::has_id(left, e.source_id) && db::has_id(left, e.target_id);
    reveal(Seq::filter);
    if edges.len() > 0 {
        let rest = edges.drop_last();
        let last = edges.last();
        lemma_links_grow(files, edges, id, known);
        assert forall|k: int| 0 <= k < rest.len() implies db::has_id(
            files,
            (#[trigger] rest[k]).target_id,
        ) by {
            assert(rest[k] == edges[k]);
        }
        lemma_links_of_known(files, left, rest, id, known);
        assert(edges[edges.len() - 1] == last);
        if last.source_id == id {
            let i = db::at_id(files, last.target_id);
            assert(0 <= i < files.len() && files[i].id == last.target_id);
            db::lemma_left(files, known, i);
            let j = choose|j: int| 0 <= j < left.len() && left[j] == files[i];
            db::lemma_at_id(left, last.target_id, j);
            assert(keep(last));
        }
        if keep(last) {
            assert(edges.filter(keep) == rest.filter(keep).push(last));
            assert(edges.filter(keep).drop_last() =~= rest.filter(keep));
        } else {
            assert(edges.filter(keep) == rest.filter(keep));
        }
    }
}

/// Whether two runs over the same files read the same of a file: the second run, over all files,
/// reads of it what the first reads of it or, where that one skips it, what the index keeps of it,
/// and it leads to files of the project alone.
pub open spec fn reads_alike(
    v: IndexView,
    paths: Seq<Seq<char>>,
    changed: Seq<ChangedFile>,
    full: Seq<ChangedFile>,
    path: Seq<char>,
) -> bool {
    position_of(full, path) matches Some(f) && match position_of(changed, path) {
        Some(k) => new_links(edges_of(changed[k])) == new_links(edges_of(full[f])),
        None => {
            &&& db::has_path(v.files, path)
            &&& kept_links(v.files, v.edges, db::id_of(v.files, path)->0) == new_links(
                edges_of(full[f]),
            )
            &&& forall|j: int|
                0 <= j < edges_of(full[f]).len() ==> paths.contains(
                    (#[trigger] edges_of(full[f])[j]).target,
                )
        },
    }
}

/// A run over the changed files alone makes the same graph as a run over all files, and so gives
/// the same ranks: what a skipped file leads to comes from the index, after the files that are gone
/// were removed.
pub proof fn law_incremental_graph_is_full(
    v: IndexView,
    w: IndexView,
    paths: Seq<Seq<char>>,
    changed: Seq<ChangedFile>,
    full: Seq<ChangedFile>,
    scores: Seq<u64>,
)
    requires
        db::view_wf(v),
        forall|i: int| 0 <= i < paths.len() ==> reads_alike(v, paths, changed, full, #[trigger] paths[i]),
    ensures
        project_graph(db::without_stale(v, paths), paths, changed) == project_graph(w, paths, full),
        graph::ranked(project_graph(db::without_stale(v, paths), paths, changed).nodes, scores)
            == graph::ranked(project_graph(w, paths, full).nodes, scores),
{
    let empty = GraphView { nodes: Seq::empty(), edges: Seq::empty() };
    let left = db::without_stale(v, paths);
    assert forall|i: int| 0 <= i < paths.len() implies links_of(left, changed, #[trigger] paths[i])
        == links_of(w, full, paths[i]) by {
        let path = paths[i];
        assert(reads_alike(v, paths, changed, full, path));
        if position_of(changed, path) is None {
            let f = position_of(full, path)->0;
            let links = new_links(edges_of(full[f]));
            let id = db::id_of(v.files, path)->0;
            db::law_stale_removed(v, paths, path);
            let at = db::at_path(left.files, path);
            assert(0 <= at < left.files.len() && left.files[at].path == path);
            db::lemma_at_id(left.files, id, at);
            assert forall|k: int| 0 <= k < links.len() implies paths.contains(
                (#[trigger] links[k]).0,
            ) by {
                assert(paths.contains(edges_of(full[f])[k].target));
            }
            lemma_links_of_known(v.files, left.files, v.edges, id, paths);
        }
    }
    lemma_graphs_alike(graph_with_files(empty, paths), left, w, changed, full, paths);
}

/// Graphs in which each file leads to the same are the same.
proof fn lemma_graphs_alike(
    g: GraphView,
    v: IndexView,
    w: IndexView,
    changed: Seq<ChangedFile>,
    full: Seq<ChangedFile>,
    paths: Seq<Seq<char>>,
)
    requires
        forall|i: int|
            0 <= i < paths.len() ==> links_of(v, changed, #[trigger] paths[i]) == links_of(
                w,
                full,
                paths[i],
            ),
    ensures
        graph_with_all(g, v, changed, paths) == graph_with_all(g, w, full, paths),
    decreases paths.len(),
{
    if paths.len() > 0 {
        let rest = paths.drop_last();
        assert forall|i: int| 0 <= i < rest.len() implies links_of(v, changed, #[trigger] rest[i])
            == links_of(w, full, rest[i]) by {
            assert(rest[i] == paths[i]);
        }
        lemma_graphs_alike(g, v, w, changed, full, rest);
        assert(paths[paths.len() - 1] == paths.last());
    }
}

/// Setting ranks changes no number and no path.
proof fn lemma_reranked_rows(files: Seq<db::FileView>, ranks: Seq<(Seq<char>, u64)>)
    ensures
        db::reranked(files, ranks).len() == files.len(),
        forall|i: int|
            0 <= i < files.len() ==> (#[trigger] db::reranked(files, ranks)[i]).id == files[i].id
                && db::reranked(files, ranks)[i].path == files[i].path,
    decreases ranks.len(),
{
    if ranks.len() > 0 {
        let before = db::reranked(files, ranks.drop_last());
        lemma_reranked_rows(files, ranks.drop_last());
        let path = ranks.last().0;
        if db::has_path(before, path) {
            let k = db::at_path(before, path);
            assert(0 <= k < before.len() && before[k].path == path);
        }
    }
}

/// Setting ranks changes no path, and gives each file its last rank of the list.
proof fn lemma_reranked(files: Seq<db::FileView>, ranks: Seq<(Seq<char>, u64)>, i: int)
    requires
        db::files_wf(files),
        0 <= i < files.len(),
    ensures
        db::reranked(files, ranks).len() == files.len(),
        db::reranked(files, ranks)[i].path == files[i].path,
        db::reranked(files, ranks)[i].rank == (if has_rank(ranks, files[i].path) {
            rank_in(ranks, files[i].path)
        } else {
            files[i].rank
        }),
    decreases ranks.len(),
{
    if ranks.len() > 0 {
        let short = ranks.drop_last();
        let before = db::reranked(files, short);
        let path = ranks.last().0;
        lemma_reranked(files, short, i);
        if db::has_path(before, path) {
            let k = db::at_path(before, path);
            assert(0 <= k < before.len() && before[k].path == path);
            lemma_reranked(files, short, k);
            if files[i].path == path && i != k {
                if i < k {
                    assert(files[i].path != files[k].path);
                } else {
                    assert(files[k].path != files[i].path);
                }
            }
        } else {
            assert(before[i].path != path);
        }
        if has_rank(short, files[i].path) {
            let k = choose|k: int| 0 <= k < short.len() && (#[trigger] short[k]).0 == files[i].path;
            assert(ranks[k].0 == files[i].path);
        }
        if files[i].path == path {
            assert(ranks[ranks.len() - 1].0 == path);
        }
        if has_rank(ranks, files[i].path) && files[i].path != path {
            let k = choose|k: int| 0 <= k < ranks.len() && (#[trigger] ranks[k]).0 == files[i].path;
            assert(short[k].0 == files[i].path);
        }
    }
}

/// Whether a list has a rank for a path.
pub open spec fn has_rank(ranks: Seq<(Seq<char>, u64)>, path: Seq<char>) -> bool {
    exists|k: int| 0 <= k < ranks.len() && (#[trigger] ranks[k]).0 == path
}

/// The rank that the index keeps of a file.
pub open spec fn kept_rank(v: IndexView, path: Seq<char>) -> u64 {
    v.files[db::at_path(v.files, path)].rank
}

/// After a run the index keeps the rank of each file that has one, whether it was read anew or not.
pub proof fn law_ranks_read_back(
    v: IndexView,
    files: Seq<ChangedFile>,
    ranks: Seq<(Seq<char>, u64)>,
    now: i64,
    after: IndexView,
    path: Seq<char>,
)
    requires
        db::view_wf(v),
        persisted(v, files, ranks, now) == Some(after),
        db::view_wf(after),
        db::has_path(after.files, path),
        has_rank(ranks, path),
    ensures
        kept_rank(after, path) == rank_in(ranks, path),
{
    let linked = all_edges_stored(files_stored(v, files, ranks, now)->0, files)->0;
    lemma_reranked_rows(linked.files, ranks);
    assert forall|i: int| 0 <= i < linked.files.len() implies (#[trigger] linked.files[i]).id
        == after.files[i].id && linked.files[i].path == after.files[i].path by {
    }
    assert(db::files_wf(linked.files));
    let i = db::at_path(after.files, path);
    assert(0 <= i < after.files.len() && after.files[i].path == path);
    lemma_reranked(linked.files, ranks, i);
}

/// A file that a graph holds stays in it.
proof fn lemma_nodes_stay(
    g: GraphView,
    path: Seq<char>,
    links: Seq<(Seq<char>, EdgeKind)>,
    node: Seq<char>,
)
    requires
        g.nodes.contains(node),
    ensures
        graph_with_links(g, path, links).nodes.contains(node),
    decreases links.len(),
{
    if links.len() > 0 {
        let before = graph_with_links(g, path, links.drop_last());
        lemma_nodes_stay(g, path, links.drop_last(), node);
        lemma_node_stays(before, path, node);
        lemma_node_stays(graph::with_file(before, path), links.last().0, node);
    }
}

/// A file that a graph holds stays in it when another one is added, and one that is added stands in
/// it.
proof fn lemma_node_stays(g: GraphView, path: Seq<char>, node: Seq<char>)
    ensures
        g.nodes.contains(node) ==> graph::with_file(g, path).nodes.contains(node),
        graph::with_file(g, path).nodes.contains(path),
{
    let after = graph::with_file(g, path).nodes;
    if g.nodes.contains(node) {
        let k = choose|k: int| 0 <= k < g.nodes.len() && g.nodes[k] == node;
        assert(after[k] == node);
    }
    if !g.nodes.contains(path) {
        assert(after[g.nodes.len() as int] == path);
    }
}

/// The graph of some files holds each of them.
proof fn lemma_files_in_graph(g: GraphView, paths: Seq<Seq<char>>, path: Seq<char>)
    requires
        paths.contains(path),
    ensures
        graph_with_files(g, paths).nodes.contains(path),
    decreases paths.len(),
{
    let rest = paths.drop_last();
    let before = graph_with_files(g, rest);
    lemma_node_stays(before, paths.last(), path);
    let k = choose|k: int| 0 <= k < paths.len() && paths[k] == path;
    if k < rest.len() {
        assert(rest[k] == path);
        lemma_files_in_graph(g, rest, path);
    }
}

/// Adding edges keeps the files of a graph.
proof fn lemma_all_stay(
    g: GraphView,
    v: IndexView,
    files: Seq<ChangedFile>,
    paths: Seq<Seq<char>>,
    node: Seq<char>,
)
    requires
        g.nodes.contains(node),
    ensures
        graph_with_all(g, v, files, paths).nodes.contains(node),
    decreases paths.len(),
{
    if paths.len() > 0 {
        lemma_all_stay(g, v, files, paths.drop_last(), node);
        lemma_nodes_stay(
            graph_with_all(g, v, files, paths.drop_last()),
            paths.last(),
            links_of(v, files, paths.last()),
            node,
        );
    }
}

/// Each file of a project has a rank.
pub proof fn law_all_files_ranked(
    v: IndexView,
    paths: Seq<Seq<char>>,
    files: Seq<ChangedFile>,
    scores: Seq<u64>,
    path: Seq<char>,
)
    requires
        paths.contains(path),
        scores.len() == project_graph(v, paths, files).nodes.len(),
    ensures
        has_rank(graph::ranked(project_graph(v, paths, files).nodes, scores), path),
{
    let empty = GraphView { nodes: Seq::empty(), edges: Seq::empty() };
    lemma_files_in_graph(empty, paths, path);
    lemma_all_stay(graph_with_files(empty, paths), v, files, paths, path);
    let nodes = project_graph(v, paths, files).nodes;
    let i = choose|i: int| 0 <= i < nodes.len() && nodes[i] == path;
    let keys = graph::rank_keys(scores);
    order::law_order_exists(keys);
    let order = order::order_of(keys);
    assert(order.contains(i));
    let k = choose|k: int| 0 <= k < order.len() && order[k] == i;
    assert(graph::ranked(nodes, scores)[k].0 == path);
}

/// A run over the changed files alone keeps the same ranks as a run over all files, where the
/// graphs are the same, as [`law_incremental_graph_is_full`] has it.
pub proof fn law_incremental_ranks_are_full(
    v: IndexView,
    w: IndexView,
    paths: Seq<Seq<char>>,
    changed: Seq<ChangedFile>,
    full: Seq<ChangedFile>,
    scores: Seq<u64>,
    now: i64,
    later: i64,
    a: IndexView,
    b: IndexView,
    path: Seq<char>,
)
    requires
        db::view_wf(v),
        db::view_wf(w),
        forall|i: int| 0 <= i < paths.len() ==> reads_alike(v, paths, changed, full, #[trigger] paths[i]),
        scores.len() == project_graph(w, paths, full).nodes.len(),
        persisted(
            db::without_stale(v, paths),
            changed,
            graph::ranked(
                project_graph(db::without_stale(v, paths), paths, changed).nodes,
                scores,
            ),
            now,
        ) == Some(a),
        persisted(
            w,
            full,
            graph::ranked(project_graph(w, paths, full).nodes, scores),
            later,
        ) == Some(b),
        db::view_wf(a),
        db::view_wf(b),
        paths.contains(path),
        db::has_path(a.files, path),
        db::has_path(b.files, path),
    ensures
        kept_rank(a, path) == kept_rank(b, path),
{
    law_incremental_graph_is_full(v, w, paths, changed, full, scores);
    let g = project_graph(w, paths, full);
    let ranks = graph::ranked(g.nodes, scores);
    law_all_files_ranked(w, paths, full, scores, path);
    db::law_stale_removed(v, paths, path);
    law_ranks_read_back(db::without_stale(v, paths), changed, ranks, now, a, path);
    law_ranks_read_back(w, full, ranks, later, b, path);
}

// ---------------------------------------------------------------------------------------------
// The ignore file
// ---------------------------------------------------------------------------------------------

/// Whether a line of an ignore file covers the directory of the index.
pub open spec fn line_covers_index(line: Seq<char>) -> bool {
    let entry = text::trim_by(line, CharClass::Space);
    entry == ".codemap"@ || entry == ".codemap/"@ || entry == "/.codemap"@ || entry
        == "/.codemap/"@
}

/// Whether an ignore file covers the directory of the index.
pub open spec fn covers_index(contents: Seq<char>) -> bool {
    exists|i: int|
        0 <= i < text::lines(contents).len() && line_covers_index(#[trigger] text::lines(contents)[i])
}

/// Whether an ignore file covers the directory of the index.
pub fn is_gitignored(contents: &str) -> (r: bool)
    ensures
        r == covers_index(contents@),
{
    let lines = text::lines_of(contents);
    let ghost all = text::lines(contents@);
    for i in 0..lines.len()
        invariant
            all == text::lines(contents@),
            all == text::views(lines@),
            forall|k: int| 0 <= k < i ==> !line_covers_index(#[trigger] all[k]),
    {
        let entry = text::trim(lines[i].as_str(), CharClass::Space);
        if text::same(entry.as_str(), ".codemap") || text::same(entry.as_str(), ".codemap/")
            || text::same(entry.as_str(), "/.codemap") || text::same(entry.as_str(), "/.codemap/") {
            assert(line_covers_index(all[i as int]));
            return true;
        }
        assert(!line_covers_index(all[i as int]));
    }
    false
}

/// What is told when the directory of the index may be put under version control.
pub const NOT_IGNORED: &'static str =
    "codemap: warning: .codemap/ is not in .gitignore — consider adding it to avoid committing the index database\n";

/// What is told of an ignore file, which may be missing.
pub fn warn_if_not_gitignored(contents: Option<&str>) -> (r: Option<&'static str>)
    ensures
        r is None <==> contents is Some && covers_index(contents->0@),
        r is Some ==> r->0@ == NOT_IGNORED@,
{
    match contents {
        Some(c) => if is_gitignored(c) {
            None
        } else {
            Some(NOT_IGNORED)
        },
        None => Some(NOT_IGNORED),
    }
}

// ---------------------------------------------------------------------------------------------
// What is told
// ---------------------------------------------------------------------------------------------

/// What is told of the files that were found.
pub open spec fn found_text(count: nat) -> Seq<char> {
    let found = "codemap: found "@ + text::decimal(count) + " files\n"@;
    if count == 0 {
        found + "codemap: no JS/TS files found\n"@
    } else {
        found
    }
}

/// What is told of the files that were found.
pub fn found_line(count: usize) -> (r: String)
    ensures
        r@ == found_text(count as nat),
{
    let mut out = "codemap: found ".to_string();
    out.append(text::decimal_of(count as u64).as_str());
    out.append(" files\n");
    if count == 0 {
        out.append("codemap: no JS/TS files found\n");
    }
    out
}

/// What is told once the files were looked at and `deleted` files were removed.
pub open spec fn settled_text(changed: nat, skipped: nat, deleted: nat, done: bool) -> Seq<char> {
    let looked = "codemap: "@ + text::decimal(changed) + " changed, "@ + text::decimal(skipped)
        + " unchanged\n"@;
    let removed = if deleted > 0 {
        looked + "codemap: removed "@ + text::decimal(deleted) + " stale files from index\n"@
    } else {
        looked
    };
    if done {
        removed + "codemap: up to date (0 changes)\n"@
    } else {
        removed
    }
}

/// Removes the files that are gone. Returns what is told, and whether that was all: a run over new
/// times only that found no change ends here.
pub fn settle(index: &mut Index, scan: &Scan, incremental: bool) -> (r: (String, bool))
    requires
        old(index).wf(),
    ensures
        final(index).wf(),
        final(index)@ == db::without_stale(old(index)@, text::views(scan.all_paths@)),
        r.1 == (incremental && scan.changed@.len() == 0),
        r.0@ == settled_text(
            scan.changed@.len(),
            scan.skipped as nat,
            (old(index)@.files.len() - final(index)@.files.len()) as nat,
            r.1,
        ),
{
    let deleted: usize = db::delete_stale_files(index, &scan.all_paths);
    let mut out = "codemap: ".to_string();
    out.append(text::decimal_of(scan.changed.len() as u64).as_str());
    out.append(" changed, ");
    out.append(text::decimal_of(scan.skipped as u64).as_str());
    out.append(" unchanged\n");
    if deleted > 0 {
        out.append("codemap: removed ");
        out.append(text::decimal_of(deleted as u64).as_str());
        out.append(" stale files from index\n");
    }
    let done = incremental && scan.changed.len() == 0;
    if done {
        out.append("codemap: up to date (0 changes)\n");
    }
    (out, done)
}

/// How many files could not be parsed.
pub open spec fn parse_errors(files: Seq<ChangedFile>) -> nat
    decreases files.len(),
{
    if files.len() == 0 {
        0
    } else {
        parse_errors(files.drop_last()) + (if files.last().data is None {
            1nat
        } else {
            0
        })
    }
}

/// How many files could not be parsed.
fn count_errors(files: &Vec<ChangedFile>) -> (r: usize)
    ensures
        r == parse_errors(files@),
        r <= files@.len(),
{
    let mut n: usize = 0;
    assert(files@.take(0) =~= Seq::<ChangedFile>::empty());
    for i in 0..files.len()
        invariant
            n == parse_errors(files@.take(i as int)),
            n <= i,
    {
        assert(files@.take(i + 1).drop_last() =~= files@.take(i as int));
        if files[i].data.is_none() {
            n = n + 1;
        }
    }
    assert(files@.take(files@.len() as int) =~= files@);
    n
}

/// What is told of files that could not be parsed: nothing if there are none.
pub fn parse_errors_line(files: &Vec<ChangedFile>) -> (r: String)
    ensures
        r@ == (if parse_errors(files@) > 0 {
            "codemap: "@ + text::decimal(parse_errors(files@)) + " parse errors\n"@
        } else {
            ""@
        }),
{
    let n: usize = count_errors(files);
    if n > 0 {
        "codemap: ".to_string().concat(text::decimal_of(n as u64).as_str()).concat(
            " parse errors\n",
        )
    } else {
        "".to_string()
    }
}

/// What is told when the index was written: how many files there are, how many of the changed ones
/// were parsed, and how many were skipped.
pub fn indexed_line(total: usize, files: &Vec<ChangedFile>, skipped: usize) -> (r: String)
    ensures
        r@ == "codemap: indexed "@ + text::decimal(total as nat) + " files ("@ + text::decimal(
            (files@.len() - parse_errors(files@)) as nat,
        ) + " parsed, "@ + text::decimal(skipped as nat) + " skipped)\n"@,
{
    let n: usize = count_errors(files);
    let mut out = "codemap: indexed ".to_string();
    out.append(text::decimal_of(total as u64).as_str());
    out.append(" files (");
    out.append(text::decimal_of((files.len() - n) as u64).as_str());
    out.append(" parsed, ");
    out.append(text::decimal_of(skipped as u64).as_str());
    out.append(" skipped)\n");
    out
}

// ---------------------------------------------------------------------------------------------
// What is kept of what was read
// ---------------------------------------------------------------------------------------------

/// The kind of an exported name is that of its first export; a name that is not exported has none.
pub proof fn law_kind_of_export(exports: Seq<(Seq<char>, ExportKind)>, name: Seq<char>)
    ensures
        forall|j: int|
            0 <= j < exports.len() && (#[trigger] exports[j]).0 == name && (forall|i: int|
                0 <= i < j ==> (#[trigger] exports[i]).0 != name) ==> export_kind(exports, name)
                == Some(exports[j].1),
        (forall|i: int| 0 <= i < exports.len() ==> (#[trigger] exports[i]).0 != name)
            ==> export_kind(exports, name) is None,
    decreases exports.len(),
{
    if exports.len() > 0 {
        let rest = exports.drop_first();
        law_kind_of_export(rest, name);
        if exports[0].0 != name {
            assert forall|j: int|
                0 <= j < exports.len() && (#[trigger] exports[j]).0 == name && (forall|i: int|
                    0 <= i < j ==> (#[trigger] exports[i]).0 != name) implies export_kind(
                exports,
                name,
            ) == Some(exports[j].1) by {
                assert(rest[j - 1] == exports[j]);
                assert forall|i: int| 0 <= i < j - 1 implies (#[trigger] rest[i]).0 != name by {
                    assert(exports[i + 1].0 != name);
                }
            }
        } else {
            assert forall|j: int|
                0 <= j < exports.len() && (#[trigger] exports[j]).0 == name && (forall|i: int|
                    0 <= i < j ==> (#[trigger] exports[i]).0 != name) implies export_kind(
                exports,
                name,
            ) == Some(exports[j].1) by {
                if j > 0 {
                    assert(exports[0].0 != name);
                }
            }
        }
        if forall|i: int| 0 <= i < exports.len() ==> (#[trigger] exports[i]).0 != name {
            assert forall|i: int| 0 <= i < rest.len() implies (#[trigger] rest[i]).0 != name by {
                assert(exports[i + 1].0 != name);
            }
        }
    }
}

/// Whether some rows are those of the symbols of a file that was read.
spec fn rows_of_analysis(rows: Seq<db::SymbolView>, data: FileData) -> bool {
    rows.len() == data.analysis.symbols@.len() && forall|i: int|
        0 <= i < rows.len() ==> {
            let symbol = data.analysis.symbols@[i];
            &&& (#[trigger] rows[i]).name == symbol.name@
            &&& rows[i].is_exported == symbol.is_exported
            &&& rows[i].ref_count == symbol.reference_count as i64
            &&& rows[i].line is None
            &&& rows[i].kind == symbol_kind(types::export_views(data.analysis.exports@), symbol@)
        }
}

/// The symbols of a file among some.
spec fn symbols_under(symbols: Seq<db::SymbolView>, id: i64) -> Seq<db::SymbolView> {
    symbols.filter(|s: db::SymbolView| s.file_id == id)
}

/// Keeping the symbols of a file puts in those of its analysis and leaves all others.
proof fn lemma_symbols_stored(v: IndexView, file: ChangedFile, id: i64)
    requires
        symbols_stored(v, file) is Some,
    ensures
        symbols_stored(v, file)->0.files == v.files,
        db::id_of(v.files, file.path@) != Some(id) || file.data is None ==> symbols_under(
            symbols_stored(v, file)->0.symbols,
            id,
        ) == symbols_under(v.symbols, id),
        db::id_of(v.files, file.path@) == Some(id) && file.data is Some ==> rows_of_analysis(
            symbols_under(symbols_stored(v, file)->0.symbols, id),
            file.data->0,
        ),
{
    if file.data is Some && db::id_of(v.files, file.path@) is Some {
        let data = file.data->0;
        let there = db::id_of(v.files, file.path@)->0;
        let rows = symbol_rows(
            types::export_views(data.analysis.exports@),
            types::symbol_views(data.analysis.symbols@),
        );
        db::law_symbols_put_in(v.symbols, there, rows, id);
        if there == id {
            let kept = symbols_under(symbols_stored(v, file)->0.symbols, id);
            assert(kept.len() == rows.len());
            assert forall|i: int| 0 <= i < kept.len() implies {
                let symbol = data.analysis.symbols@[i];
                &&& (#[trigger] kept[i]).name == symbol.name@
                &&& kept[i].is_exported == symbol.is_exported
                &&& kept[i].ref_count == symbol.reference_count as i64
                &&& kept[i].line is None
                &&& kept[i].kind == symbol_kind(
                    types::export_views(data.analysis.exports@),
                    symbol@,
                )
            } by {
                assert(types::symbol_views(data.analysis.symbols@)[i]
                    == data.analysis.symbols@[i]@);
                assert(kept[i].name == rows[i].0);
            }
        }
    }
}

/// Different paths have different numbers.
proof fn lemma_ids_differ(files: Seq<db::FileView>, a: Seq<char>, b: Seq<char>)
    requires
        db::files_wf(files),
        db::has_path(files, a),
        db::has_path(files, b),
        a != b,
    ensures
        db::id_of(files, a) != db::id_of(files, b),
{
    let i = db::at_path(files, a);
    let j = db::at_path(files, b);
    assert(0 <= i < files.len() && files[i].path == a);
    assert(0 <= j < files.len() && files[j].path == b);
    db::lemma_at_id(files, files[i].id, i);
    db::lemma_at_id(files, files[j].id, j);
}

/// Keeping some files puts in the symbols of each one's analysis.
proof fn lemma_files_keep_symbols(
    v: IndexView,
    files: Seq<ChangedFile>,
    ranks: Seq<(Seq<char>, u64)>,
    now: i64,
    k: int,
)
    requires
        db::files_wf(v.files),
        files_stored(v, files, ranks, now) is Some,
        forall|a: int, b: int|
            0 <= a < b < files.len() ==> (#[trigger] files[a]).path@ != (#[trigger] files[b]).path@,
        0 <= k < files.len(),
        files[k].data is Some,
    ensures
        db::files_wf(files_stored(v, files, ranks, now)->0.files),
        db::has_path(files_stored(v, files, ranks, now)->0.files, files[k].path@),
        rows_of_analysis(
            symbols_under(
                files_stored(v, files, ranks, now)->0.symbols,
                db::id_of(files_stored(v, files, ranks, now)->0.files, files[k].path@)->0,
            ),
            files[k].data->0,
        ),
    decreases files.len(),
{
    lemma_files_stored(v, files, ranks, now);
    let rest = files.drop_last();
    let last = files.last();
    let path = files[k].path@;
    let before = files_stored(v, rest, ranks, now)->0;
    let after = files_stored(v, files, ranks, now)->0;
    let stored = file_stored(before, last, ranks, now);
    assert(after.files == stored.files);
    assert(db::hash_of(after.files, path) == Some(files[k].hash@));
    let id = db::id_of(after.files, path)->0;
    assert(stored.symbols == before.symbols);
    lemma_symbols_stored(stored, last, id);
    if k < rest.len() {
        assert forall|a: int, b: int| 0 <= a < b < rest.len() implies (#[trigger] rest[a]).path@ != (
        #[trigger] rest[b]).path@ by {
            assert(files[a].path@ != files[b].path@);
        }
        assert(rest[k] == files[k]);
        lemma_files_keep_symbols(v, rest, ranks, now, k);
        assert(files[k].path@ != files[files.len() - 1].path@);
        lemma_file_stored(before, last, ranks, now, path);
        assert(db::hash_of(after.files, files[files.len() - 1].path@) is Some);
        lemma_ids_differ(after.files, path, last.path@);
    }
}

/// Keeping edges changes no symbol.
proof fn lemma_edges_keep_symbols(v: IndexView, files: Seq<ChangedFile>)
    requires
        all_edges_stored(v, files) is Some,
    ensures
        all_edges_stored(v, files)->0.symbols == v.symbols,
    decreases files.len(),
{
    if files.len() > 0 {
        lemma_edges_keep_symbols(v, files.drop_last());
    }
}

/// The symbols that a file was read with are the symbols that the index then keeps of it: each with
/// its name, whether it is exported, how often it is referred to, and the kind of its first export,
/// or that of a variable where it has none.
pub proof fn law_symbols_read_back(
    v: IndexView,
    files: Seq<ChangedFile>,
    ranks: Seq<(Seq<char>, u64)>,
    now: i64,
    after: IndexView,
    k: int,
)
    requires
        db::view_wf(v),
        persisted(v, files, ranks, now) == Some(after),
        db::view_wf(after),
        forall|a: int, b: int|
            0 <= a < b < files.len() ==> (#[trigger] files[a]).path@ != (#[trigger] files[b]).path@,
        0 <= k < files.len(),
        files[k].data is Some,
    ensures
        db::has_path(after.files, files[k].path@),
        ({
            let id = after.files[db::at_path(after.files, files[k].path@)].id;
            let rows = after.symbols.filter(|s: db::SymbolView| s.file_id == id);
            let analysis = files[k].data->0.analysis;
            &&& rows.len() == analysis.symbols@.len()
            &&& forall|i: int|
                0 <= i < rows.len() ==> {
                    &&& (#[trigger] rows[i]).name == analysis.symbols@[i].name@
                    &&& rows[i].is_exported == analysis.symbols@[i].is_exported
                    &&& rows[i].ref_count == analysis.symbols@[i].reference_count as i64
                    &&& rows[i].line is None
                }
            &&& forall|i: int|
                0 <= i < rows.len() && !analysis.symbols@[i].is_exported ==> (
                #[trigger] rows[i]).kind == "Variable"@
            &&& forall|i: int|
                0 <= i < rows.len() && (forall|j: int|
                    0 <= j < analysis.exports@.len() ==> (#[trigger] analysis.exports@[j]).name@
                        != analysis.symbols@[i].name@) ==> (#[trigger] rows[i]).kind == "Variable"@
            &&& forall|i: int, j: int|
                #![trigger rows[i], analysis.exports@[j]]
                0 <= i < rows.len() && analysis.symbols@[i].is_exported && 0 <= j
                    < analysis.exports@.len() && analysis.exports@[j].name@
                    == analysis.symbols@[i].name@ && (forall|h: int|
                    0 <= h < j ==> (#[trigger] analysis.exports@[h]).name@
                        != analysis.symbols@[i].name@) ==> rows[i].kind
                    == match analysis.exports@[j].kind {
                    ExportKind::Function => "Function"@,
                    ExportKind::Variable => "Variable"@,
                    ExportKind::Class => "Class"@,
                    ExportKind::Interface => "Interface"@,
                    ExportKind::TypeAlias => "TypeAlias"@,
                    ExportKind::Enum => "Enum"@,
                    ExportKind::Default => "Default"@,
                }
        }),
{
    let stored = files_stored(v, files, ranks, now)->0;
    let path = files[k].path@;
    lemma_files_keep_symbols(v, files, ranks, now, k);
    lemma_edges_keep_files(stored, files);
    lemma_edges_keep_symbols(stored, files);
    lemma_reranked_names(stored.files, ranks);
    lemma_same_names(after.files, stored.files, after.edges, path);
    let id = after.files[db::at_path(after.files, path)].id;
    let rows = after.symbols.filter(|s: db::SymbolView| s.file_id == id);
    let analysis = files[k].data->0.analysis;
    assert(rows == symbols_under(stored.symbols, id));
    let exports = types::export_views(analysis.exports@);
    assert forall|i: int| 0 <= i < rows.len() && !analysis.symbols@[i].is_exported implies (
    #[trigger] rows[i]).kind == "Variable"@ by {
    }
    assert forall|i: int|
        0 <= i < rows.len() && (forall|j: int|
            0 <= j < analysis.exports@.len() ==> (#[trigger] analysis.exports@[j]).name@
                != analysis.symbols@[i].name@) implies (#[trigger] rows[i]).kind == "Variable"@ by {
        let name = analysis.symbols@[i].name@;
        law_kind_of_export(exports, name);
        assert forall|j: int| 0 <= j < exports.len() implies (#[trigger] exports[j]).0 != name by {
            assert(analysis.exports@[j].name@ != name);
        }
    }
    assert forall|i: int, j: int|
        #![trigger rows[i], analysis.exports@[j]]
        0 <= i < rows.len() && analysis.symbols@[i].is_exported && 0 <= j < analysis.exports@.len()
            && analysis.exports@[j].name@ == analysis.symbols@[i].name@ && (forall|h: int|
            0 <= h < j ==> (#[trigger] analysis.exports@[h]).name@ != analysis.symbols@[i].name@)
        implies rows[i].kind == types::kind_name(analysis.exports@[j].kind) by {
        let name = analysis.symbols@[i].name@;
        law_kind_of_export(exports, name);
        assert(exports[j].0 == name);
        assert forall|h: int| 0 <= h < j implies (#[trigger] exports[h]).0 != name by {
            assert(analysis.exports@[h].name@ != name);
        }
        assert(rows[i].kind == symbol_kind(exports, analysis.symbols@[i]@));
    }
}

/// The symbols of a file that no changed file gives others stay while files are kept.
proof fn lemma_symbols_stay(
    v: IndexView,
    files: Seq<ChangedFile>,
    ranks: Seq<(Seq<char>, u64)>,
    now: i64,
    path: Seq<char>,
)
    requires
        db::files_wf(v.files),
        files_stored(v, files, ranks, now) is Some,
        db::has_path(v.files, path),
        forall|k: int|
            0 <= k < files.len() ==> (#[trigger] files[k]).path@ != path || files[k].data is None,
    ensures
        symbols_under(files_stored(v, files, ranks, now)->0.symbols, db::id_of(v.files, path)->0)
            == symbols_under(v.symbols, db::id_of(v.files, path)->0),
    decreases files.len(),
{
    if files.len() > 0 {
        let rest = files.drop_last();
        let last = files.last();
        assert forall|k: int| 0 <= k < rest.len() implies (#[trigger] rest[k]).path@ != path
            || rest[k].data is None by {
            assert(files[k].path@ != path || files[k].data is None);
        }
        lemma_symbols_stay(v, rest, ranks, now, path);
        lemma_ids_stay(v, rest, ranks, now, path);
        lemma_ids_stay(v, files, ranks, now, path);
        let before = files_stored(v, rest, ranks, now)->0;
        let stored = file_stored(before, last, ranks, now);
        let id = db::id_of(v.files, path)->0;
        assert(stored.symbols == before.symbols);
        lemma_symbols_stored(stored, last, id);
        assert(files[files.len() - 1].path@ != path || last.data is None);
        if last.path@ != path {
            lemma_file_stored(before, last, ranks, now, path);
            assert(db::hash_of(stored.files, last.path@) is Some);
            lemma_ids_differ(stored.files, path, last.path@);
        }
    }
}

/// The symbols that the index keeps of a file stay while other files are read anew, and where the
/// file itself could not be parsed.
pub proof fn law_other_symbols_stay(
    v: IndexView,
    files: Seq<ChangedFile>,
    ranks: Seq<(Seq<char>, u64)>,
    now: i64,
    after: IndexView,
    path: Seq<char>,
)
    requires
        db::view_wf(v),
        persisted(v, files, ranks, now) == Some(after),
        db::view_wf(after),
        db::has_path(v.files, path),
        forall|k: int|
            0 <= k < files.len() ==> (#[trigger] files[k]).path@ != path || files[k].data is None,
    ensures
        ({
            let id = v.files[db::at_path(v.files, path)].id;
            after.symbols.filter(|s: db::SymbolView| s.file_id == id) == v.symbols.filter(
                |s: db::SymbolView| s.file_id == id,
            )
        }),
{
    let stored = files_stored(v, files, ranks, now)->0;
    lemma_symbols_stay(v, files, ranks, now, path);
    lemma_edges_keep_symbols(stored, files);
    let id = db::id_of(v.files, path)->0;
    assert(symbols_under(after.symbols, id) == symbols_under(v.symbols, id));
}

/// The rows of some edges are those of the edges to files that the index holds, each with the
/// number of its target, the name of its kind, and its specifier.
pub proof fn law_edge_rows(files: Seq<db::FileView>, edges: Seq<ResolvedView>)
    ensures
        edge_rows(files, edges) == edges.filter(
            |e: ResolvedView| db::has_path(files, e.target),
        ).map_values(
            |e: ResolvedView|
                (
                    files[db::at_path(files, e.target)].id,
                    match e.kind {
                        EdgeKind::Import => "Import"@,
                        EdgeKind::ReExport => "ReExport"@,
                        EdgeKind::TypeImport => "TypeImport"@,
                    },
                    Some(e.specifier),
                ),
        ),
{
    lists::lemma_kept(
        edges,
        |e: ResolvedView| db::has_path(files, e.target),
        |e: ResolvedView|
            (
                files[db::at_path(files, e.target)].id,
                match e.kind {
                    EdgeKind::Import => "Import"@,
                    EdgeKind::ReExport => "ReExport"@,
                    EdgeKind::TypeImport => "TypeImport"@,
                },
                Some(e.specifier),
            ),
        |s: Seq<ResolvedView>| edge_rows(files, s),
    );
}

/// The edges that the index keeps of a file lead where its rows say.
pub proof fn law_links_kept(files: Seq<db::FileView>, edges: Seq<db::EdgeView>, source_id: i64)
    ensures
        kept_links(files, edges, source_id) == edges.filter(
            |e: db::EdgeView| e.source_id == source_id,
        ).map_values(
            |e: db::EdgeView|
                (
                    files[db::at_id(files, e.target_id)].path,
                    if e.edge_type == "ReExport"@ {
                        EdgeKind::ReExport
                    } else if e.edge_type == "TypeImport"@ {
                        EdgeKind::TypeImport
                    } else {
                        EdgeKind::Import
                    },
                ),
        ),
{
    lists::lemma_kept(
        edges,
        |e: db::EdgeView| e.source_id == source_id,
        |e: db::EdgeView|
            (
                files[db::at_id(files, e.target_id)].path,
                if e.edge_type == "ReExport"@ {
                    EdgeKind::ReExport
                } else if e.edge_type == "TypeImport"@ {
                    EdgeKind::TypeImport
                } else {
                    EdgeKind::Import
                },
            ),
        |s: Seq<db::EdgeView>| kept_links(files, s, source_id),
    );
}

/// The edges of a file among some.
spec fn edges_under(edges: Seq<db::EdgeView>, id: i64) -> Seq<db::EdgeView> {
    edges.filter(|e: db::EdgeView| e.source_id == id)
}

/// Whether some rows are those of the edges of a file that was read.
spec fn rows_hold_edges(
    files: Seq<db::FileView>,
    rows: Seq<db::EdgeView>,
    edges: Seq<ResolvedView>,
) -> bool {
    let known = edges.filter(|e: ResolvedView| db::has_path(files, e.target));
    rows.len() == known.len() && forall|i: int|
        0 <= i < rows.len() ==> {
            &&& (#[trigger] rows[i]).target_id == files[db::at_path(files, known[i].target)].id
            &&& rows[i].edge_type == graph::edge_kind_name(known[i].kind)
            &&& rows[i].specifier == Some(known[i].specifier)
        }
}

/// Keeping the edges of some files puts in those of each.
proof fn lemma_edge_rows_stored(v: IndexView, files: Seq<ChangedFile>, k: int)
    requires
        db::files_wf(v.files),
        all_edges_stored(v, files) is Some,
        forall|a: int, b: int|
            0 <= a < b < files.len() ==> (#[trigger] files[a]).path@ != (#[trigger] files[b]).path@,
        forall|a: int| 0 <= a < files.len() ==> db::has_path(v.files, (#[trigger] files[a]).path@),
        0 <= k < files.len(),
        files[k].data is Some,
    ensures
        rows_hold_edges(
            v.files,
            edges_under(
                all_edges_stored(v, files)->0.edges,
                db::id_of(v.files, files[k].path@)->0,
            ),
            edges_of(files[k]),
        ),
    decreases files.len(),
{
    let rest = files.drop_last();
    let last = files.last();
    let before = all_edges_stored(v, rest)->0;
    let after = all_edges_stored(v, files)->0;
    let id = db::id_of(v.files, files[k].path@)->0;
    lemma_edges_keep_files(v, rest);
    if last.data is Some {
        let there = db::id_of(v.files, last.path@)->0;
        assert(db::has_path(v.files, files[files.len() - 1].path@));
        let rows = edge_rows(v.files, edges_of(last));
        db::law_edges_put_in(before.edges, there, rows, id);
        if k == files.len() - 1 {
            law_edge_rows(v.files, edges_of(last));
            let kept = edges_under(after.edges, id);
            let known = edges_of(last).filter(
                |e: ResolvedView| db::has_path(v.files, e.target),
            );
            assert(kept.len() == known.len());
            assert forall|i: int| 0 <= i < kept.len() implies {
                &&& (#[trigger] kept[i]).target_id == v.files[db::at_path(
                    v.files,
                    known[i].target,
                )].id
                &&& kept[i].edge_type == graph::edge_kind_name(known[i].kind)
                &&& kept[i].specifier == Some(known[i].specifier)
            } by {
                assert(kept[i].target_id == rows[i].0);
            }
        }
    }
    if k < rest.len() {
        assert forall|a: int, b: int| 0 <= a < b < rest.len() implies (#[trigger] rest[a]).path@ != (
        #[trigger] rest[b]).path@ by {
            assert(files[a].path@ != files[b].path@);
        }
        assert forall|a: int| 0 <= a < rest.len() implies db::has_path(
            v.files,
            (#[trigger] rest[a]).path@,
        ) by {
            assert(db::has_path(v.files, files[a].path@));
        }
        assert(rest[k] == files[k]);
        lemma_edge_rows_stored(v, rest, k);
        assert(files[k].path@ != files[files.len() - 1].path@);
        lemma_ids_differ(v.files, files[k].path@, files[files.len() - 1].path@);
    }
}

/// The edges that the index keeps of a file that was read anew are those to files that it holds, in
/// their order: each leads to its target, and has its kind and the specifier that was written.
pub proof fn law_edge_rows_read_back(
    v: IndexView,
    files: Seq<ChangedFile>,
    ranks: Seq<(Seq<char>, u64)>,
    now: i64,
    after: IndexView,
    k: int,
)
    requires
        db::view_wf(v),
        persisted(v, files, ranks, now) == Some(after),
        db::view_wf(after),
        forall|a: int, b: int|
            0 <= a < b < files.len() ==> (#[trigger] files[a]).path@ != (#[trigger] files[b]).path@,
        0 <= k < files.len(),
        files[k].data is Some,
    ensures
        db::has_path(after.files, files[k].path@),
        ({
            let id = after.files[db::at_path(after.files, files[k].path@)].id;
            let rows = after.edges.filter(|e: db::EdgeView| e.source_id == id);
            let known = resolved_views(files[k].data->0.edges@).filter(
                |e: ResolvedView| db::has_path(after.files, e.target),
            );
            &&& rows.len() == known.len()
            &&& forall|i: int|
                0 <= i < rows.len() ==> {
                    &&& after.files[db::at_id(after.files, (#[trigger] rows[i]).target_id)].path
                        == known[i].target
                    &&& rows[i].edge_type == match known[i].kind {
                        EdgeKind::Import => "Import"@,
                        EdgeKind::ReExport => "ReExport"@,
                        EdgeKind::TypeImport => "TypeImport"@,
                    }
                    &&& rows[i].specifier == Some(known[i].specifier)
                }
        }),
{
    let stored = files_stored(v, files, ranks, now)->0;
    let path = files[k].path@;
    lemma_files_stored(v, files, ranks, now);
    lemma_edges_keep_files(stored, files);
    lemma_reranked_names(stored.files, ranks);
    assert forall|a: int| 0 <= a < files.len() implies db::has_path(
        stored.files,
        (#[trigger] files[a]).path@,
    ) by {
        assert(db::hash_of(stored.files, files[a].path@) == Some(files[a].hash@));
    }
    lemma_edge_rows_stored(stored, files, k);
    lemma_same_names(after.files, stored.files, after.edges, path);
    let edges = edges_of(files[k]);
    let here = |e: ResolvedView| db::has_path(after.files, e.target);
    let there = |e: ResolvedView| db::has_path(stored.files, e.target);
    assert forall|e: ResolvedView| #[trigger] here(e) == there(e) by {
        lemma_same_names(after.files, stored.files, after.edges, e.target);
    }
    lists::lemma_same_choice(edges, here, there);
    let id = after.files[db::at_path(after.files, path)].id;
    let rows = after.edges.filter(|e: db::EdgeView| e.source_id == id);
    let known = edges.filter(here);
    assert(rows == edges_under(after.edges, id));
    assert forall|i: int| 0 <= i < rows.len() implies after.files[db::at_id(
        after.files,
        (#[trigger] rows[i]).target_id,
    )].path == known[i].target by {
        lists::lemma_kept_items(edges, here, known[i]);
        assert(known.contains(known[i]));
        assert(here(known[i]));
        let target = known[i].target;
        lemma_same_names(after.files, stored.files, after.edges, target);
        let at = db::at_path(after.files, target);
        assert(0 <= at < after.files.len() && after.files[at].path == target);
        db::lemma_at_id(after.files, after.files[at].id, at);
        assert(rows[i].target_id == db::id_of(stored.files, target)->0);
    }
}

/// The edges of a file are those of its imports, and behind them those of its re-exports, in their
/// order: of all that lead to a file that is known, each with the specifier that was written, and
/// an import of types alone told apart from others.
pub proof fn law_file_edges(
    imports: Seq<(Seq<char>, Seq<char>, ImportKind, bool)>,
    reexports: Seq<(Seq<char>, Seq<char>, Seq<char>)>,
    import_targets: Seq<Option<Seq<char>>>,
    reexport_targets: Seq<Option<Seq<char>>>,
    root: Seq<char>,
    known: Seq<Seq<char>>,
)
    ensures
        ({
            let of_imports = Seq::new(
                imports.len(),
                |i: int| (imports[i].0, imports[i].3, import_targets[i]),
            );
            let of_reexports = Seq::new(
                reexports.len(),
                |i: int| (reexports[i].0, reexport_targets[i]),
            );
            file_edges(imports, reexports, import_targets, reexport_targets, root, known)
                == of_imports.filter(
                |e: (Seq<char>, bool, Option<Seq<char>>)|
                    e.2 is Some && known.contains(relative(e.2->0, root)),
            ).map_values(
                |e: (Seq<char>, bool, Option<Seq<char>>)|
                    ResolvedView {
                        target: relative(e.2->0, root),
                        kind: if e.1 {
                            EdgeKind::TypeImport
                        } else {
                            EdgeKind::Import
                        },
                        specifier: e.0,
                    },
            ) + of_reexports.filter(
                |e: (Seq<char>, Option<Seq<char>>)|
                    e.1 is Some && known.contains(relative(e.1->0, root)),
            ).map_values(
                |e: (Seq<char>, Option<Seq<char>>)|
                    ResolvedView {
                        target: relative(e.1->0, root),
                        kind: EdgeKind::ReExport,
                        specifier: e.0,
                    },
            )
        }),
{
    lemma_import_edges(imports, import_targets, root, known);
    lemma_reexport_edges(
        import_edges(imports, import_targets, root, known),
        reexports,
        reexport_targets,
        root,
        known,
    );
}

/// The edges of the imports of a file.
proof fn lemma_import_edges(
    imports: Seq<(Seq<char>, Seq<char>, ImportKind, bool)>,
    targets: Seq<Option<Seq<char>>>,
    root: Seq<char>,
    known: Seq<Seq<char>>,
)
    ensures
        import_edges(imports, targets, root, known) == Seq::new(
            imports.len(),
            |i: int| (imports[i].0, imports[i].3, targets[i]),
        ).filter(
            |e: (Seq<char>, bool, Option<Seq<char>>)|
                e.2 is Some && known.contains(relative(e.2->0, root)),
        ).map_values(
            |e: (Seq<char>, bool, Option<Seq<char>>)|
                ResolvedView {
                    target: relative(e.2->0, root),
                    kind: if e.1 {
                        EdgeKind::TypeImport
                    } else {
                        EdgeKind::Import
                    },
                    specifier: e.0,
                },
        ),
    decreases imports.len(),
{
    reveal(Seq::filter);
    let keep = |e: (Seq<char>, bool, Option<Seq<char>>)|
        e.2 is Some && known.contains(relative(e.2->0, root));
    let show = |e: (Seq<char>, bool, Option<Seq<char>>)|
        ResolvedView {
            target: relative(e.2->0, root),
            kind: if e.1 {
                EdgeKind::TypeImport
            } else {
                EdgeKind::Import
            },
            specifier: e.0,
        };
    let all = Seq::new(imports.len(), |i: int| (imports[i].0, imports[i].3, targets[i]));
    if imports.len() > 0 {
        let rest = imports.drop_last();
        lemma_import_edges(rest, targets, root, known);
        let short = Seq::new(rest.len(), |i: int| (rest[i].0, rest[i].3, targets[i]));
        assert(all.drop_last() =~= short);
        let before = short.filter(keep);
        assert(before.push(all.last()).map_values(show) =~= before.map_values(show).push(
            show(all.last()),
        ));
    }
    assert(import_edges(imports, targets, root, known) =~= all.filter(keep).map_values(show));
}

/// The edges of the re-exports of a file, behind others.
proof fn lemma_reexport_edges(
    edges: Seq<ResolvedView>,
    reexports: Seq<(Seq<char>, Seq<char>, Seq<char>)>,
    targets: Seq<Option<Seq<char>>>,
    root: Seq<char>,
    known: Seq<Seq<char>>,
)
    ensures
        reexport_edges(edges, reexports, targets, root, known) == edges + Seq::new(
            reexports.len(),
            |i: int| (reexports[i].0, targets[i]),
        ).filter(
            |e: (Seq<char>, Option<Seq<char>>)|
                e.1 is Some && known.contains(relative(e.1->0, root)),
        ).map_values(
            |e: (Seq<char>, Option<Seq<char>>)|
                ResolvedView {
                    target: relative(e.1->0, root),
                    kind: EdgeKind::ReExport,
                    specifier: e.0,
                },
        ),
    decreases reexports.len(),
{
    reveal(Seq::filter);
    let keep = |e: (Seq<char>, Option<Seq<char>>)|
        e.1 is Some && known.contains(relative(e.1->0, root));
    let show = |e: (Seq<char>, Option<Seq<char>>)|
        ResolvedView {
            target: relative(e.1->0, root),
            kind: EdgeKind::ReExport,
            specifier: e.0,
        };
    let all = Seq::new(reexports.len(), |i: int| (reexports[i].0, targets[i]));
    if reexports.len() > 0 {
        let rest = reexports.drop_last();
        lemma_reexport_edges(edges, rest, targets, root, known);
        let short = Seq::new(rest.len(), |i: int| (rest[i].0, targets[i]));
        assert(all.drop_last() =~= short);
        let before = short.filter(keep);
        assert(before.push(all.last()).map_values(show) =~= before.map_values(show).push(
            show(all.last()),
        ));
    }
    assert(reexport_edges(edges, reexports, targets, root, known) =~= edges + all.filter(
        keep,
    ).map_values(show));
}

/// A file that was read anew is found by its path: the last one, where two have it.
pub proof fn law_position_of(files: Seq<ChangedFile>, path: Seq<char>)
    ensures
        match position_of(files, path) {
            Some(k) => 0 <= k < files.len() && files[k].path@ == path && forall|j: int|
                k < j < files.len() ==> (#[trigger] files[j]).path@ != path,
            None => forall|j: int| 0 <= j < files.len() ==> (#[trigger] files[j]).path@ != path,
        },
    decreases files.len(),
{
    if files.len() > 0 {
        let rest = files.drop_last();
        law_position_of(rest, path);
        if files.last().path@ != path {
            assert forall|j: int|
                (position_of(rest, path) is Some ==> position_of(rest, path)->0 < j) && 0 <= j
                    < files.len() implies (#[trigger] files[j]).path@ != path by {
                if j < rest.len() {
                    assert(rest[j] == files[j]);
                }
            }
        }
    }
}

/// A path has the last rank that is given for it, or none.
pub proof fn law_rank_in(ranks: Seq<(Seq<char>, u64)>, path: Seq<char>)
    ensures
        forall|k: int|
            0 <= k < ranks.len() && (#[trigger] ranks[k]).0 == path && (forall|j: int|
                k < j < ranks.len() ==> (#[trigger] ranks[j]).0 != path) ==> rank_in(ranks, path)
                == ranks[k].1,
        !has_rank(ranks, path) ==> rank_in(ranks, path) == 0,
    decreases ranks.len(),
{
    if ranks.len() > 0 {
        let rest = ranks.drop_last();
        law_rank_in(rest, path);
        if ranks.last().0 != path {
            assert forall|k: int|
                0 <= k < ranks.len() && (#[trigger] ranks[k]).0 == path && (forall|j: int|
                    k < j < ranks.len() ==> (#[trigger] ranks[j]).0 != path) implies rank_in(
                ranks,
                path,
            ) == ranks[k].1 by {
                assert(rest[k] == ranks[k]);
                assert forall|j: int| k < j < rest.len() implies (#[trigger] rest[j]).0 != path by {
                    assert(ranks[j].0 != path);
                }
            }
            if !has_rank(ranks, path) {
                assert forall|j: int| 0 <= j < rest.len() implies (#[trigger] rest[j]).0 != path by {
                    assert(ranks[j].0 != path);
                }
                assert(!has_rank(rest, path));
            }
        } else {
            assert(ranks[ranks.len() - 1].0 == path);
            assert(has_rank(ranks, path));
        }
    }
}

/// As many files count as not parsed as have no data.
pub proof fn law_parse_errors(files: Seq<ChangedFile>)
    ensures
        parse_errors(files) == files.filter(|f: ChangedFile| f.data is None).len(),
{
    lists::lemma_count(
        files,
        |f: ChangedFile| f.data is None,
        |s: Seq<ChangedFile>| parse_errors(s),
    );
}

/// The links of a path, as edges.
spec fn links_from(path: Seq<char>, links: Seq<(Seq<char>, EdgeKind)>) -> Seq<
    (Seq<char>, Seq<char>, EdgeKind),
> {
    links.map_values(|l: (Seq<char>, EdgeKind)| (path, l.0, l.1))
}

/// Adding the links of a file adds an edge for each.
proof fn lemma_graph_links(g: GraphView, path: Seq<char>, links: Seq<(Seq<char>, EdgeKind)>)
    requires
        graph::graph_wf(g),
    ensures
        graph::graph_wf(graph_with_links(g, path, links)),
        graph::named_edges(graph_with_links(g, path, links)) == graph::named_edges(g) + links_from(
            path,
            links,
        ),
    decreases links.len(),
{
    if links.len() > 0 {
        let rest = links.drop_last();
        lemma_graph_links(g, path, rest);
        let before = graph_with_links(g, path, rest);
        graph::law_edge_added(before, path, links.last().0, links.last().1);
        assert(links_from(path, links) =~= links_from(path, rest).push(
            (path, links.last().0, links.last().1),
        ));
    }
    assert(graph::named_edges(graph_with_links(g, path, links)) =~= graph::named_edges(g)
        + links_from(path, links));
}

/// Adding files adds no edge.
proof fn lemma_graph_files(g: GraphView, paths: Seq<Seq<char>>)
    requires
        graph::graph_wf(g),
        g.edges.len() == 0,
    ensures
        graph::graph_wf(graph_with_files(g, paths)),
        graph_with_files(g, paths).edges.len() == 0,
    decreases paths.len(),
{
    if paths.len() > 0 {
        lemma_graph_files(g, paths.drop_last());
        let before = graph_with_files(g, paths.drop_last());
        let path = paths.last();
        if !before.nodes.contains(path) {
            let after = before.nodes.push(path);
            assert forall|i: int, j: int|
                0 <= i < after.len() && 0 <= j < after.len() && i != j implies after[i]
                != after[j] by {
                if i == before.nodes.len() {
                    assert(before.nodes.contains(before.nodes[j]));
                }
                if j == before.nodes.len() {
                    assert(before.nodes.contains(before.nodes[i]));
                }
            }
        }
    }
}

/// Adding the links of all files adds an edge for each.
proof fn lemma_graph_all(
    g: GraphView,
    v: IndexView,
    files: Seq<ChangedFile>,
    paths: Seq<Seq<char>>,
)
    requires
        graph::graph_wf(g),
        g.edges.len() == 0,
    ensures
        graph::graph_wf(graph_with_all(g, v, files, paths)),
        graph::named_edges(graph_with_all(g, v, files, paths)) == paths.map_values(
            |p: Seq<char>| links_from(p, links_of(v, files, p)),
        ).flatten(),
    decreases paths.len(),
{
    let part = |p: Seq<char>| links_from(p, links_of(v, files, p));
    let parts = paths.map_values(part);
    if paths.len() > 0 {
        let rest = paths.drop_last();
        lemma_graph_all(g, v, files, rest);
        let before = graph_with_all(g, v, files, rest);
        lemma_graph_links(before, paths.last(), links_of(v, files, paths.last()));
        let short = rest.map_values(part);
        short.lemma_flatten_push(part(paths.last()));
        assert(parts =~= short.push(part(paths.last())));
    } else {
        assert(parts.flatten() =~= Seq::empty());
        assert(graph::named_edges(g) =~= Seq::empty());
    }
}

/// The graph of a project has an edge for each edge of each of its files, from that file to what
/// the edge leads to, of its kind, and no others.
pub proof fn law_graph_holds_all_edges(
    v: IndexView,
    all_paths: Seq<Seq<char>>,
    files: Seq<ChangedFile>,
)
    ensures
        graph::graph_wf(project_graph(v, all_paths, files)),
        graph::named_edges(project_graph(v, all_paths, files)) == all_paths.map_values(
            |p: Seq<char>|
                links_of(v, files, p).map_values(|l: (Seq<char>, EdgeKind)| (p, l.0, l.1)),
        ).flatten(),
{
    let empty = GraphView { nodes: Seq::empty(), edges: Seq::empty() };
    lemma_graph_files(empty, all_paths);
    lemma_graph_all(graph_with_files(empty, all_paths), v, files, all_paths);
    assert(all_paths.map_values(|p: Seq<char>| links_from(p, links_of(v, files, p)))
        =~= all_paths.map_values(
        |p: Seq<char>| links_of(v, files, p).map_values(|l: (Seq<char>, EdgeKind)| (p, l.0, l.1)),
    ));
}

/// What a file leads to is what it was read with, where it was read anew, and what the index keeps
/// of it otherwise.
pub proof fn law_links_of(v: IndexView, files: Seq<ChangedFile>, path: Seq<char>, k: int)
    requires
        0 <= k < files.len(),
        files[k].path@ == path,
        forall|j: int| k < j < files.len() ==> (#[trigger] files[j]).path@ != path,
    ensures
        files[k].data is Some ==> links_of(v, files, path) == files[k].data->0.edges@.map_values(
            |e: ResolvedEdge| (e.target@, e.kind),
        ),
        files[k].data is None ==> links_of(v, files, path).len() == 0,
{
    law_position_of(files, path);
    let p = position_of(files, path)->0;
    if p < k {
        assert(files[k].path@ != path);
    } else if p > k {
        assert(files[p].path@ != path);
    }
    if files[k].data is Some {
        assert(links_of(v, files, path) =~= files[k].data->0.edges@.map_values(
            |e: ResolvedEdge| (e.target@, e.kind),
        ));
    }
}

/// A file that the index does not hold is read, and so is one whose content changed; one whose
/// content is as kept is not, unless all are; and only an incremental scan goes by times.
pub proof fn law_what_is_read(
    v: IndexView,
    path: Seq<char>,
    hash: Seq<char>,
    fs_mtime: Option<i64>,
    mode: ScanMode,
)
    ensures
        !db::has_path(v.files, path) ==> !unchanged_by_time(v, path, fs_mtime, mode)
            && !unchanged_by_hash(v, path, hash, mode),
        db::has_path(v.files, path) && v.files[db::at_path(v.files, path)].hash != hash
            ==> !unchanged_by_hash(v, path, hash, mode),
        db::has_path(v.files, path) && v.files[db::at_path(v.files, path)].hash == hash
            ==> unchanged_by_hash(v, path, hash, mode) == !mode.force,
        !mode.incremental ==> !unchanged_by_time(v, path, fs_mtime, mode),
        fs_mtime is None ==> !unchanged_by_time(v, path, fs_mtime, mode),
{
}

/// What a scan does with a file: it skips one whose content is as kept, and keeps its time where
/// the scan is incremental; it puts any other behind those to be read; and it changes nothing else.
pub proof fn law_looked_at(
    scan: ScanView,
    after: ScanView,
    v: IndexView,
    v_after: IndexView,
    file: SourceView,
    fs_mtime: Option<i64>,
    mode: ScanMode,
)
    requires
        looked_at(scan, after, v, v_after, file, fs_mtime, mode),
    ensures
        after.all_paths == scan.all_paths,
        ({
            let same = !mode.force && db::has_path(v.files, file.path) && v.files[db::at_path(
                v.files,
                file.path,
            )].hash == file.hash;
            &&& same ==> after.skipped == scan.skipped + 1 && after.changed == scan.changed
            &&& !same ==> after.skipped == scan.skipped && after.changed == scan.changed.push(file)
                && v_after == v
            &&& same && mode.incremental && fs_mtime is Some ==> v_after == db::with_mtime(
                v,
                file.path,
                fs_mtime->0,
            )
            &&& same && (!mode.incremental || fs_mtime is None) ==> v_after == v
        }),
{
}

/// A path below the root is known by what comes behind the root and a slash.
pub proof fn law_relative(root: Seq<char>, rel: Seq<char>)
    requires
        deps::is_absolute(root),
        !root.contains('\\'),
        deps::is_plain(rel),
    ensures
        relative(root + "/"@ + rel, root) == rel,
{
    deps::law_spellings_agree(root, rel);
    let path = root + "/"@ + rel;
    reveal_strlit("/");
    reveal_strlit("./");
    assert(path[0] == root[0]);
    assert(("/"@)[0] == '/');
    assert(("/"@) =~= root.take(1));
    assert(!path.contains('\\')) by {
        if path.contains('\\') {
            let i = choose|i: int| 0 <= i < path.len() && path[i] == '\\';
            if i < root.len() {
                assert(root[i] == '\\');
            } else if i > root.len() {
                assert(rel[i - root.len() - 1] == '\\');
            }
        }
    }
    assert(text::replaced(path, '\\', '/') =~= path) by {
        assert forall|i: int| 0 <= i < path.len() implies #[trigger] path[i] != '\\' by {
            assert(path.contains(path[i]));
        }
    }
    assert(("/"@) =~= path.take(1));
    if deps::below(path, root) is None {
        assert(deps::normalized(root, path) == path);
        assert(path.len() > rel.len());
    }
}

/// The index counts as ignored if and only if a line names it, with or without slashes around it.
pub proof fn law_covers_index(contents: Seq<char>)
    ensures
        covers_index(contents) == exists|i: int|
            0 <= i < text::lines(contents).len() && ({
                let line = text::trim_by(#[trigger] text::lines(contents)[i], CharClass::Space);
                line == ".codemap"@ || line == ".codemap/"@ || line == "/.codemap"@ || line
                    == "/.codemap/"@
            }),
{
    let all = text::lines(contents);
    if covers_index(contents) {
        let i = choose|i: int| 0 <= i < all.len() && line_covers_index(#[trigger] all[i]);
        assert(line_covers_index(all[i]));
    }
    if exists|i: int|
        0 <= i < all.len() && ({
            let line = text::trim_by(#[trigger] all[i], CharClass::Space);
            line == ".codemap"@ || line == ".codemap/"@ || line == "/.codemap"@ || line
                == "/.codemap/"@
        }) {
        let i = choose|i: int|
            0 <= i < all.len() && ({
                let line = text::trim_by(#[trigger] all[i], CharClass::Space);
                line == ".codemap"@ || line == ".codemap/"@ || line == "/.codemap"@ || line
                    == "/.codemap/"@
            });
        assert(line_covers_index(all[i]));
    }
}

/// What is told of a scan has the three numbers; removed files are told of where there are any, and
/// that nothing is left to do where that is so.
pub proof fn law_settled_text(changed: nat, skipped: nat, deleted: nat)
    ensures
        settled_text(changed, skipped, 0, false) == "codemap: "@ + text::decimal(changed)
            + " changed, "@ + text::decimal(skipped) + " unchanged\n"@,
        deleted > 0 ==> settled_text(changed, skipped, deleted, false) == settled_text(
            changed,
            skipped,
            0,
            false,
        ) + "codemap: removed "@ + text::decimal(deleted) + " stale files from index\n"@,
        settled_text(changed, skipped, deleted, true) == settled_text(
            changed,
            skipped,
            deleted,
            false,
        ) + "codemap: up to date (0 changes)\n"@,
{
}

/// What is told of the files that are found is how many they are, and that there are none where
/// that is so.
pub proof fn law_found_text(count: nat)
    ensures
        count > 0 ==> found_text(count) == "codemap: found "@ + text::decimal(count) + " files\n"@,
        found_text(0) == "codemap: found "@ + text::decimal(0) + " files\n"@
            + "codemap: no JS/TS files found\n"@,
{
}

}
