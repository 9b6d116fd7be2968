//! The dependency graph of a project.
use petgraph::graph::{DiGraph, NodeIndex};
use vstd::hash_map::StringHashMap;
use vstd::prelude::*;

use crate::lists;
use crate::order;
use crate::text;
use crate::order::SortKey;

verus! {

/// How one file depends on another.
#[derive(Clone, Copy, Debug, PartialEq, Eq, Structural)]
pub enum EdgeKind {
    Import,
    ReExport,
    TypeImport,
}

/// The name of an edge kind.
pub open spec fn edge_kind_name(kind: EdgeKind) -> Seq<char> {
    match kind {
        EdgeKind::Import => "Import"@,
        EdgeKind::ReExport => "ReExport"@,
        EdgeKind::TypeImport => "TypeImport"@,
    }
}

/// The edge kind with a name.
pub open spec fn edge_kind_named(name: Seq<char>) -> EdgeKind {
    if name == "ReExport"@ {
        EdgeKind::ReExport
    } else if name == "TypeImport"@ {
        EdgeKind::TypeImport
    } else {
        EdgeKind::Import
    }
}

/// An edge kind is found by its name.
pub proof fn lemma_edge_kind_named(kind: EdgeKind)
    ensures
        edge_kind_named(edge_kind_name(kind)) == kind,
{
    reveal_strlit("Import");
    reveal_strlit("ReExport");
    reveal_strlit("TypeImport");
    assert("Import"@.len() == 6 && "ReExport"@.len() == 8 && "TypeImport"@.len() == 10);
}

impl EdgeKind {
    /// The edge kind with a name, as it stands in the index.
    pub fn named(name: &str) -> (r: EdgeKind)
        ensures
            r == edge_kind_named(name@),
    {
        if text::same(name, "ReExport") {
            EdgeKind::ReExport
        } else if text::same(name, "TypeImport") {
            EdgeKind::TypeImport
        } else {
            EdgeKind::Import
        }
    }

    /// The name of the kind, as it stands in the index.
    pub fn name(&self) -> (r: String)
        ensures
            r@ == edge_kind_name(*self),
    {
        let name = match self {
            EdgeKind::Import => "Import",
            EdgeKind::ReExport => "ReExport",
            EdgeKind::TypeImport => "TypeImport",
        };
        name.to_string()
    }
}

#[verifier::external_type_specification]
#[verifier::external_body]
pub struct ExDirected(petgraph::Directed);

#[verifier::external_type_specification]
#[verifier::external_body]
#[verifier::reject_recursive_types(N)]
#[verifier::reject_recursive_types(E)]
#[verifier::reject_recursive_types(Ty)]
#[verifier::reject_recursive_types(Ix)]
pub struct ExGraph<N, E, Ty, Ix>(petgraph::Graph<N, E, Ty, Ix>);

/// The weights of the nodes of a graph, in the order of their indices.
pub uninterp spec fn node_weights(g: DiGraph<String, EdgeKind>) -> Seq<Seq<char>>;

/// The edges of a graph, in the order of their indices: source, target and weight.
pub uninterp spec fn edge_list(g: DiGraph<String, EdgeKind>) -> Seq<(int, int, EdgeKind)>;

/// `petgraph::graph::Graph::new`: a graph without nodes and edges.
#[verifier::external_body]
fn empty_graph() -> (r: DiGraph<String, EdgeKind>)
    ensures
        node_weights(r) == Seq::<Seq<char>>::empty(),
        edge_list(r) == Seq::<(int, int, EdgeKind)>::empty(),
{
    DiGraph::new()
}

/// `petgraph::graph::Graph::add_node`: appends a node and returns its index. It panics on the node
/// whose index would be the largest `u32`.
#[verifier::external_body]
fn push_node(g: &mut DiGraph<String, EdgeKind>, weight: String) -> (r: usize)
    requires
        node_weights(*old(g)).len() < u32::MAX,
    ensures
        node_weights(*final(g)) == node_weights(*old(g)).push(weight@),
        edge_list(*final(g)) == edge_list(*old(g)),
        r == node_weights(*old(g)).len(),
{
    g.add_node(weight).index()
}

/// `petgraph::graph::Graph::add_edge`: appends an edge. It panics where a node does not exist, and
/// on the edge whose index would be the largest `u32`.
#[verifier::external_body]
fn push_edge(g: &mut DiGraph<String, EdgeKind>, from: usize, to: usize, kind: EdgeKind)
    requires
        from < node_weights(*old(g)).len(),
        to < node_weights(*old(g)).len(),
        edge_list(*old(g)).len() < u32::MAX,
    ensures
        node_weights(*final(g)) == node_weights(*old(g)),
        edge_list(*final(g)) == edge_list(*old(g)).push((from as int, to as int, kind)),
{
    g.add_edge(NodeIndex::new(from), NodeIndex::new(to), kind);
}

/// `petgraph::graph::Graph::node_count`: the number of nodes.
#[verifier::external_body]
fn count_nodes(g: &DiGraph<String, EdgeKind>) -> (r: usize)
    ensures
        r == node_weights(*g).len(),
{
    g.node_count()
}

/// `petgraph::graph::Graph::edge_count`: the number of edges.
#[verifier::external_body]
fn count_edges(g: &DiGraph<String, EdgeKind>) -> (r: usize)
    ensures
        r == edge_list(*g).len(),
{
    g.edge_count()
}

/// How many of some edges lead to a node.
pub open spec fn edges_into(edges: Seq<(int, int, EdgeKind)>, node: int) -> nat
    decreases edges.len(),
{
    if edges.len() == 0 {
        0
    } else {
        edges_into(edges.drop_last(), node) + (if edges.last().1 == node {
            1nat
        } else {
            0nat
        })
    }
}

/// `petgraph::graph::Graph::edges_directed` for the incoming edges of a node: as many as lead to
/// it.
#[verifier::external_body]
fn count_incoming(g: &DiGraph<String, EdgeKind>, node: usize) -> (r: usize)
    requires
        node < node_weights(*g).len(),
    ensures
        r == edges_into(edge_list(*g), node as int),
{
    g.edges_directed(NodeIndex::new(node), petgraph::Direction::Incoming).count()
}

/// `petgraph::graph::Graph::node_weight`: the weight of a node.
#[verifier::external_body]
fn weight_of(g: &DiGraph<String, EdgeKind>, node: usize) -> (r: String)
    requires
        node < node_weights(*g).len(),
    ensures
        r@ == node_weights(*g)[node as int],
{
    g[NodeIndex::new(node)].clone()
}

/// The files of a project and the dependencies between them.
pub struct DependencyGraph {
    pub graph: DiGraph<String, EdgeKind>,
    pub path_to_node: StringHashMap<usize>,
}

/// What a dependency graph holds: the paths of its files and its edges, by position of the files.
#[verifier::ext_equal]
pub struct GraphView {
    pub nodes: Seq<Seq<char>>,
    pub edges: Seq<(int, int, EdgeKind)>,
}

impl View for DependencyGraph {
    type V = GraphView;

    closed spec fn view(&self) -> GraphView {
        GraphView { nodes: node_weights(self.graph), edges: edge_list(self.graph) }
    }
}

/// The graph with a file, which it may hold already.
pub open spec fn with_file(v: GraphView, path: Seq<char>) -> GraphView {
    if v.nodes.contains(path) {
        v
    } else {
        GraphView { nodes: v.nodes.push(path), ..v }
    }
}

/// The graph with an edge, and with its two files.
pub open spec fn with_edge(
    v: GraphView,
    from: Seq<char>,
    to: Seq<char>,
    kind: EdgeKind,
) -> GraphView {
    let both = with_file(with_file(v, from), to);
    GraphView {
        edges: both.edges.push(
            (both.nodes.index_of(from), both.nodes.index_of(to), kind),
        ),
        ..both
    }
}

/// Whether each file stands in the graph once and each edge joins two files.
pub open spec fn graph_wf(v: GraphView) -> bool {
    &&& v.nodes.no_duplicates()
    &&& forall|k: int|
        0 <= k < v.edges.len() ==> 0 <= (#[trigger] v.edges[k]).0 < v.nodes.len() && 0
            <= v.edges[k].1 < v.nodes.len()
}

/// Whether a graph has room for some content: files and edges are numbered by `u32`, and the
/// largest number stands for none.
pub open spec fn has_room(v: GraphView) -> bool {
    v.nodes.len() <= u32::MAX && v.edges.len() <= u32::MAX
}

/// What ranked files are sorted by: the larger rank first.
pub open spec fn rank_keys(scores: Seq<u64>) -> Seq<(int, Seq<char>)> {
    scores.map_values(|s: u64| (s as int, Seq::<char>::empty()))
}

/// The files with their ranks, the larger rank first.
pub open spec fn ranked(nodes: Seq<Seq<char>>, scores: Seq<u64>) -> Seq<(Seq<char>, u64)> {
    order::order_of(rank_keys(scores)).map_values(|i: int| (nodes[i], scores[i]))
}

/// A file stands where it is first found, if it stands there at all.
proof fn lemma_index(nodes: Seq<Seq<char>>, path: Seq<char>, i: int)
    requires
        nodes.no_duplicates(),
        0 <= i < nodes.len(),
        nodes[i] == path,
    ensures
        nodes.contains(path),
        nodes.index_of(path) == i,
{
    assert(nodes.contains(path));
    let j = nodes.index_of(path);
    assert(0 <= j < nodes.len() && nodes[j] == path);
}

impl DependencyGraph {
    /// Whether the graph keeps its rules: each file stands in it once, each edge joins two files,
    /// and files are found where they stand.
    pub closed spec fn wf(&self) -> bool {
        &&& graph_wf(self@)
        &&& forall|p: Seq<char>| #[trigger]
            self.path_to_node@.contains_key(p) == self@.nodes.contains(p)
        &&& forall|i: int|
            0 <= i < self@.nodes.len() ==> self.path_to_node@[#[trigger] self@.nodes[i]] == i
    }

    /// A graph that keeps its rules has each file once, and its edges join files.
    pub proof fn law_files_once(&self)
        requires
            self.wf(),
        ensures
            graph_wf(self@),
    {
    }

    /// A graph without files.
    pub fn new() -> (r: DependencyGraph)
        ensures
            r.wf(),
            r@.nodes.len() == 0,
            r@.edges.len() == 0,
    {
        DependencyGraph { graph: empty_graph(), path_to_node: StringHashMap::new() }
    }

    /// The number of files.
    pub fn node_count(&self) -> (r: usize)
        ensures
            r == self@.nodes.len(),
    {
        count_nodes(&self.graph)
    }

    /// The number of edges.
    pub fn edge_count(&self) -> (r: usize)
        ensures
            r == self@.edges.len(),
    {
        count_edges(&self.graph)
    }

    /// How many edges lead to the file at a position.
    pub fn importer_count(&self, node: usize) -> (r: usize)
        requires
            node < self@.nodes.len(),
        ensures
            r == edges_into(self@.edges, node as int),
    {
        count_incoming(&self.graph, node)
    }

    /// Adds a file, unless the graph holds it. Returns its position.
    pub fn add_file(&mut self, path: &str) -> (r: usize)
        requires
            old(self).wf(),
            with_file(old(self)@, path@).nodes.len() <= u32::MAX,
        ensures
            final(self).wf(),
            final(self)@ == with_file(old(self)@, path@),
            r < final(self)@.nodes.len(),
            final(self)@.nodes[r as int] == path@,
    {
        let ghost before = self@;
        match self.path_to_node.get(path) {
            Some(i) => {
                let i: usize = *i;
                proof {
                    assert(before.nodes.contains(path@));
                    let k = choose|k: int| 0 <= k < before.nodes.len() && before.nodes[k] == path@;
                    assert(self.path_to_node@[before.nodes[k]] == k);
                }
                i
            },
            None => {
                let i: usize = push_node(&mut self.graph, path.to_string());
                self.path_to_node.insert(path.to_string(), i);
                proof {
                    assert(self@ =~= with_file(before, path@));
                    let nodes = self@.nodes;
                    assert forall|p: Seq<char>| #[trigger]
                        self.path_to_node@.contains_key(p) == nodes.contains(p) by {
                        if before.nodes.contains(p) {
                            let k = choose|k: int|
                                0 <= k < before.nodes.len() && before.nodes[k] == p;
                            assert(nodes[k] == p);
                        }
                        assert(nodes[i as int] == path@);
                        if nodes.contains(p) && p != path@ {
                            let k = choose|k: int| 0 <= k < nodes.len() && nodes[k] == p;
                            assert(before.nodes[k] == p);
                        }
                    }
                    assert forall|k: int| 0 <= k < nodes.len() implies
                        self.path_to_node@[#[trigger] nodes[k]] == k by {
                        if k < i {
                            assert(before.nodes[k] == nodes[k]);
                            assert(before.nodes.contains(nodes[k]));
                        }
                    }
                    assert forall|a: int, b: int|
                        0 <= a < nodes.len() && 0 <= b < nodes.len() && a != b implies nodes[a]
                            != nodes[b] by {
                        if a == i {
                            assert(before.nodes.contains(before.nodes[b]));
                        } else if b == i {
                            assert(before.nodes.contains(before.nodes[a]));
                        } else {
                            assert(before.nodes[a] != before.nodes[b]);
                        }
                    }
                }
                i
            },
        }
    }

    /// Adds an edge, and the two files where the graph does not hold them.
    pub fn add_edge(&mut self, from: &str, to: &str, kind: EdgeKind)
        requires
            old(self).wf(),
            has_room(with_edge(old(self)@, from@, to@, kind)),
        ensures
            final(self).wf(),
            final(self)@ == with_edge(old(self)@, from@, to@, kind),
    {
        let ghost before = self@;
        let a: usize = self.add_file(from);
        let ghost middle = self@;
        let b: usize = self.add_file(to);
        let ghost both = self@;
        proof {
            assert(both.nodes[a as int] == from@) by {
                assert(middle.nodes[a as int] == from@);
            }
            lemma_index(both.nodes, from@, a as int);
            lemma_index(both.nodes, to@, b as int);
        }
        push_edge(&mut self.graph, a, b, kind);
        assert(self@ =~= with_edge(before, from@, to@, kind));
    }

    /// Whether there is room for a file, which the graph may hold already.
    pub fn fits_file(&self, path: &str) -> (r: bool)
        requires
            self.wf(),
        ensures
            r == (with_file(self@, path@).nodes.len() <= u32::MAX),
    {
        let count: usize = self.node_count();
        if self.path_to_node.contains_key(path) {
            count as u64 <= u32::MAX as u64
        } else {
            (count as u64) < u32::MAX as u64
        }
    }

    /// Whether there is room for an edge and its two files.
    pub fn fits_edge(&self, from: &str, to: &str, kind: EdgeKind) -> (r: bool)
        requires
            self.wf(),
        ensures
            r == has_room(with_edge(self@, from@, to@, kind)),
    {
        let edges: usize = self.edge_count();
        let mut nodes: u128 = self.node_count() as u128;
        let ghost one = with_file(self@, from@);
        if !self.path_to_node.contains_key(from) {
            nodes += 1;
            assert(one.nodes[self@.nodes.len() as int] == from@);
        }
        if !text::same(from, to) && !self.path_to_node.contains_key(to) {
            nodes += 1;
            proof {
                if one.nodes.contains(to@) {
                    let k = choose|k: int| 0 <= k < one.nodes.len() && one.nodes[k] == to@;
                    assert(self@.nodes[k] == to@);
                }
            }
        } else {
            proof {
                if self@.nodes.contains(to@) {
                    let k = choose|k: int| 0 <= k < self@.nodes.len() && self@.nodes[k] == to@;
                    assert(one.nodes[k] == to@);
                }
                assert(one.nodes.contains(to@));
            }
        }
        nodes <= u32::MAX as u128 && (edges as u64) < u32::MAX as u64
    }

    /// The files with their ranks, given by position, the larger rank first.
    pub fn rank_files(&self, scores: &Vec<u64>) -> (r: Vec<(String, u64)>)
        requires
            scores@.len() == self@.nodes.len(),
        ensures
            r@.map_values(|p: (String, u64)| (p.0@, p.1)) == ranked(self@.nodes, scores@),
    {
        let mut keys: Vec<SortKey> = Vec::new();
        for i in 0..scores.len()
            invariant
                order::key_views(keys@) == rank_keys(scores@.take(i as int)),
        {
            let ghost before = order::key_views(keys@);
            let key = SortKey { weight: scores[i] as i128, name: String::new() };
            let ghost shown = key@;
            keys.push(key);
            proof {
                assert(shown.1 =~= Seq::<char>::empty());
                assert(order::key_views(keys@) =~= before.push(shown));
                assert(rank_keys(scores@.take(i + 1)) =~= before.push(shown));
            }
        }
        assert(scores@.take(scores@.len() as int) =~= scores@);
        let sorted = order::sort(&keys);
        let ghost positions = order::positions(sorted@);
        let ghost nodes = self@.nodes;
        let ghost show = |i: int| (nodes[i], scores@[i]);
        let ghost plain = |p: (String, u64)| (p.0@, p.1);
        let mut out: Vec<(String, u64)> = Vec::new();
        for k in 0..sorted.len()
            invariant
                nodes == self@.nodes,
                scores@.len() == nodes.len(),
                positions == order::positions(sorted@),
                order::is_order(rank_keys(scores@), positions),
                show == (|i: int| (nodes[i], scores@[i])),
                plain == (|p: (String, u64)| (p.0@, p.1)),
                out@.map_values(plain) == positions.take(k as int).map_values(show),
        {
            let ghost before = out@.map_values(plain);
            assert(0 <= positions[k as int] < nodes.len());
            let i: usize = sorted[k];
            let row = (weight_of(&self.graph, i), scores[i]);
            let ghost shown = plain(row);
            out.push(row);
            proof {
                assert(shown == show(positions[k as int]));
                assert(out@.map_values(plain) =~= before.push(shown));
                assert(positions.take(k + 1).map_values(show) =~= before.push(shown));
            }
        }
        assert(positions.take(positions.len() as int) =~= positions);
        out
    }
}

impl Default for DependencyGraph {
    /// A graph without files.
    fn default() -> (r: DependencyGraph)
        ensures
            r.wf(),
            r@.nodes.len() == 0,
            r@.edges.len() == 0,
    {
        DependencyGraph::new()
    }
}

/// Adding a file twice is the same as adding it once.
pub proof fn law_add_file_idempotent(v: GraphView, path: Seq<char>)
    ensures
        with_file(with_file(v, path), path) == with_file(v, path),
{
    let once = with_file(v, path);
    if !v.nodes.contains(path) {
        assert(once.nodes[v.nodes.len() as int] == path);
    }
}

/// An edge brings its two files and nothing else: the files that were there keep their positions,
/// and so do the edges.
pub proof fn law_add_edge(v: GraphView, from: Seq<char>, to: Seq<char>, kind: EdgeKind)
    requires
        graph_wf(v),
    ensures
        graph_wf(with_edge(v, from, to, kind)),
        with_edge(v, from, to, kind).nodes.contains(from),
        with_edge(v, from, to, kind).nodes.contains(to),
        v.nodes.is_prefix_of(with_edge(v, from, to, kind).nodes),
        v.edges.is_prefix_of(with_edge(v, from, to, kind).edges),
        with_edge(v, from, to, kind).edges.len() == v.edges.len() + 1,
        with_edge(v, from, to, kind).nodes.len() <= v.nodes.len() + 2,
{
    let one = with_file(v, from);
    let both = with_file(one, to);
    let after = with_edge(v, from, to, kind);
    lemma_with_file(v, from);
    lemma_with_file(one, to);
    assert(v.nodes =~= both.nodes.take(v.nodes.len() as int)) by {
        assert(v.nodes =~= one.nodes.take(v.nodes.len() as int));
        assert(one.nodes =~= both.nodes.take(one.nodes.len() as int));
    }
    assert(v.edges =~= after.edges.take(v.edges.len() as int));
    let k = choose|k: int| 0 <= k < one.nodes.len() && one.nodes[k] == from;
    assert(both.nodes[k] == from);
    lemma_index(both.nodes, from, k);
    let l = choose|l: int| 0 <= l < both.nodes.len() && both.nodes[l] == to;
    lemma_index(both.nodes, to, l);
    assert forall|e: int| 0 <= e < after.edges.len() implies 0 <= (#[trigger] after.edges[e]).0
        < after.nodes.len() && 0 <= after.edges[e].1 < after.nodes.len() by {
        if e < v.edges.len() {
            assert(after.edges[e] == v.edges[e]);
        }
    }
}

/// Adding a file keeps what was there.
proof fn lemma_with_file(v: GraphView, path: Seq<char>)
    requires
        graph_wf(v),
    ensures
        graph_wf(with_file(v, path)),
        with_file(v, path).nodes.contains(path),
        v.nodes.is_prefix_of(with_file(v, path).nodes),
        with_file(v, path).edges == v.edges,
{
    let after = with_file(v, path);
    if !v.nodes.contains(path) {
        assert(after.nodes[v.nodes.len() as int] == path);
        assert(v.nodes =~= after.nodes.take(v.nodes.len() as int));
        assert forall|a: int, b: int|
            0 <= a < after.nodes.len() && 0 <= b < after.nodes.len() && a != b implies after.nodes[a]
                != after.nodes[b] by {
            if a == v.nodes.len() {
                assert(v.nodes.contains(v.nodes[b]));
            } else if b == v.nodes.len() {
                assert(v.nodes.contains(v.nodes[a]));
            }
        }
        assert forall|e: int| 0 <= e < after.edges.len() implies 0 <= (#[trigger] after.edges[e]).0
            < after.nodes.len() && 0 <= after.edges[e].1 < after.nodes.len() by {
            assert(after.edges[e] == v.edges[e]);
        }
    }
}

/// As many edges lead to a file as have it for their target.
pub proof fn law_edges_into(edges: Seq<(int, int, EdgeKind)>, node: int)
    ensures
        edges_into(edges, node) == edges.filter(|e: (int, int, EdgeKind)| e.1 == node).len(),
{
    lists::lemma_count(
        edges,
        |e: (int, int, EdgeKind)| e.1 == node,
        |s: Seq<(int, int, EdgeKind)>| edges_into(s, node),
    );
}

/// The edges of a graph by the paths of the files that they join.
pub open spec fn named_edges(v: GraphView) -> Seq<(Seq<char>, Seq<char>, EdgeKind)> {
    v.edges.map_values(|e: (int, int, EdgeKind)| (v.nodes[e.0], v.nodes[e.1], e.2))
}

/// Adding an edge adds one from the one file to the other, of its kind, behind those that are
/// there.
pub proof fn law_edge_added(v: GraphView, from: Seq<char>, to: Seq<char>, kind: EdgeKind)
    requires
        graph_wf(v),
    ensures
        graph_wf(with_edge(v, from, to, kind)),
        named_edges(with_edge(v, from, to, kind)) == named_edges(v).push((from, to, kind)),
{
    law_add_edge(v, from, to, kind);
    let after = with_edge(v, from, to, kind);
    let i = after.nodes.index_of(from);
    let j = after.nodes.index_of(to);
    assert(0 <= i < after.nodes.len() && after.nodes[i] == from);
    assert(0 <= j < after.nodes.len() && after.nodes[j] == to);
    assert(after.edges.last() == (i, j, kind));
    assert forall|k: int| 0 <= k < v.edges.len() implies #[trigger] named_edges(after)[k]
        == named_edges(v)[k] by {
        let (a, b) = (v.edges[k].0, v.edges[k].1);
        assert(after.edges.subrange(0, v.edges.len() as int)[k] == v.edges[k]);
        assert(after.nodes.subrange(0, v.nodes.len() as int)[a] == v.nodes[a]);
        assert(after.nodes.subrange(0, v.nodes.len() as int)[b] == v.nodes[b]);
    }
    assert(named_edges(after) =~= named_edges(v).push((from, to, kind)));
}

/// Every file is ranked once, with its own score, the larger score first.
pub proof fn law_ranked(nodes: Seq<Seq<char>>, scores: Seq<u64>)
    requires
        nodes.len() == scores.len(),
    ensures
        ranked(nodes, scores).len() == nodes.len(),
        forall|a: int, b: int|
            0 <= a < b < nodes.len() ==> (#[trigger] ranked(nodes, scores)[a]).1 >= (
            #[trigger] ranked(nodes, scores)[b]).1,
        forall|i: int|
            0 <= i < nodes.len() ==> ranked(nodes, scores).contains(
                (#[trigger] nodes[i], scores[i]),
            ),
        nodes.no_duplicates() ==> forall|a: int, b: int|
            0 <= a < b < nodes.len() ==> (#[trigger] ranked(nodes, scores)[a]).0 != (
            #[trigger] ranked(nodes, scores)[b]).0,
{
    let keys = rank_keys(scores);
    order::law_sorted(keys);
    let order = order::order_of(keys);
    let r = ranked(nodes, scores);
    assert forall|a: int, b: int| 0 <= a < b < nodes.len() implies (#[trigger] r[a]).1 >= (
    #[trigger] r[b]).1 by {
        assert(keys[order[a]].0 >= keys[order[b]].0);
    }
    assert forall|i: int| 0 <= i < nodes.len() implies r.contains(
        (#[trigger] nodes[i], scores[i]),
    ) by {
        assert(order.contains(i));
        let k = choose|k: int| 0 <= k < order.len() && order[k] == i;
        assert(r[k] == (nodes[i], scores[i]));
    }
    if nodes.no_duplicates() {
        assert forall|a: int, b: int| 0 <= a < b < nodes.len() implies (#[trigger] r[a]).0 != (
        #[trigger] r[b]).0 by {
            assert(order[a] != order[b]);
        }
    }
}

}
