//! The dependency-graph builder: worklist traversal of the resolved
//! dependency tree under the inclusion policy, producing a deduplicated,
//! edge-labelled graph held in an outside graph store.

use vstd::prelude::*;
use std::str::FromStr;
use petgraph::visit::EdgeRef;
use crate::extra_deps::ExtraDeps;
use crate::ident::{Dependency, DependencyKind, Package, PackageId};
use crate::metadata::{
    clone_dependency, clone_id, dep_matches_package, dep_targets, has_key, lookup_package,
    Metadata,
};

verus! {

/// The graph store: a directed multigraph of an outside graph library,
/// opaque here, read and grown only through the trusted operations below.
#[verifier::external_body]
pub struct GraphStore {
    inner: petgraph::graph::Graph<PackageId, DependencyKind, petgraph::Directed, usize>,
}

/// The node weights the graph store holds, in insertion order.
pub uninterp spec fn pg_node_seq(g: GraphStore) -> Seq<PackageId>;

/// The edges the graph store holds, in insertion order: source node index,
/// target node index, and the label.
pub uninterp spec fn pg_edge_seq(g: GraphStore) -> Seq<(usize, usize, DependencyKind)>;

/// Relies on petgraph's `Graph::with_capacity`: a graph with no nodes and no
/// edges.
#[verifier::external_body]
fn pg_new() -> (g: GraphStore)
    ensures
        pg_node_seq(g) == Seq::<PackageId>::empty(),
        pg_edge_seq(g) == Seq::<(usize, usize, DependencyKind)>::empty(),
{
    GraphStore { inner: petgraph::graph::Graph::with_capacity(0, 0) }
}

/// Relies on petgraph's `Graph::add_node`: it appends one node and returns
/// its index, the node count before the call; with `usize` indices it cannot
/// reach its index limit.
#[verifier::external_body]
fn pg_add_node(g: &mut GraphStore, id: PackageId) -> (ix: usize)
    ensures
        pg_node_seq(*final(g)) == pg_node_seq(*old(g)).push(id),
        pg_edge_seq(*final(g)) == pg_edge_seq(*old(g)),
        ix == pg_node_seq(*old(g)).len(),
{
    g.inner.add_node(id).index()
}

/// Relies on petgraph's `Graph::add_edge`: it appends one edge between two
/// existing nodes; with `usize` indices it cannot reach its index limit, and
/// it panics on an out-of-bounds node index, which the precondition rules
/// out.
#[verifier::external_body]
fn pg_add_edge(g: &mut GraphStore, a: usize, b: usize, kind: DependencyKind)
    requires
        a < pg_node_seq(*old(g)).len(),
        b < pg_node_seq(*old(g)).len(),
    ensures
        pg_node_seq(*final(g)) == pg_node_seq(*old(g)),
        pg_edge_seq(*final(g)) == pg_edge_seq(*old(g)).push((a, b, kind)),
{
    g.inner.add_edge(petgraph::graph::NodeIndex::new(a), petgraph::graph::NodeIndex::new(b), kind);
}

/// Relies on petgraph's `Graph::edge_references`: every edge with its
/// endpoint indices and label, in insertion order.
#[verifier::external_body]
pub fn pg_edges(g: &GraphStore) -> (v: Vec<(usize, usize, DependencyKind)>)
    ensures
        v@ == pg_edge_seq(*g),
{
    g.inner.edge_references().map(
        |e| (e.source().index(), e.target().index(), *e.weight()),
    ).collect()
}

/// Whether the platform constraint expression admits the given target triple
/// under the given compiler configuration values. Admission is decided by an
/// outside platform library; this name stands for its verdict, a function of
/// the three arguments alone.
pub uninterp spec fn platform_matched(
    expr: Seq<char>,
    target: Seq<char>,
    cfgs: Seq<Seq<char>>,
) -> bool;

/// Relies on cargo_platform's `Platform::from_str`, `Cfg::from_str` and
/// `Platform::matches`: all functions of their arguments alone. An
/// expression or configuration entry that does not parse admits nothing.
#[verifier::external_body]
fn platform_allows(expr: &str, target: &str, cfgs: &Vec<String>) -> (r: bool)
    ensures
        r == platform_matched(expr@, target@, cfgs.deep_view()),
{
    let platform = match cargo_platform::Platform::from_str(expr) {
        Ok(p) => p,
        Err(_) => return false,
    };
    let mut parsed = Vec::new();
    for c in cfgs.iter() {
        match cargo_platform::Cfg::from_str(c) {
            Ok(pc) => parsed.push(pc),
            Err(_) => return false,
        }
    }
    platform.matches(target, &parsed)
}

/// Representation of the package dependency graph: the stored graph, and the
/// node map that is the single source of truth for "already visited". The
/// package at position `i` of `nodes` is the weight of the stored node with
/// index `i`.
pub struct Graph {
    pub graph: GraphStore,
    pub nodes: Vec<PackageId>,
}

/// Whether a node list holds at most one node per identity.
pub open spec fn nodes_distinct(nodes: Seq<PackageId>) -> bool {
    forall|i: int, j: int| 0 <= i < j < nodes.len() ==> nodes[i].repr@ != nodes[j].repr@
}

impl Graph {
    /// Well-formedness: the node map mirrors the stored graph's node
    /// weights, each identity has exactly one node, and every stored edge
    /// joins existing nodes.
    pub open spec fn wf(self) -> bool {
        &&& pg_node_seq(self.graph) == self.nodes@
        &&& nodes_distinct(self.nodes@)
        &&& forall|k: int|
            0 <= k < pg_edge_seq(self.graph).len() ==> (#[trigger] pg_edge_seq(self.graph)[k]).0
                < self.nodes@.len() && pg_edge_seq(self.graph)[k].1 < self.nodes@.len()
    }
}

/// What the graph builder was configured with: the target selection (`None`
/// admits every platform-constrained dependency), the host compiler's
/// configuration values (`None` when they could not be obtained), and the
/// dependency-kind policy.
pub struct GraphConfiguration {
    pub target: Option<String>,
    pub cfgs: Option<Vec<String>>,
    pub extra_deps: ExtraDeps,
}

/// The platform axis of the inclusion policy. A dependency without a
/// constraint is always admitted; with the target selection absent (the
/// all-targets mode) every constrained dependency is admitted; otherwise the
/// constraint must evaluate true against the selected triple and the
/// compiler configuration values, which must be available.
pub open spec fn target_admitted(cfg: GraphConfiguration, d: Dependency) -> bool {
    match d.target {
        None => true,
        Some(expr) => match cfg.target {
            None => true,
            Some(t) => match cfg.cfgs {
                None => false,
                Some(cfgs) => platform_matched(expr@, t@, cfgs.deep_view()),
            },
        },
    }
}

/// Decide the platform axis for one declared dependency.
fn dependency_target_allowed(cfg: &GraphConfiguration, d: &Dependency) -> (r: bool)
    ensures
        r == target_admitted(*cfg, *d),
{
    match &d.target {
        None => true,
        Some(expr) => match &cfg.target {
            None => true,
            Some(t) => match &cfg.cfgs {
                None => false,
                Some(cfgs) => platform_allows(expr.as_str(), t.as_str(), cfgs),
            },
        },
    }
}

/// Final admission of one declared dependency against one resolved candidate
/// identity: the dependency reconciles with the candidate's catalog record
/// (an unresolvable candidate reconciles with nothing), its kind passes the
/// policy mode, and its platform constraint passes the platform axis.
pub open spec fn dep_admitted(
    metadata: Metadata,
    cfg: GraphConfiguration,
    key: Seq<char>,
    d: Dependency,
) -> bool {
    &&& match lookup_package(metadata.packages@, key) {
        Some(c) => dep_matches_package(d, c),
        None => false,
    }
    &&& cfg.extra_deps.spec_allows(d.kind)
    &&& target_admitted(cfg, d)
}

/// The admitted declarations among the first `i`, in declaration order.
pub open spec fn admitted_deps_upto(
    metadata: Metadata,
    cfg: GraphConfiguration,
    key: Seq<char>,
    deps: Seq<Dependency>,
    i: int,
) -> Seq<Dependency>
    decreases i,
{
    if i <= 0 {
        Seq::empty()
    } else {
        let prev = admitted_deps_upto(metadata, cfg, key, deps, i - 1);
        if dep_admitted(metadata, cfg, key, deps[i - 1]) {
            prev.push(deps[i - 1])
        } else {
            prev
        }
    }
}

/// The admitted declarations of a whole declaration list, in declaration
/// order.
pub open spec fn admitted_deps(
    metadata: Metadata,
    cfg: GraphConfiguration,
    key: Seq<char>,
    deps: Seq<Dependency>,
) -> Seq<Dependency> {
    admitted_deps_upto(metadata, cfg, key, deps, deps.len() as int)
}

/// The declared dependencies of `package` that reconcile with the candidate
/// identity and pass both axes of the inclusion policy.
pub fn filter_dependencies(
    metadata: &Metadata,
    dependency_package_id: &PackageId,
    graph_configuration: &GraphConfiguration,
    package: &Package,
) -> (r: Vec<Dependency>)
    ensures
        r@ == admitted_deps(
            *metadata,
            *graph_configuration,
            dependency_package_id.repr@,
            package.dependencies@,
        ),
{
    let deps = &package.dependencies;
    let n = deps.len();
    let mut out: Vec<Dependency> = Vec::new();
    let mut i: usize = 0;
    while i < n
        invariant
            i <= n,
            n == deps@.len(),
            deps == &package.dependencies,
            out@ == admitted_deps_upto(
                *metadata,
                *graph_configuration,
                dependency_package_id.repr@,
                deps@,
                i as int,
            ),
        decreases n - i,
    {
        let d = &deps[i];
        let matched = match d.matches_ignoring_source(metadata, dependency_package_id) {
            Some(b) => b,
            None => false,
        };
        if matched && graph_configuration.extra_deps.allows(d.kind) && dependency_target_allowed(
            graph_configuration,
            d,
        ) {
            out.push(clone_dependency(d));
        }
        i += 1;
    }
    out
}

/// The position of the node that holds the given identity, if one exists.
fn find_node_index(nodes: &Vec<PackageId>, id: &PackageId) -> (r: Option<usize>)
    ensures
        match r {
            Some(i) => i < nodes@.len() && nodes@[i as int].repr@ == id.repr@,
            None => !has_key(nodes@, id.repr@),
        },
{
    let n = nodes.len();
    let mut i: usize = 0;
    while i < n
        invariant
            i <= n,
            n == nodes@.len(),
            forall|j: int| 0 <= j < i ==> nodes@[j].repr@ != id.repr@,
        decreases n - i,
    {
        if nodes[i].repr == id.repr {
            return Some(i);
        }
        i += 1;
    }
    None
}

/// Ensure a node exists for the resolved identity — inserting it and queuing
/// it for later expansion only on first sight — and add one labelled edge to
/// it from the node at `index`.
pub fn add_graph_node_if_not_present_and_edge(
    dependency: &Dependency,
    dependency_package_id: PackageId,
    graph: &mut Graph,
    index: usize,
    pending_packages: &mut Vec<PackageId>,
)
    requires
        old(graph).wf(),
        index < old(graph).nodes@.len(),
    ensures
        final(graph).wf(),
        ({
            if has_key(old(graph).nodes@, dependency_package_id.repr@) {
                &&& final(graph).nodes@ == old(graph).nodes@
                &&& final(pending_packages)@ == old(pending_packages)@
            } else {
                &&& final(graph).nodes@ == old(graph).nodes@.push(dependency_package_id)
                &&& final(pending_packages)@ == old(pending_packages)@.push(
                    dependency_package_id,
                )
            }
        }),
        ({
            let edges_old = pg_edge_seq(old(graph).graph);
            let edges_new = pg_edge_seq(final(graph).graph);
            &&& edges_new.len() == edges_old.len() + 1
            &&& edges_new.drop_last() == edges_old
            &&& edges_new.last().0 == index
            &&& edges_new.last().2 == dependency.kind
            &&& edges_new.last().1 < final(graph).nodes@.len()
            &&& final(graph).nodes@[edges_new.last().1 as int].repr@
                == dependency_package_id.repr@
        }),
{
    let dependency_index = match find_node_index(&graph.nodes, &dependency_package_id) {
        Some(i) => i,
        None => {
            pending_packages.push(clone_id(&dependency_package_id));
            let ix = pg_add_node(&mut graph.graph, clone_id(&dependency_package_id));
            graph.nodes.push(dependency_package_id);
            ix
        },
    };
    pg_add_edge(&mut graph.graph, index, dependency_index, dependency.kind);
    proof {
        assert(pg_edge_seq(graph.graph).drop_last() =~= pg_edge_seq(old(graph).graph));
    }
}

/// Whether some catalog package carries this identity representation.
pub open spec fn key_in_catalog(packages: Seq<Package>, k: Seq<char>) -> bool {
    exists|i: int| 0 <= i < packages.len() && (#[trigger] packages[i]).id.repr@ == k
}

/// One admitted expansion step: `b` is one of `a`'s not-replaced dependency
/// identities, and at least one declaration reconciling with `b` passes the
/// inclusion policy.
pub open spec fn admitted_step(
    metadata: Metadata,
    cfg: GraphConfiguration,
    a: Seq<char>,
    b: Seq<char>,
) -> bool {
    match lookup_package(metadata.packages@, a) {
        Some(p) => exists|t: int|
            0 <= t < dep_targets(metadata.packages@, p.dependencies@).len() && (#[trigger] dep_targets(
                metadata.packages@,
                p.dependencies@,
            )[t]).repr@ == b && admitted_deps(metadata, cfg, b, p.dependencies@).len() > 0,
        None => false,
    }
}

/// Whether consecutive entries of `p` are admitted expansion steps.
pub open spec fn admitted_path(metadata: Metadata, cfg: GraphConfiguration, p: Seq<Seq<char>>) -> bool {
    forall|i: int| 0 <= i < p.len() - 1 ==> admitted_step(metadata, cfg, #[trigger] p[i], p[i + 1])
}

/// Whether `key` can be reached from `root` by admitted expansion steps.
pub open spec fn reachable(
    metadata: Metadata,
    cfg: GraphConfiguration,
    root: Seq<char>,
    key: Seq<char>,
) -> bool {
    exists|p: Seq<Seq<char>>|
        #![auto]
        p.len() >= 1 && p[0] == root && p.last() == key && admitted_path(metadata, cfg, p)
}

/// Whether every admitted successor of `a` already has a node.
pub open spec fn node_closed(
    metadata: Metadata,
    cfg: GraphConfiguration,
    nodes: Seq<PackageId>,
    a: Seq<char>,
) -> bool {
    forall|b: Seq<char>| #[trigger] admitted_step(metadata, cfg, a, b) ==> has_key(nodes, b)
}

/// Whether the node set is closed under admitted expansion steps.
pub open spec fn graph_closed(metadata: Metadata, cfg: GraphConfiguration, nodes: Seq<PackageId>) -> bool {
    forall|i: int|
        0 <= i < nodes.len() ==> node_closed(metadata, cfg, nodes, (#[trigger] nodes[i]).repr@)
}

/// Soundness of one stored edge: both endpoints exist, the target is one of
/// the source's not-replaced dependency identities, and some admitted
/// declaration against the target carries the edge's label.
pub open spec fn edge_ok(
    metadata: Metadata,
    cfg: GraphConfiguration,
    nodes: Seq<PackageId>,
    e: (usize, usize, DependencyKind),
) -> bool {
    &&& (e.0 as int) < nodes.len()
    &&& (e.1 as int) < nodes.len()
    &&& match lookup_package(metadata.packages@, nodes[e.0 as int].repr@) {
        Some(p) => exists|t: int, u: int|
            0 <= t < dep_targets(metadata.packages@, p.dependencies@).len() && dep_targets(
                metadata.packages@,
                p.dependencies@,
            )[t].repr@ == nodes[e.1 as int].repr@ && 0 <= u && u < admitted_deps(
                metadata,
                cfg,
                dep_targets(metadata.packages@, p.dependencies@)[t].repr@,
                p.dependencies@,
            ).len() && (#[trigger] admitted_deps(
                metadata,
                cfg,
                dep_targets(metadata.packages@, p.dependencies@)[t].repr@,
                p.dependencies@,
            )[u]).kind == e.2,
        None => false,
    }
}

/// Whether an edge with these endpoint identities and this label is stored.
pub open spec fn edge_present(
    nodes: Seq<PackageId>,
    edges: Seq<(usize, usize, DependencyKind)>,
    a: Seq<char>,
    b: Seq<char>,
    kind: DependencyKind,
) -> bool {
    exists|k: int|
        0 <= k < edges.len() && ((#[trigger] edges[k]).0 as int) < nodes.len() && (edges[k].1 as int)
            < nodes.len() && nodes[edges[k].0 as int].repr@ == a && nodes[edges[k].1 as int].repr@
            == b && edges[k].2 == kind
}

/// Whether every admitted declaration of `a`'s catalog record has its edge:
/// for each not-replaced dependency identity of `a` and each admitted
/// declaration against it, an edge from `a` to that identity with the
/// declaration's kind is stored.
pub open spec fn node_edges_complete(
    metadata: Metadata,
    cfg: GraphConfiguration,
    nodes: Seq<PackageId>,
    edges: Seq<(usize, usize, DependencyKind)>,
    a: Seq<char>,
) -> bool {
    match lookup_package(metadata.packages@, a) {
        Some(p) => forall|t: int, u: int|
            0 <= t < dep_targets(metadata.packages@, p.dependencies@).len() && 0 <= u && u
                < admitted_deps(
                metadata,
                cfg,
                dep_targets(metadata.packages@, p.dependencies@)[t].repr@,
                p.dependencies@,
            ).len() ==> edge_present(
                nodes,
                edges,
                a,
                dep_targets(metadata.packages@, p.dependencies@)[t].repr@,
                (#[trigger] admitted_deps(
                    metadata,
                    cfg,
                    dep_targets(metadata.packages@, p.dependencies@)[t].repr@,
                    p.dependencies@,
                )[u]).kind,
            ),
        None => true,
    }
}

/// Whether one stored edge joins the node holding identity `a` to the node
/// holding identity `b` under the label `kind`.
pub open spec fn edge_matches(
    nodes: Seq<PackageId>,
    e: (usize, usize, DependencyKind),
    a: Seq<char>,
    b: Seq<char>,
    kind: DependencyKind,
) -> bool {
    &&& (e.0 as int) < nodes.len()
    &&& (e.1 as int) < nodes.len()
    &&& nodes[e.0 as int].repr@ == a
    &&& nodes[e.1 as int].repr@ == b
    &&& e.2 == kind
}

/// How many of the first `n` stored edges join `a` to `b` under `kind`.
pub open spec fn edge_count_upto(
    nodes: Seq<PackageId>,
    edges: Seq<(usize, usize, DependencyKind)>,
    a: Seq<char>,
    b: Seq<char>,
    kind: DependencyKind,
    n: int,
) -> nat
    decreases n,
{
    if n <= 0 {
        0
    } else {
        edge_count_upto(nodes, edges, a, b, kind, n - 1) + (if edge_matches(
            nodes,
            edges[n - 1],
            a,
            b,
            kind,
        ) {
            1nat
        } else {
            0nat
        })
    }
}

/// How many stored edges join `a` to `b` under `kind`. The family of these
/// counts, over all identity pairs and labels, is the graph's labelled-edge
/// multiset.
pub open spec fn edge_count(
    nodes: Seq<PackageId>,
    edges: Seq<(usize, usize, DependencyKind)>,
    a: Seq<char>,
    b: Seq<char>,
    kind: DependencyKind,
) -> nat {
    edge_count_upto(nodes, edges, a, b, kind, edges.len() as int)
}

/// How many of the first `u` declarations carry this kind.
pub open spec fn count_kind_upto(deps: Seq<Dependency>, kind: DependencyKind, u: int) -> nat
    decreases u,
{
    if u <= 0 {
        0
    } else {
        count_kind_upto(deps, kind, u - 1) + (if deps[u - 1].kind == kind {
            1nat
        } else {
            0nat
        })
    }
}

/// How many declarations of the list carry this kind.
pub open spec fn count_kind(deps: Seq<Dependency>, kind: DependencyKind) -> nat {
    count_kind_upto(deps, kind, deps.len() as int)
}

/// How many edges one expansion of `a` owes to the pair (`b`, `kind`): one
/// per admitted declaration of that kind when `b` is one of `a`'s
/// not-replaced dependency identities, none otherwise.
pub open spec fn spec_out_count(
    metadata: Metadata,
    cfg: GraphConfiguration,
    a: Seq<char>,
    b: Seq<char>,
    kind: DependencyKind,
) -> nat {
    match lookup_package(metadata.packages@, a) {
        Some(p) => if has_key(dep_targets(metadata.packages@, p.dependencies@), b) {
            count_kind(admitted_deps(metadata, cfg, b, p.dependencies@), kind)
        } else {
            0
        },
        None => 0,
    }
}

/// The labelled-edge multiset a finished graph owes: `spec_out_count` for
/// every source identity that has a node, nothing for any other.
pub open spec fn spec_edge_count(
    metadata: Metadata,
    cfg: GraphConfiguration,
    nodes: Seq<PackageId>,
    a: Seq<char>,
    b: Seq<char>,
    kind: DependencyKind,
) -> nat {
    if has_key(nodes, a) {
        spec_out_count(metadata, cfg, a, b, kind)
    } else {
        0
    }
}

/// The edges owed to (`b`, `kind`) by the first `t` dependency targets.
pub open spec fn block_count_upto(
    metadata: Metadata,
    cfg: GraphConfiguration,
    targets: Seq<PackageId>,
    deps: Seq<Dependency>,
    b: Seq<char>,
    kind: DependencyKind,
    t: int,
) -> nat
    decreases t,
{
    if t <= 0 {
        0
    } else {
        block_count_upto(metadata, cfg, targets, deps, b, kind, t - 1) + (if targets[t
            - 1].repr@ == b {
            count_kind(admitted_deps(metadata, cfg, b, deps), kind)
        } else {
            0nat
        })
    }
}

/// Counting a prefix of the edges sees only that prefix.
proof fn lemma_edge_count_upto_prefix(
    nodes: Seq<PackageId>,
    edges1: Seq<(usize, usize, DependencyKind)>,
    edges2: Seq<(usize, usize, DependencyKind)>,
    a: Seq<char>,
    b: Seq<char>,
    kind: DependencyKind,
    n: int,
)
    requires
        n <= edges1.len(),
        edges1.len() <= edges2.len(),
        forall|i: int| 0 <= i < n ==> edges1[i] == edges2[i],
    ensures
        edge_count_upto(nodes, edges1, a, b, kind, n) == edge_count_upto(
            nodes,
            edges2,
            a,
            b,
            kind,
            n,
        ),
    decreases n,
{
    if n > 0 {
        lemma_edge_count_upto_prefix(nodes, edges1, edges2, a, b, kind, n - 1);
    }
}

/// Appending one edge raises the count of its own triple by one and leaves
/// every other count as it was.
proof fn lemma_edge_count_push(
    nodes: Seq<PackageId>,
    edges: Seq<(usize, usize, DependencyKind)>,
    e: (usize, usize, DependencyKind),
    a: Seq<char>,
    b: Seq<char>,
    kind: DependencyKind,
)
    ensures
        edge_count(nodes, edges.push(e), a, b, kind) == edge_count(nodes, edges, a, b, kind) + (
        if edge_matches(nodes, e, a, b, kind) {
            1nat
        } else {
            0nat
        }),
{
    assert forall|i: int| 0 <= i < edges.len() implies edges[i] == edges.push(e)[i] by {};
    lemma_edge_count_upto_prefix(nodes, edges, edges.push(e), a, b, kind, edges.len() as int);
    assert(edges.push(e)[edges.len() as int] == e);
}

/// Counts are unchanged when the node list grows by appending, as long as
/// the counted edges' endpoints lie in the old part.
proof fn lemma_edge_count_nodes_extend(
    nodes1: Seq<PackageId>,
    nodes2: Seq<PackageId>,
    edges: Seq<(usize, usize, DependencyKind)>,
    a: Seq<char>,
    b: Seq<char>,
    kind: DependencyKind,
    n: int,
)
    requires
        n <= edges.len(),
        nodes1.len() <= nodes2.len(),
        nodes2.take(nodes1.len() as int) == nodes1,
        forall|i: int|
            0 <= i < n ==> ((#[trigger] edges[i]).0 as int) < nodes1.len() && (edges[i].1 as int)
                < nodes1.len(),
    ensures
        edge_count_upto(nodes1, edges, a, b, kind, n) == edge_count_upto(
            nodes2,
            edges,
            a,
            b,
            kind,
            n,
        ),
    decreases n,
{
    if n > 0 {
        lemma_edge_count_nodes_extend(nodes1, nodes2, edges, a, b, kind, n - 1);
        assert(nodes2.take(nodes1.len() as int)[edges[n - 1].0 as int]
            == nodes2[edges[n - 1].0 as int]);
        assert(nodes2.take(nodes1.len() as int)[edges[n - 1].1 as int]
            == nodes2[edges[n - 1].1 as int]);
    }
}

/// An empty edge list has every count zero.
proof fn lemma_edge_count_empty(
    nodes: Seq<PackageId>,
    edges: Seq<(usize, usize, DependencyKind)>,
    a: Seq<char>,
    b: Seq<char>,
    kind: DependencyKind,
)
    requires
        edges.len() == 0,
    ensures
        edge_count(nodes, edges, a, b, kind) == 0,
{
}

/// The flattened dependency targets hold no identity twice.
proof fn lemma_dep_targets_upto_distinct(packages: Seq<Package>, deps: Seq<Dependency>, i: int)
    ensures
        nodes_distinct(crate::metadata::dep_targets_upto(packages, deps, i)),
    decreases i,
{
    if i > 0 {
        lemma_dep_targets_upto_distinct(packages, deps, i - 1);
        let prev = crate::metadata::dep_targets_upto(packages, deps, i - 1);
        let cur = crate::metadata::dep_targets_upto(packages, deps, i);
        match crate::metadata::resolve_dep(packages, deps[i - 1]) {
            Some(pid) => {
                if !has_key(prev, pid.repr@) {
                    assert forall|x: int, y: int| 0 <= x < y < cur.len() implies cur[x].repr@
                        != cur[y].repr@ by {
                        if y < prev.len() {
                            assert(cur[x] == prev[x] && cur[y] == prev[y]);
                        } else {
                            assert(cur[y] == pid && cur[x] == prev[x]);
                        }
                    }
                }
            },
            None => {},
        }
    }
}

/// Over a duplicate-free target list, the whole block count collapses to the
/// one target holding `b`, or to nothing when none does.
proof fn lemma_block_count_full(
    metadata: Metadata,
    cfg: GraphConfiguration,
    targets: Seq<PackageId>,
    deps: Seq<Dependency>,
    b: Seq<char>,
    kind: DependencyKind,
    t: int,
)
    requires
        0 <= t <= targets.len(),
        nodes_distinct(targets),
    ensures
        block_count_upto(metadata, cfg, targets, deps, b, kind, t) == (
        if exists|j: int| 0 <= j < t && (#[trigger] targets[j]).repr@ == b {
            count_kind(admitted_deps(metadata, cfg, b, deps), kind)
        } else {
            0nat
        }),
    decreases t,
{
    if t > 0 {
        lemma_block_count_full(metadata, cfg, targets, deps, b, kind, t - 1);
        if targets[t - 1].repr@ == b {
            assert forall|j: int| 0 <= j < t - 1 implies (#[trigger] targets[j]).repr@ != b by {
                assert(targets[j].repr@ != targets[t - 1].repr@);
            }
        } else {
            if exists|j: int| 0 <= j < t && (#[trigger] targets[j]).repr@ == b {
                let j = choose|j: int| 0 <= j < t && (#[trigger] targets[j]).repr@ == b;
                assert(0 <= j < t - 1 && targets[j].repr@ == b);
            }
        }
    }
}

/// A stored edge stays stored when nodes and edges grow by appending.
proof fn lemma_edge_present_monotone(
    nodes1: Seq<PackageId>,
    edges1: Seq<(usize, usize, DependencyKind)>,
    nodes2: Seq<PackageId>,
    edges2: Seq<(usize, usize, DependencyKind)>,
    a: Seq<char>,
    b: Seq<char>,
    kind: DependencyKind,
)
    requires
        edge_present(nodes1, edges1, a, b, kind),
        nodes1.len() <= nodes2.len(),
        nodes2.take(nodes1.len() as int) == nodes1,
        edges1.len() <= edges2.len(),
        edges2.take(edges1.len() as int) == edges1,
    ensures
        edge_present(nodes2, edges2, a, b, kind),
{
    let k = choose|k: int|
        0 <= k < edges1.len() && ((#[trigger] edges1[k]).0 as int) < nodes1.len() && (edges1[k].1
            as int) < nodes1.len() && nodes1[edges1[k].0 as int].repr@ == a
            && nodes1[edges1[k].1 as int].repr@ == b && edges1[k].2 == kind;
    assert(edges2.take(edges1.len() as int)[k] == edges2[k]);
    assert(edges2[k] == edges1[k]);
    assert(nodes2.take(nodes1.len() as int)[edges1[k].0 as int]
        == nodes2[edges1[k].0 as int]);
    assert(nodes2.take(nodes1.len() as int)[edges1[k].1 as int]
        == nodes2[edges1[k].1 as int]);
}

/// Edge completeness of a node is kept when nodes and edges grow by
/// appending.
proof fn lemma_node_edges_complete_monotone(
    metadata: Metadata,
    cfg: GraphConfiguration,
    nodes1: Seq<PackageId>,
    edges1: Seq<(usize, usize, DependencyKind)>,
    nodes2: Seq<PackageId>,
    edges2: Seq<(usize, usize, DependencyKind)>,
    a: Seq<char>,
)
    requires
        node_edges_complete(metadata, cfg, nodes1, edges1, a),
        nodes1.len() <= nodes2.len(),
        nodes2.take(nodes1.len() as int) == nodes1,
        edges1.len() <= edges2.len(),
        edges2.take(edges1.len() as int) == edges1,
    ensures
        node_edges_complete(metadata, cfg, nodes2, edges2, a),
{
    match lookup_package(metadata.packages@, a) {
        Some(p) => {
            let targets = dep_targets(metadata.packages@, p.dependencies@);
            assert forall|t: int, u: int|
                0 <= t < targets.len() && 0 <= u && u < admitted_deps(
                    metadata,
                    cfg,
                    targets[t].repr@,
                    p.dependencies@,
                ).len() implies edge_present(
                nodes2,
                edges2,
                a,
                targets[t].repr@,
                (#[trigger] admitted_deps(metadata, cfg, targets[t].repr@, p.dependencies@)[u]).kind,
            ) by {
                lemma_edge_present_monotone(
                    nodes1,
                    edges1,
                    nodes2,
                    edges2,
                    a,
                    targets[t].repr@,
                    admitted_deps(metadata, cfg, targets[t].repr@, p.dependencies@)[u].kind,
                );
            }
        },
        None => {},
    }
}

/// What holds of a finished graph: well-formed, rooted, every node reachable
/// from the root, closed under admitted steps, and every edge sound.
pub open spec fn built_graph_ok(
    metadata: Metadata,
    cfg: GraphConfiguration,
    root: PackageId,
    g: Graph,
) -> bool {
    &&& g.wf()
    &&& g.nodes@.len() >= 1
    &&& g.nodes@[0] == root
    &&& forall|i: int|
        0 <= i < g.nodes@.len() ==> reachable(
            metadata,
            cfg,
            root.repr@,
            (#[trigger] g.nodes@[i]).repr@,
        )
    &&& graph_closed(metadata, cfg, g.nodes@)
    &&& forall|k: int|
        0 <= k < pg_edge_seq(g.graph).len() ==> edge_ok(
            metadata,
            cfg,
            g.nodes@,
            #[trigger] pg_edge_seq(g.graph)[k],
        )
    &&& forall|i: int|
        0 <= i < g.nodes@.len() ==> node_edges_complete(
            metadata,
            cfg,
            g.nodes@,
            pg_edge_seq(g.graph),
            (#[trigger] g.nodes@[i]).repr@,
        )
    &&& forall|a: Seq<char>, b: Seq<char>, kind: DependencyKind|
        #[trigger] edge_count(g.nodes@, pg_edge_seq(g.graph), a, b, kind) == spec_edge_count(
            metadata,
            cfg,
            g.nodes@,
            a,
            b,
            kind,
        )
}

/// Every identity reaches itself by the one-entry path.
pub proof fn lemma_reachable_refl(metadata: Metadata, cfg: GraphConfiguration, root: Seq<char>)
    ensures
        reachable(metadata, cfg, root, root),
{
    let p: Seq<Seq<char>> = seq![root];
    assert(p.len() == 1 && p[0] == root && p.last() == root);
    assert(admitted_path(metadata, cfg, p));
}

/// An admitted step out of a reachable identity reaches its target.
pub proof fn lemma_reachable_step(
    metadata: Metadata,
    cfg: GraphConfiguration,
    root: Seq<char>,
    a: Seq<char>,
    b: Seq<char>,
)
    requires
        reachable(metadata, cfg, root, a),
        admitted_step(metadata, cfg, a, b),
    ensures
        reachable(metadata, cfg, root, b),
{
    let p = choose|p: Seq<Seq<char>>|
        #![auto]
        p.len() >= 1 && p[0] == root && p.last() == a && admitted_path(metadata, cfg, p);
    let q = p.push(b);
    assert(q[0] == root && q.last() == b);
    assert forall|i: int| 0 <= i < q.len() - 1 implies admitted_step(metadata, cfg, #[trigger] q[i], q[i + 1]) by {
        if i < p.len() - 1 {
            assert(q[i] == p[i] && q[i + 1] == p[i + 1]);
            assert(admitted_step(metadata, cfg, p[i], p[i + 1]));
        } else {
            assert(q[i] == p[p.len() - 1] && q[i + 1] == b);
        }
    }
    assert(admitted_path(metadata, cfg, q));
}

/// In a node set closed under admitted steps, an admitted path that starts
/// at a node ends at a node.
proof fn lemma_path_end_has_node(
    metadata: Metadata,
    cfg: GraphConfiguration,
    nodes: Seq<PackageId>,
    p: Seq<Seq<char>>,
)
    requires
        p.len() >= 1,
        has_key(nodes, p[0]),
        admitted_path(metadata, cfg, p),
        graph_closed(metadata, cfg, nodes),
    ensures
        has_key(nodes, p.last()),
    decreases p.len(),
{
    if p.len() > 1 {
        let q = p.drop_last();
        assert forall|i: int| 0 <= i < q.len() - 1 implies admitted_step(metadata, cfg, #[trigger] q[i], q[i + 1]) by {
            assert(q[i] == p[i] && q[i + 1] == p[i + 1]);
            assert(admitted_step(metadata, cfg, p[i], p[i + 1]));
        }
        lemma_path_end_has_node(metadata, cfg, nodes, q);
        let a = p[p.len() - 2];
        let i = choose|i: int| 0 <= i < nodes.len() && nodes[i].repr@ == a;
        assert(admitted_step(metadata, cfg, p[p.len() - 2], p[p.len() - 1]));
        assert(node_closed(metadata, cfg, nodes, nodes[i].repr@));
        assert(admitted_step(metadata, cfg, nodes[i].repr@, p.last()));
    }
}

/// A structural resolution that succeeds names a catalog package's identity.
proof fn lemma_resolve_from_in_catalog(packages: Seq<Package>, dep: Dependency, i: int)
    ensures
        crate::metadata::resolve_from(packages, dep, i) matches Some(pid) ==> key_in_catalog(
            packages,
            pid.repr@,
        ),
    decreases packages.len() - i,
{
    if 0 <= i < packages.len() {
        if !dep_matches_package(dep, packages[i]) {
            lemma_resolve_from_in_catalog(packages, dep, i + 1);
        }
    }
}

/// Every flattened dependency target names a catalog package's identity.
proof fn lemma_dep_targets_upto_in_catalog(packages: Seq<Package>, deps: Seq<Dependency>, i: int)
    ensures
        forall|j: int|
            0 <= j < crate::metadata::dep_targets_upto(packages, deps, i).len()
                ==> key_in_catalog(
                packages,
                (#[trigger] crate::metadata::dep_targets_upto(packages, deps, i)[j]).repr@,
            ),
    decreases i,
{
    if i > 0 {
        lemma_dep_targets_upto_in_catalog(packages, deps, i - 1);
        lemma_resolve_from_in_catalog(packages, deps[i - 1], 0);
        let prev = crate::metadata::dep_targets_upto(packages, deps, i - 1);
        let cur = crate::metadata::dep_targets_upto(packages, deps, i);
        assert forall|j: int| 0 <= j < cur.len() implies key_in_catalog(
            packages,
            (#[trigger] cur[j]).repr@,
        ) by {
            match crate::metadata::resolve_dep(packages, deps[i - 1]) {
                Some(pid) => {
                    if has_key(prev, pid.repr@) {
                        assert(cur == prev);
                    } else {
                        assert(cur == prev.push(pid));
                        if j < prev.len() {
                            assert(cur[j] == prev[j]);
                        } else {
                            assert(cur[j] == pid);
                        }
                    }
                },
                None => {
                    assert(cur == prev);
                },
            }
        }
    }
}

/// The target of an admitted step names a catalog package's identity.
proof fn lemma_admitted_step_target_in_catalog(
    metadata: Metadata,
    cfg: GraphConfiguration,
    a: Seq<char>,
    b: Seq<char>,
)
    requires
        admitted_step(metadata, cfg, a, b),
    ensures
        key_in_catalog(metadata.packages@, b),
{
    match lookup_package(metadata.packages@, a) {
        Some(p) => {
            let t = choose|t: int|
                0 <= t < dep_targets(metadata.packages@, p.dependencies@).len() && (
                #[trigger] dep_targets(metadata.packages@, p.dependencies@)[t]).repr@ == b
                    && admitted_deps(metadata, cfg, b, p.dependencies@).len() > 0;
            lemma_dep_targets_upto_in_catalog(
                metadata.packages@,
                p.dependencies@,
                p.dependencies@.len() as int,
            );
        },
        None => {},
    }
}

/// A duplicate-free node list whose identities all come from the catalog or
/// equal the root cannot outgrow the catalog by more than the root.
proof fn lemma_nodes_len_bounded(nodes: Seq<PackageId>, packages: Seq<Package>, root: Seq<char>)
    requires
        nodes_distinct(nodes),
        forall|i: int|
            0 <= i < nodes.len() ==> (#[trigger] nodes[i]).repr@ == root || key_in_catalog(
                packages,
                nodes[i].repr@,
            ),
    ensures
        nodes.len() <= packages.len() + 1,
{
    broadcast use vstd::seq_lib::seq_to_set_is_finite;

    let keys = nodes.map_values(|p: PackageId| p.repr@);
    let catalog_keys = packages.map_values(|p: Package| p.id.repr@);
    assert(keys.no_duplicates());
    keys.unique_seq_to_set();
    catalog_keys.lemma_cardinality_of_set();
    let upper = catalog_keys.to_set().insert(root);
    assert forall|x: Seq<char>| keys.to_set().contains(x) implies upper.contains(x) by {
        let i = choose|i: int| 0 <= i < keys.len() && keys[i] == x;
        if nodes[i].repr@ == root {
        } else {
            let j = choose|j: int| 0 <= j < packages.len() && (#[trigger] packages[j]).id.repr@ == x;
            assert(catalog_keys[j] == x);
            assert(catalog_keys.contains(x));
        }
    }
    assert(keys.to_set().subset_of(upper));
    vstd::set_lib::lemma_len_subset(keys.to_set(), upper);
}

/// Expand one package: look it up, and for each of its not-replaced
/// dependency identities add an edge per admitted declaration, inserting and
/// queueing nodes on first sight. A package absent from the catalog is
/// skipped, its subtree omitted; the result says whether the lookup
/// resolved, so that the caller can report the omission.
pub fn add_package_dependencies_to_graph(
    metadata: &Metadata,
    package_id: PackageId,
    graph_configuration: &GraphConfiguration,
    graph: &mut Graph,
    pending_packages: &mut Vec<PackageId>,
) -> (resolved: bool)
    requires
        old(graph).wf(),
        has_key(old(graph).nodes@, package_id.repr@),
    ensures
        final(graph).wf(),
        old(graph).nodes@.len() <= final(graph).nodes@.len(),
        final(graph).nodes@.take(old(graph).nodes@.len() as int) == old(graph).nodes@,
        final(pending_packages)@ == old(pending_packages)@ + final(graph).nodes@.skip(
            old(graph).nodes@.len() as int,
        ),
        forall|i: int|
            old(graph).nodes@.len() <= i < final(graph).nodes@.len() ==> admitted_step(
                *metadata,
                *graph_configuration,
                package_id.repr@,
                (#[trigger] final(graph).nodes@[i]).repr@,
            ),
        node_closed(*metadata, *graph_configuration, final(graph).nodes@, package_id.repr@),
        node_edges_complete(
            *metadata,
            *graph_configuration,
            final(graph).nodes@,
            pg_edge_seq(final(graph).graph),
            package_id.repr@,
        ),
        pg_edge_seq(old(graph).graph).len() <= pg_edge_seq(final(graph).graph).len(),
        pg_edge_seq(final(graph).graph).take(pg_edge_seq(old(graph).graph).len() as int)
            == pg_edge_seq(old(graph).graph),
        forall|k: int|
            pg_edge_seq(old(graph).graph).len() <= k < pg_edge_seq(final(graph).graph).len()
                ==> edge_ok(
                *metadata,
                *graph_configuration,
                final(graph).nodes@,
                #[trigger] pg_edge_seq(final(graph).graph)[k],
            ),
        resolved == (lookup_package(metadata.packages@, package_id.repr@) is Some),
        match lookup_package(metadata.packages@, package_id.repr@) {
            None => final(graph).nodes@ == old(graph).nodes@ && pg_edge_seq(final(graph).graph)
                == pg_edge_seq(old(graph).graph) && final(pending_packages)@ == old(
                pending_packages,
            )@,
            Some(p) => forall|a: Seq<char>, b: Seq<char>, kind: DependencyKind|
                #[trigger] edge_count(
                    final(graph).nodes@,
                    pg_edge_seq(final(graph).graph),
                    a,
                    b,
                    kind,
                ) == edge_count(old(graph).nodes@, pg_edge_seq(old(graph).graph), a, b, kind) + (
                if a == package_id.repr@ {
                    spec_out_count(*metadata, *graph_configuration, a, b, kind)
                } else {
                    0nat
                }),
        },
{
    let index = match find_node_index(&graph.nodes, &package_id) {
        Some(i) => i,
        None => {
            proof {
                assert(false);
            }
            0
        },
    };
    let package_index = match crate::metadata::find_package_index(&metadata.packages, &package_id) {
        Some(i) => i,
        None => {
            proof {
                assert(graph.nodes@.take(graph.nodes@.len() as int) =~= graph.nodes@);
                assert(graph.nodes@.skip(graph.nodes@.len() as int) =~= Seq::<PackageId>::empty());
                assert(pending_packages@ =~= pending_packages@ + graph.nodes@.skip(
                    graph.nodes@.len() as int,
                ));
                assert(pg_edge_seq(graph.graph).take(pg_edge_seq(graph.graph).len() as int)
                    =~= pg_edge_seq(graph.graph));
            }
            return false;
        },
    };
    let dep_ids = match metadata.deps_not_replaced(&package_id) {
        Some(v) => v,
        None => {
            proof {
                assert(false);
            }
            Vec::new()
        },
    };
    let ghost pkgs = metadata.packages@;
    let ghost pkg = metadata.packages@[package_index as int];
    let n = dep_ids.len();
    let mut t: usize = 0;
    while t < n
        invariant
            graph.wf(),
            t <= n,
            n == dep_ids@.len(),
            pkgs == metadata.packages@,
            pkg == metadata.packages@[package_index as int],
            package_index < metadata.packages@.len(),
            lookup_package(pkgs, package_id.repr@) == Some(pkg),
            dep_ids@ == dep_targets(pkgs, pkg.dependencies@),
            index < graph.nodes@.len(),
            graph.nodes@[index as int].repr@ == package_id.repr@,
            old(graph).nodes@.len() <= graph.nodes@.len(),
            graph.nodes@.take(old(graph).nodes@.len() as int) == old(graph).nodes@,
            pending_packages@ == old(pending_packages)@ + graph.nodes@.skip(
                old(graph).nodes@.len() as int,
            ),
            forall|i: int|
                old(graph).nodes@.len() <= i < graph.nodes@.len() ==> admitted_step(
                    *metadata,
                    *graph_configuration,
                    package_id.repr@,
                    (#[trigger] graph.nodes@[i]).repr@,
                ),
            forall|u: int|
                0 <= u < t && admitted_deps(
                    *metadata,
                    *graph_configuration,
                    (#[trigger] dep_ids@[u]).repr@,
                    pkg.dependencies@,
                ).len() > 0 ==> has_key(graph.nodes@, dep_ids@[u].repr@),
            forall|w: int, u2: int|
                0 <= w < t && 0 <= u2 && u2 < admitted_deps(
                    *metadata,
                    *graph_configuration,
                    dep_ids@[w].repr@,
                    pkg.dependencies@,
                ).len() ==> edge_present(
                    graph.nodes@,
                    pg_edge_seq(graph.graph),
                    package_id.repr@,
                    dep_ids@[w].repr@,
                    (#[trigger] admitted_deps(
                        *metadata,
                        *graph_configuration,
                        dep_ids@[w].repr@,
                        pkg.dependencies@,
                    )[u2]).kind,
                ),
            pg_edge_seq(old(graph).graph).len() <= pg_edge_seq(graph.graph).len(),
            pg_edge_seq(graph.graph).take(pg_edge_seq(old(graph).graph).len() as int)
                == pg_edge_seq(old(graph).graph),
            forall|k: int|
                pg_edge_seq(old(graph).graph).len() <= k < pg_edge_seq(graph.graph).len()
                    ==> edge_ok(
                    *metadata,
                    *graph_configuration,
                    graph.nodes@,
                    #[trigger] pg_edge_seq(graph.graph)[k],
                ),
            forall|a: Seq<char>, b: Seq<char>, kind: DependencyKind|
                #[trigger] edge_count(graph.nodes@, pg_edge_seq(graph.graph), a, b, kind)
                    == edge_count(old(graph).nodes@, pg_edge_seq(old(graph).graph), a, b, kind)
                    + (if a == package_id.repr@ {
                    block_count_upto(
                        *metadata,
                        *graph_configuration,
                        dep_ids@,
                        pkg.dependencies@,
                        b,
                        kind,
                        t as int,
                    )
                } else {
                    0nat
                }),
        decreases n - t,
    {
        let dependency_package_id = &dep_ids[t];
        let package = &metadata.packages[package_index];
        let dependency_iterator = filter_dependencies(
            metadata,
            dependency_package_id,
            graph_configuration,
            package,
        );
        let m = dependency_iterator.len();
        let mut u: usize = 0;
        while u < m
            invariant
                graph.wf(),
                u <= m,
                t < n,
                n == dep_ids@.len(),
                m == dependency_iterator@.len(),
                pkgs == metadata.packages@,
                pkg == metadata.packages@[package_index as int],
                package_index < metadata.packages@.len(),
                lookup_package(pkgs, package_id.repr@) == Some(pkg),
                dep_ids@ == dep_targets(pkgs, pkg.dependencies@),
                dependency_iterator@ == admitted_deps(
                    *metadata,
                    *graph_configuration,
                    dep_ids@[t as int].repr@,
                    pkg.dependencies@,
                ),
                index < graph.nodes@.len(),
                graph.nodes@[index as int].repr@ == package_id.repr@,
                old(graph).nodes@.len() <= graph.nodes@.len(),
                graph.nodes@.take(old(graph).nodes@.len() as int) == old(graph).nodes@,
                pending_packages@ == old(pending_packages)@ + graph.nodes@.skip(
                    old(graph).nodes@.len() as int,
                ),
                forall|i: int|
                    old(graph).nodes@.len() <= i < graph.nodes@.len() ==> admitted_step(
                        *metadata,
                        *graph_configuration,
                        package_id.repr@,
                        (#[trigger] graph.nodes@[i]).repr@,
                    ),
                forall|w: int|
                    0 <= w < t && admitted_deps(
                        *metadata,
                        *graph_configuration,
                        (#[trigger] dep_ids@[w]).repr@,
                        pkg.dependencies@,
                    ).len() > 0 ==> has_key(graph.nodes@, dep_ids@[w].repr@),
                u > 0 ==> has_key(graph.nodes@, dep_ids@[t as int].repr@),
                forall|w: int, u2: int|
                    0 <= w < t && 0 <= u2 && u2 < admitted_deps(
                        *metadata,
                        *graph_configuration,
                        dep_ids@[w].repr@,
                        pkg.dependencies@,
                    ).len() ==> edge_present(
                        graph.nodes@,
                        pg_edge_seq(graph.graph),
                        package_id.repr@,
                        dep_ids@[w].repr@,
                        (#[trigger] admitted_deps(
                            *metadata,
                            *graph_configuration,
                            dep_ids@[w].repr@,
                            pkg.dependencies@,
                        )[u2]).kind,
                    ),
                forall|u2: int|
                    0 <= u2 < u ==> edge_present(
                        graph.nodes@,
                        pg_edge_seq(graph.graph),
                        package_id.repr@,
                        dep_ids@[t as int].repr@,
                        (#[trigger] dependency_iterator@[u2]).kind,
                    ),
                forall|a: Seq<char>, b: Seq<char>, kind: DependencyKind|
                    #[trigger] edge_count(graph.nodes@, pg_edge_seq(graph.graph), a, b, kind)
                        == edge_count(old(graph).nodes@, pg_edge_seq(old(graph).graph), a, b, kind)
                        + (if a == package_id.repr@ {
                        block_count_upto(
                            *metadata,
                            *graph_configuration,
                            dep_ids@,
                            pkg.dependencies@,
                            b,
                            kind,
                            t as int,
                        ) + (if b == dep_ids@[t as int].repr@ {
                            count_kind_upto(dependency_iterator@, kind, u as int)
                        } else {
                            0nat
                        })
                    } else {
                        0nat
                    }),
                pg_edge_seq(old(graph).graph).len() <= pg_edge_seq(graph.graph).len(),
                pg_edge_seq(graph.graph).take(pg_edge_seq(old(graph).graph).len() as int)
                    == pg_edge_seq(old(graph).graph),
                forall|k: int|
                    pg_edge_seq(old(graph).graph).len() <= k < pg_edge_seq(graph.graph).len()
                        ==> edge_ok(
                        *metadata,
                        *graph_configuration,
                        graph.nodes@,
                        #[trigger] pg_edge_seq(graph.graph)[k],
                    ),
            decreases m - u,
        {
            let ghost nodes_before = graph.nodes@;
            let ghost edges_before = pg_edge_seq(graph.graph);
            proof {
                assert(forall|k2: int|
                    0 <= k2 < edges_before.len() ==> ((#[trigger] edges_before[k2]).0 as int)
                        < nodes_before.len() && (edges_before[k2].1 as int) < nodes_before.len());
            }
            add_graph_node_if_not_present_and_edge(
                &dependency_iterator[u],
                clone_id(&dep_ids[t]),
                graph,
                index,
                pending_packages,
            );
            proof {
                let target_key = dep_ids@[t as int].repr@;
                match lookup_package(metadata.packages@, package_id.repr@) {
                    Some(p) => {
                        assert(p == pkg);
                        assert(dep_ids@ == dep_targets(metadata.packages@, p.dependencies@));
                        assert((t as int) < dep_targets(metadata.packages@, p.dependencies@).len());
                        assert(dep_targets(metadata.packages@, p.dependencies@)[t as int].repr@
                            == target_key);
                        assert(admitted_deps(
                            *metadata,
                            *graph_configuration,
                            target_key,
                            p.dependencies@,
                        ).len() > 0);
                    },
                    None => {
                        assert(false);
                    },
                }
                assert(admitted_step(*metadata, *graph_configuration, package_id.repr@, target_key));
                if !has_key(nodes_before, target_key) {
                    assert(graph.nodes@ == nodes_before.push(dep_ids@[t as int]));
                    assert(graph.nodes@.take(old(graph).nodes@.len() as int)
                        =~= old(graph).nodes@);
                    assert(pending_packages@ =~= old(pending_packages)@ + graph.nodes@.skip(
                        old(graph).nodes@.len() as int,
                    ));
                }
                // old positions keep their nodes, and old keys stay present
                assert forall|i0: int| 0 <= i0 < nodes_before.len() implies graph.nodes@[i0]
                    == nodes_before[i0] by {};
                assert forall|w: int|
                    0 <= w < t && admitted_deps(
                        *metadata,
                        *graph_configuration,
                        (#[trigger] dep_ids@[w]).repr@,
                        pkg.dependencies@,
                    ).len() > 0 implies has_key(graph.nodes@, dep_ids@[w].repr@) by {
                    let ww = choose|ww: int|
                        0 <= ww < nodes_before.len() && nodes_before[ww].repr@
                            == dep_ids@[w].repr@;
                    assert(graph.nodes@[ww] == nodes_before[ww]);
                };
                assert forall|i0: int|
                    old(graph).nodes@.len() <= i0 < graph.nodes@.len() implies admitted_step(
                    *metadata,
                    *graph_configuration,
                    package_id.repr@,
                    (#[trigger] graph.nodes@[i0]).repr@,
                ) by {
                    if i0 < nodes_before.len() {
                        assert(graph.nodes@[i0] == nodes_before[i0]);
                    } else {
                        assert(graph.nodes@[i0] == dep_ids@[t as int]);
                    }
                };
                assert(has_key(graph.nodes@, target_key));
                // the new edge is sound
                let edges_now = pg_edge_seq(graph.graph);
                assert(edges_now.take(edges_before.len() as int) =~= edges_before);
                assert(edges_now.take(pg_edge_seq(old(graph).graph).len() as int)
                    =~= pg_edge_seq(old(graph).graph));
                assert(graph.nodes@.take(nodes_before.len() as int) =~= nodes_before);
                let e = edges_now.last();
                assert(graph.nodes@[e.0 as int].repr@ == package_id.repr@);
                assert(graph.nodes@[e.1 as int].repr@ == dep_ids@[t as int].repr@);
                let d = dependency_iterator@[u as int];
                assert(e.2 == d.kind);
                match lookup_package(pkgs, graph.nodes@[e.0 as int].repr@) {
                    Some(p) => {
                        assert(p == pkg);
                        assert(dep_targets(pkgs, p.dependencies@)[t as int].repr@
                            == graph.nodes@[e.1 as int].repr@);
                        assert(admitted_deps(
                            *metadata,
                            *graph_configuration,
                            dep_targets(pkgs, p.dependencies@)[t as int].repr@,
                            p.dependencies@,
                        ) == dependency_iterator@);
                    },
                    None => {
                        assert(false);
                    },
                }
                assert(edge_ok(*metadata, *graph_configuration, graph.nodes@, e));
                // the new edge is present under its identities
                assert(edge_present(
                    graph.nodes@,
                    edges_now,
                    package_id.repr@,
                    dep_ids@[t as int].repr@,
                    d.kind,
                )) by {
                    assert(edges_now[edges_now.len() - 1] == e);
                };
                // earlier presents carry over the growth
                assert forall|w: int, u2: int|
                    0 <= w < t && 0 <= u2 && u2 < admitted_deps(
                        *metadata,
                        *graph_configuration,
                        dep_ids@[w].repr@,
                        pkg.dependencies@,
                    ).len() implies edge_present(
                    graph.nodes@,
                    edges_now,
                    package_id.repr@,
                    dep_ids@[w].repr@,
                    (#[trigger] admitted_deps(
                        *metadata,
                        *graph_configuration,
                        dep_ids@[w].repr@,
                        pkg.dependencies@,
                    )[u2]).kind,
                ) by {
                    lemma_edge_present_monotone(
                        nodes_before,
                        edges_before,
                        graph.nodes@,
                        edges_now,
                        package_id.repr@,
                        dep_ids@[w].repr@,
                        admitted_deps(
                            *metadata,
                            *graph_configuration,
                            dep_ids@[w].repr@,
                            pkg.dependencies@,
                        )[u2].kind,
                    );
                };
                assert forall|u2: int| 0 <= u2 < u implies edge_present(
                    graph.nodes@,
                    edges_now,
                    package_id.repr@,
                    dep_ids@[t as int].repr@,
                    (#[trigger] dependency_iterator@[u2]).kind,
                ) by {
                    lemma_edge_present_monotone(
                        nodes_before,
                        edges_before,
                        graph.nodes@,
                        edges_now,
                        package_id.repr@,
                        dep_ids@[t as int].repr@,
                        dependency_iterator@[u2].kind,
                    );
                };
                // older edges stay sound over the grown node list
                assert forall|k: int|
                    pg_edge_seq(old(graph).graph).len() <= k < edges_now.len() - 1 implies edge_ok(
                    *metadata,
                    *graph_configuration,
                    graph.nodes@,
                    #[trigger] edges_now[k],
                ) by {
                    assert(edges_now[k] == edges_before[k]);
                    assert(edge_ok(*metadata, *graph_configuration, nodes_before, edges_before[k]));
                    assert(graph.nodes@.len() >= nodes_before.len());
                    assert(graph.nodes@[edges_before[k].0 as int]
                        == nodes_before[edges_before[k].0 as int]);
                    assert(graph.nodes@[edges_before[k].1 as int]
                        == nodes_before[edges_before[k].1 as int]);
                };
                // exact count bookkeeping for the appended edge
                assert(edges_now =~= edges_before.push(e));
                assert forall|a: Seq<char>, b: Seq<char>, kind: DependencyKind|
                    #[trigger] edge_count(graph.nodes@, pg_edge_seq(graph.graph), a, b, kind)
                        == edge_count(old(graph).nodes@, pg_edge_seq(old(graph).graph), a, b, kind)
                        + (if a == package_id.repr@ {
                        block_count_upto(
                            *metadata,
                            *graph_configuration,
                            dep_ids@,
                            pkg.dependencies@,
                            b,
                            kind,
                            t as int,
                        ) + (if b == dep_ids@[t as int].repr@ {
                            count_kind_upto(dependency_iterator@, kind, u as int + 1)
                        } else {
                            0nat
                        })
                    } else {
                        0nat
                    }) by {
                    assert(graph.nodes@.take(nodes_before.len() as int) =~= nodes_before);
                    lemma_edge_count_nodes_extend(
                        nodes_before,
                        graph.nodes@,
                        edges_before,
                        a,
                        b,
                        kind,
                        edges_before.len() as int,
                    );
                    assert(edge_count(nodes_before, edges_before, a, b, kind) == edge_count(
                        graph.nodes@,
                        edges_before,
                        a,
                        b,
                        kind,
                    ));
                    lemma_edge_count_push(graph.nodes@, edges_before, e, a, b, kind);
                    if edge_matches(graph.nodes@, e, a, b, kind) {
                        assert(a == package_id.repr@ && b == dep_ids@[t as int].repr@ && kind
                            == d.kind);
                    } else {
                        if a == package_id.repr@ && b == dep_ids@[t as int].repr@ && kind
                            == d.kind {
                            assert(edge_matches(graph.nodes@, e, a, b, kind));
                        }
                    }
                };
            }
            u += 1;
        }
        proof {
            assert forall|u2: int|
                0 <= u2 && u2 < admitted_deps(
                    *metadata,
                    *graph_configuration,
                    dep_ids@[t as int].repr@,
                    pkg.dependencies@,
                ).len() implies edge_present(
                graph.nodes@,
                pg_edge_seq(graph.graph),
                package_id.repr@,
                dep_ids@[t as int].repr@,
                admitted_deps(
                    *metadata,
                    *graph_configuration,
                    dep_ids@[t as int].repr@,
                    pkg.dependencies@,
                )[u2].kind,
            ) by {
                assert(admitted_deps(
                    *metadata,
                    *graph_configuration,
                    dep_ids@[t as int].repr@,
                    pkg.dependencies@,
                ) == dependency_iterator@);
                assert(edge_present(
                    graph.nodes@,
                    pg_edge_seq(graph.graph),
                    package_id.repr@,
                    dep_ids@[t as int].repr@,
                    dependency_iterator@[u2].kind,
                ));
            };
            // fold this target's edges into the block count
            assert forall|a: Seq<char>, b: Seq<char>, kind: DependencyKind|
                #[trigger] edge_count(graph.nodes@, pg_edge_seq(graph.graph), a, b, kind)
                    == edge_count(old(graph).nodes@, pg_edge_seq(old(graph).graph), a, b, kind) + (
                if a == package_id.repr@ {
                    block_count_upto(
                        *metadata,
                        *graph_configuration,
                        dep_ids@,
                        pkg.dependencies@,
                        b,
                        kind,
                        t as int + 1,
                    )
                } else {
                    0nat
                }) by {
                if a == package_id.repr@ && b == dep_ids@[t as int].repr@ {
                    assert(admitted_deps(
                        *metadata,
                        *graph_configuration,
                        b,
                        pkg.dependencies@,
                    ) == dependency_iterator@);
                    assert(count_kind_upto(dependency_iterator@, kind, m as int) == count_kind(
                        admitted_deps(*metadata, *graph_configuration, b, pkg.dependencies@),
                        kind,
                    ));
                }
            };
        }
        t += 1;
    }
    proof {
        assert forall|b: Seq<char>|
            #[trigger] admitted_step(*metadata, *graph_configuration, package_id.repr@, b) implies has_key(
            graph.nodes@,
            b,
        ) by {
            let t0 = choose|t0: int|
                0 <= t0 < dep_targets(pkgs, pkg.dependencies@).len() && (#[trigger] dep_targets(
                    pkgs,
                    pkg.dependencies@,
                )[t0]).repr@ == b && admitted_deps(
                    *metadata,
                    *graph_configuration,
                    b,
                    pkg.dependencies@,
                ).len() > 0;
            assert(dep_ids@[t0].repr@ == b);
            assert(has_key(graph.nodes@, dep_ids@[t0].repr@));
        }
        match lookup_package(pkgs, package_id.repr@) {
            Some(p) => {
                assert(p == pkg);
                let targets = dep_targets(pkgs, p.dependencies@);
                assert forall|t0: int, u2: int|
                    0 <= t0 < targets.len() && 0 <= u2 && u2 < admitted_deps(
                        *metadata,
                        *graph_configuration,
                        targets[t0].repr@,
                        p.dependencies@,
                    ).len() implies edge_present(
                    graph.nodes@,
                    pg_edge_seq(graph.graph),
                    package_id.repr@,
                    targets[t0].repr@,
                    (#[trigger] admitted_deps(
                        *metadata,
                        *graph_configuration,
                        targets[t0].repr@,
                        p.dependencies@,
                    )[u2]).kind,
                ) by {
                    assert(dep_ids@[t0].repr@ == targets[t0].repr@);
                };
                // the appended edges are counted exactly
                lemma_dep_targets_upto_distinct(pkgs, p.dependencies@, p.dependencies@.len() as int);
                assert(nodes_distinct(dep_ids@));
                assert forall|a: Seq<char>, b: Seq<char>, kind: DependencyKind|
                    #[trigger] edge_count(graph.nodes@, pg_edge_seq(graph.graph), a, b, kind)
                        == edge_count(old(graph).nodes@, pg_edge_seq(old(graph).graph), a, b, kind)
                        + (if a == package_id.repr@ {
                        spec_out_count(*metadata, *graph_configuration, a, b, kind)
                    } else {
                        0nat
                    }) by {
                    if a == package_id.repr@ {
                        lemma_block_count_full(
                            *metadata,
                            *graph_configuration,
                            dep_ids@,
                            pkg.dependencies@,
                            b,
                            kind,
                            n as int,
                        );
                        assert((exists|j: int|
                            0 <= j < n && (#[trigger] dep_ids@[j]).repr@ == b) == has_key(
                            dep_targets(pkgs, p.dependencies@),
                            b,
                        ));
                    }
                };
            },
            None => {},
        }
        assert(node_edges_complete(
            *metadata,
            *graph_configuration,
            graph.nodes@,
            pg_edge_seq(graph.graph),
            package_id.repr@,
        ));
    }
    true
}

/// Build the dependency graph reachable from the root identity: seed the
/// graph and the worklist with the root, then expand pending packages until
/// none are left. Traversal order among siblings is unspecified; the node
/// set is exactly the identities reachable under the inclusion policy, with
/// one node per identity. Beside the graph come the identities whose
/// subtrees were omitted because the catalog cannot resolve them — exactly
/// the nodes without a catalog record — for the caller to log; such a miss
/// never aborts the traversal.
#[verifier::rlimit(100)]
pub fn build_graph(
    metadata: &Metadata,
    graph_configuration: &GraphConfiguration,
    root_package_id: PackageId,
) -> (r: (Graph, Vec<PackageId>))
    ensures
        built_graph_ok(*metadata, *graph_configuration, root_package_id, r.0),
        forall|j: int|
            0 <= j < r.1@.len() ==> has_key(r.0.nodes@, (#[trigger] r.1@[j]).repr@)
                && lookup_package(metadata.packages@, r.1@[j].repr@) is None,
        forall|i: int|
            0 <= i < r.0.nodes@.len() && lookup_package(
                metadata.packages@,
                (#[trigger] r.0.nodes@[i]).repr@,
            ) is None ==> has_key(r.1@, r.0.nodes@[i].repr@),
{
    let mut graph = Graph { graph: pg_new(), nodes: Vec::new() };
    let _root_index = pg_add_node(&mut graph.graph, clone_id(&root_package_id));
    graph.nodes.push(clone_id(&root_package_id));
    let mut pending_packages: Vec<PackageId> = Vec::new();
    pending_packages.push(clone_id(&root_package_id));
    let mut omitted_packages: Vec<PackageId> = Vec::new();
    proof {
        lemma_reachable_refl(*metadata, *graph_configuration, root_package_id.repr@);
        assert(pg_node_seq(graph.graph) =~= graph.nodes@);
        assert(graph.wf());
        assert forall|a: Seq<char>, b: Seq<char>, kind: DependencyKind|
            #[trigger] edge_count(graph.nodes@, pg_edge_seq(graph.graph), a, b, kind) == 0 by {
            lemma_edge_count_empty(graph.nodes@, pg_edge_seq(graph.graph), a, b, kind);
        };
    }
    loop
        invariant
            graph.wf(),
            graph.nodes@.len() >= 1,
            graph.nodes@[0] == root_package_id,
            graph.nodes@.len() <= metadata.packages@.len() + 1,
            forall|i: int|
                0 <= i < graph.nodes@.len() ==> reachable(
                    *metadata,
                    *graph_configuration,
                    root_package_id.repr@,
                    (#[trigger] graph.nodes@[i]).repr@,
                ),
            forall|i: int|
                0 <= i < graph.nodes@.len() ==> (#[trigger] graph.nodes@[i]).repr@
                    == root_package_id.repr@ || key_in_catalog(
                    metadata.packages@,
                    graph.nodes@[i].repr@,
                ),
            forall|j: int|
                0 <= j < pending_packages@.len() ==> has_key(
                    graph.nodes@,
                    (#[trigger] pending_packages@[j]).repr@,
                ),
            nodes_distinct(pending_packages@),
            forall|i: int|
                0 <= i < graph.nodes@.len() ==> has_key(
                    pending_packages@,
                    (#[trigger] graph.nodes@[i]).repr@,
                ) || (node_closed(
                    *metadata,
                    *graph_configuration,
                    graph.nodes@,
                    graph.nodes@[i].repr@,
                ) && node_edges_complete(
                    *metadata,
                    *graph_configuration,
                    graph.nodes@,
                    pg_edge_seq(graph.graph),
                    graph.nodes@[i].repr@,
                )),
            forall|k: int|
                0 <= k < pg_edge_seq(graph.graph).len() ==> edge_ok(
                    *metadata,
                    *graph_configuration,
                    graph.nodes@,
                    #[trigger] pg_edge_seq(graph.graph)[k],
                ),
            forall|a: Seq<char>, b: Seq<char>, kind: DependencyKind|
                !has_key(pending_packages@, a) ==> #[trigger] edge_count(
                    graph.nodes@,
                    pg_edge_seq(graph.graph),
                    a,
                    b,
                    kind,
                ) == spec_edge_count(*metadata, *graph_configuration, graph.nodes@, a, b, kind),
            forall|a: Seq<char>, b: Seq<char>, kind: DependencyKind|
                has_key(pending_packages@, a) ==> #[trigger] edge_count(
                    graph.nodes@,
                    pg_edge_seq(graph.graph),
                    a,
                    b,
                    kind,
                ) == 0,
            forall|j: int|
                0 <= j < omitted_packages@.len() ==> has_key(
                    graph.nodes@,
                    (#[trigger] omitted_packages@[j]).repr@,
                ) && lookup_package(metadata.packages@, omitted_packages@[j].repr@) is None,
            forall|i: int|
                0 <= i < graph.nodes@.len() && lookup_package(
                    metadata.packages@,
                    (#[trigger] graph.nodes@[i]).repr@,
                ) is None ==> has_key(pending_packages@, graph.nodes@[i].repr@) || has_key(
                    omitted_packages@,
                    graph.nodes@[i].repr@,
                ),
        ensures
            pending_packages@.len() == 0,
            graph.wf(),
            graph.nodes@.len() >= 1,
            graph.nodes@[0] == root_package_id,
            forall|i: int|
                0 <= i < graph.nodes@.len() ==> reachable(
                    *metadata,
                    *graph_configuration,
                    root_package_id.repr@,
                    (#[trigger] graph.nodes@[i]).repr@,
                ),
            forall|i: int|
                0 <= i < graph.nodes@.len() ==> has_key(
                    pending_packages@,
                    (#[trigger] graph.nodes@[i]).repr@,
                ) || (node_closed(
                    *metadata,
                    *graph_configuration,
                    graph.nodes@,
                    graph.nodes@[i].repr@,
                ) && node_edges_complete(
                    *metadata,
                    *graph_configuration,
                    graph.nodes@,
                    pg_edge_seq(graph.graph),
                    graph.nodes@[i].repr@,
                )),
            forall|k: int|
                0 <= k < pg_edge_seq(graph.graph).len() ==> edge_ok(
                    *metadata,
                    *graph_configuration,
                    graph.nodes@,
                    #[trigger] pg_edge_seq(graph.graph)[k],
                ),
            forall|a: Seq<char>, b: Seq<char>, kind: DependencyKind|
                #[trigger] edge_count(graph.nodes@, pg_edge_seq(graph.graph), a, b, kind)
                    == spec_edge_count(*metadata, *graph_configuration, graph.nodes@, a, b, kind),
            forall|j: int|
                0 <= j < omitted_packages@.len() ==> has_key(
                    graph.nodes@,
                    (#[trigger] omitted_packages@[j]).repr@,
                ) && lookup_package(metadata.packages@, omitted_packages@[j].repr@) is None,
            forall|i: int|
                0 <= i < graph.nodes@.len() && lookup_package(
                    metadata.packages@,
                    (#[trigger] graph.nodes@[i]).repr@,
                ) is None ==> has_key(omitted_packages@, graph.nodes@[i].repr@),
        decreases metadata.packages@.len() + 1 - graph.nodes@.len(), pending_packages@.len(),
    {
        let ghost pending_before = pending_packages@;
        let package_id = match pending_packages.pop() {
            Some(p) => p,
            None => { break ; },
        };
        let ghost nodes_before = graph.nodes@;
        let ghost edges_entry = pg_edge_seq(graph.graph);
        let ghost omitted_before = omitted_packages@;
        let resolved = add_package_dependencies_to_graph(
            metadata,
            clone_id(&package_id),
            graph_configuration,
            &mut graph,
            &mut pending_packages,
        );
        proof {
            let m = *metadata;
            let c = *graph_configuration;
            let rootk = root_package_id.repr@;
            let popped = pending_before[pending_before.len() - 1];
            assert(popped == package_id);
            // the expanded package is reachable
            assert(has_key(nodes_before, package_id.repr@));
            let iw = choose|iw: int|
                0 <= iw < nodes_before.len() && nodes_before[iw].repr@ == package_id.repr@;
            assert(reachable(m, c, rootk, package_id.repr@));
            // prefix facts
            assert forall|i: int| 0 <= i < nodes_before.len() implies graph.nodes@[i]
                == nodes_before[i] by {
                assert(graph.nodes@.take(nodes_before.len() as int)[i] == graph.nodes@[i]);
            };
            // soundness and catalog membership of every node
            assert forall|i: int| 0 <= i < graph.nodes@.len() implies reachable(
                m,
                c,
                rootk,
                (#[trigger] graph.nodes@[i]).repr@,
            ) && (graph.nodes@[i].repr@ == rootk || key_in_catalog(
                metadata.packages@,
                graph.nodes@[i].repr@,
            )) by {
                if i < nodes_before.len() {
                    assert(reachable(m, c, rootk, nodes_before[i].repr@));
                } else {
                    assert(admitted_step(m, c, package_id.repr@, graph.nodes@[i].repr@));
                    lemma_reachable_step(m, c, rootk, package_id.repr@, graph.nodes@[i].repr@);
                    lemma_admitted_step_target_in_catalog(
                        m,
                        c,
                        package_id.repr@,
                        graph.nodes@[i].repr@,
                    );
                }
            };
            // the length bound
            lemma_nodes_len_bounded(graph.nodes@, metadata.packages@, rootk);
            // pending entries still name nodes
            assert forall|j: int| 0 <= j < pending_packages@.len() implies has_key(
                graph.nodes@,
                (#[trigger] pending_packages@[j]).repr@,
            ) by {
                if j < pending_before.len() - 1 {
                    assert(pending_packages@[j] == pending_before[j]);
                    assert(has_key(nodes_before, pending_before[j].repr@));
                    let w = choose|w: int|
                        0 <= w < nodes_before.len() && nodes_before[w].repr@
                            == pending_before[j].repr@;
                    assert(graph.nodes@[w] == nodes_before[w]);
                } else {
                    let off = j - (pending_before.len() - 1);
                    assert(pending_packages@[j] == graph.nodes@.skip(
                        nodes_before.len() as int,
                    )[off]);
                    assert(pending_packages@[j] == graph.nodes@[nodes_before.len() + off]);
                }
            };
            // every node is pending, or closed with all its edges stored
            assert forall|i: int| 0 <= i < graph.nodes@.len() implies has_key(
                pending_packages@,
                (#[trigger] graph.nodes@[i]).repr@,
            ) || (node_closed(m, c, graph.nodes@, graph.nodes@[i].repr@) && node_edges_complete(
                m,
                c,
                graph.nodes@,
                pg_edge_seq(graph.graph),
                graph.nodes@[i].repr@,
            )) by {
                if i < nodes_before.len() {
                    if graph.nodes@[i].repr@ == package_id.repr@ {
                        assert(node_closed(m, c, graph.nodes@, package_id.repr@));
                        assert(node_edges_complete(
                            m,
                            c,
                            graph.nodes@,
                            pg_edge_seq(graph.graph),
                            package_id.repr@,
                        ));
                    } else if has_key(pending_before, nodes_before[i].repr@) {
                        let w = choose|w: int|
                            0 <= w < pending_before.len() && pending_before[w].repr@
                                == nodes_before[i].repr@;
                        assert(w < pending_before.len() - 1);
                        assert(pending_packages@[w] == pending_before[w]);
                        assert(has_key(pending_packages@, graph.nodes@[i].repr@));
                    } else {
                        assert(node_closed(m, c, nodes_before, nodes_before[i].repr@));
                        assert forall|b: Seq<char>|
                            #[trigger] admitted_step(m, c, graph.nodes@[i].repr@, b) implies has_key(
                            graph.nodes@,
                            b,
                        ) by {
                            assert(has_key(nodes_before, b));
                            let w = choose|w: int|
                                0 <= w < nodes_before.len() && nodes_before[w].repr@ == b;
                            assert(graph.nodes@[w] == nodes_before[w]);
                        };
                        lemma_node_edges_complete_monotone(
                            m,
                            c,
                            nodes_before,
                            edges_entry,
                            graph.nodes@,
                            pg_edge_seq(graph.graph),
                            nodes_before[i].repr@,
                        );
                    }
                } else {
                    let off = i - nodes_before.len();
                    assert(pending_packages@[pending_before.len() - 1 + off]
                        == graph.nodes@.skip(nodes_before.len() as int)[off]);
                    assert(pending_packages@[pending_before.len() - 1 + off] == graph.nodes@[i]);
                    assert(has_key(pending_packages@, graph.nodes@[i].repr@));
                }
            };
            // old edges stay sound over the grown node list
            assert forall|k: int| 0 <= k < pg_edge_seq(graph.graph).len() implies edge_ok(
                m,
                c,
                graph.nodes@,
                #[trigger] pg_edge_seq(graph.graph)[k],
            ) by {
                if k < edges_entry.len() {
                    assert(pg_edge_seq(graph.graph).take(edges_entry.len() as int) == edges_entry);
                    assert(pg_edge_seq(graph.graph).take(edges_entry.len() as int)[k]
                        == pg_edge_seq(graph.graph)[k]);
                    let e = edges_entry[k];
                    assert(edge_ok(m, c, nodes_before, e));
                    assert(graph.nodes@[e.0 as int] == nodes_before[e.0 as int]);
                    assert(graph.nodes@[e.1 as int] == nodes_before[e.1 as int]);
                }
            };
            // the worklist still holds each identity at most once
            assert forall|j1: int, j2: int|
                0 <= j1 < j2 < pending_packages@.len() implies pending_packages@[j1].repr@
                != pending_packages@[j2].repr@ by {
                if j2 < pending_before.len() - 1 {
                    assert(pending_packages@[j1] == pending_before[j1]);
                    assert(pending_packages@[j2] == pending_before[j2]);
                } else if j1 < pending_before.len() - 1 {
                    let off2 = j2 - (pending_before.len() - 1);
                    assert(pending_packages@[j2] == graph.nodes@.skip(
                        nodes_before.len() as int,
                    )[off2]);
                    assert(pending_packages@[j2] == graph.nodes@[nodes_before.len() + off2]);
                    assert(pending_packages@[j1] == pending_before[j1]);
                    assert(has_key(nodes_before, pending_before[j1].repr@));
                    let w = choose|w: int|
                        0 <= w < nodes_before.len() && nodes_before[w].repr@
                            == pending_before[j1].repr@;
                    assert(graph.nodes@[w] == nodes_before[w]);
                } else {
                    let off1 = j1 - (pending_before.len() - 1);
                    let off2 = j2 - (pending_before.len() - 1);
                    assert(pending_packages@[j1] == graph.nodes@.skip(
                        nodes_before.len() as int,
                    )[off1]);
                    assert(pending_packages@[j2] == graph.nodes@.skip(
                        nodes_before.len() as int,
                    )[off2]);
                    assert(pending_packages@[j1] == graph.nodes@[nodes_before.len() + off1]);
                    assert(pending_packages@[j2] == graph.nodes@[nodes_before.len() + off2]);
                }
            };
            // the expanded identity is no longer queued
            let a0 = package_id.repr@;
            assert(!has_key(pending_packages@, a0)) by {
                if has_key(pending_packages@, a0) {
                    let j = choose|j: int|
                        0 <= j < pending_packages@.len() && pending_packages@[j].repr@ == a0;
                    if j < pending_before.len() - 1 {
                        assert(pending_packages@[j] == pending_before[j]);
                        assert(pending_before[j].repr@ == pending_before[pending_before.len()
                            - 1].repr@);
                        assert(false);
                    } else {
                        let off = j - (pending_before.len() - 1);
                        assert(pending_packages@[j] == graph.nodes@.skip(
                            nodes_before.len() as int,
                        )[off]);
                        assert(pending_packages@[j] == graph.nodes@[nodes_before.len() + off]);
                        assert(graph.nodes@[iw] == nodes_before[iw]);
                        assert(graph.nodes@[iw].repr@ != graph.nodes@[nodes_before.len()
                            + off].repr@);
                        assert(false);
                    }
                }
            };
            // the count of every labelled edge moved by exactly this
            // expansion's share
            assert forall|a: Seq<char>, b: Seq<char>, kind: DependencyKind|
                #[trigger] edge_count(graph.nodes@, pg_edge_seq(graph.graph), a, b, kind)
                    == edge_count(nodes_before, edges_entry, a, b, kind) + (if a == a0 {
                    spec_out_count(m, c, a, b, kind)
                } else {
                    0nat
                }) by {
                match lookup_package(metadata.packages@, a0) {
                    Some(p) => {},
                    None => {
                        assert(graph.nodes@ == nodes_before);
                        assert(pg_edge_seq(graph.graph) == edges_entry);
                        assert(spec_out_count(m, c, a0, b, kind) == 0);
                    },
                }
            };
            assert forall|a: Seq<char>, b: Seq<char>, kind: DependencyKind|
                !has_key(pending_packages@, a) implies #[trigger] edge_count(
                graph.nodes@,
                pg_edge_seq(graph.graph),
                a,
                b,
                kind,
            ) == spec_edge_count(m, c, graph.nodes@, a, b, kind) by {
                if a == a0 {
                    assert(has_key(pending_before, a));
                    assert(edge_count(nodes_before, edges_entry, a, b, kind) == 0);
                    assert(graph.nodes@[iw].repr@ == a);
                    assert(has_key(graph.nodes@, a));
                } else {
                    assert(!has_key(pending_before, a)) by {
                        if has_key(pending_before, a) {
                            let j = choose|j: int|
                                0 <= j < pending_before.len() && pending_before[j].repr@ == a;
                            assert(j < pending_before.len() - 1);
                            assert(pending_packages@[j] == pending_before[j]);
                            assert(has_key(pending_packages@, a));
                            assert(false);
                        }
                    };
                    assert(edge_count(nodes_before, edges_entry, a, b, kind) == spec_edge_count(
                        m,
                        c,
                        nodes_before,
                        a,
                        b,
                        kind,
                    ));
                    if has_key(nodes_before, a) {
                        let w = choose|w: int|
                            0 <= w < nodes_before.len() && nodes_before[w].repr@ == a;
                        assert(graph.nodes@[w] == nodes_before[w]);
                        assert(has_key(graph.nodes@, a));
                    } else {
                        if has_key(graph.nodes@, a) {
                            let w = choose|w: int|
                                0 <= w < graph.nodes@.len() && graph.nodes@[w].repr@ == a;
                            assert(w >= nodes_before.len()) by {
                                if w < nodes_before.len() {
                                    assert(graph.nodes@[w] == nodes_before[w]);
                                    assert(false);
                                }
                            };
                            let off = w - nodes_before.len();
                            assert(pending_packages@[pending_before.len() - 1 + off]
                                == graph.nodes@.skip(nodes_before.len() as int)[off]);
                            assert(pending_packages@[pending_before.len() - 1 + off]
                                == graph.nodes@[w]);
                            assert(has_key(pending_packages@, a));
                            assert(false);
                        }
                    }
                }
            };
            assert forall|a: Seq<char>, b: Seq<char>, kind: DependencyKind|
                has_key(pending_packages@, a) implies #[trigger] edge_count(
                graph.nodes@,
                pg_edge_seq(graph.graph),
                a,
                b,
                kind,
            ) == 0 by {
                let j = choose|j: int|
                    0 <= j < pending_packages@.len() && pending_packages@[j].repr@ == a;
                assert(a != a0);
                if j < pending_before.len() - 1 {
                    assert(pending_packages@[j] == pending_before[j]);
                    assert(has_key(pending_before, a));
                    assert(edge_count(nodes_before, edges_entry, a, b, kind) == 0);
                } else {
                    let off = j - (pending_before.len() - 1);
                    assert(pending_packages@[j] == graph.nodes@.skip(
                        nodes_before.len() as int,
                    )[off]);
                    assert(pending_packages@[j] == graph.nodes@[nodes_before.len() + off]);
                    assert(!has_key(nodes_before, a)) by {
                        if has_key(nodes_before, a) {
                            let w = choose|w: int|
                                0 <= w < nodes_before.len() && nodes_before[w].repr@ == a;
                            assert(graph.nodes@[w] == nodes_before[w]);
                            assert(graph.nodes@[w].repr@ != graph.nodes@[nodes_before.len()
                                + off].repr@);
                            assert(false);
                        }
                    };
                    assert(!has_key(pending_before, a)) by {
                        if has_key(pending_before, a) {
                            let jj = choose|jj: int|
                                0 <= jj < pending_before.len() && pending_before[jj].repr@ == a;
                            assert(has_key(nodes_before, pending_before[jj].repr@));
                            assert(false);
                        }
                    };
                    assert(edge_count(nodes_before, edges_entry, a, b, kind) == spec_edge_count(
                        m,
                        c,
                        nodes_before,
                        a,
                        b,
                        kind,
                    ));
                    assert(spec_edge_count(m, c, nodes_before, a, b, kind) == 0);
                }
            };
        }
        let ghost a0 = package_id.repr@;
        if !resolved {
            omitted_packages.push(package_id);
        }
        proof {
            // omission bookkeeping: every recorded omission is a node the
            // catalog cannot resolve, and every unresolvable node is queued
            // or recorded
            assert forall|j: int| 0 <= j < omitted_packages@.len() implies has_key(
                graph.nodes@,
                (#[trigger] omitted_packages@[j]).repr@,
            ) && lookup_package(metadata.packages@, omitted_packages@[j].repr@) is None by {
                if j < omitted_before.len() {
                    assert(omitted_packages@[j] == omitted_before[j]);
                    assert(has_key(nodes_before, omitted_before[j].repr@));
                    let w = choose|w: int|
                        0 <= w < nodes_before.len() && nodes_before[w].repr@
                            == omitted_before[j].repr@;
                    assert(graph.nodes@[w] == nodes_before[w]);
                } else {
                    assert(omitted_packages@[j].repr@ == a0);
                    assert(has_key(nodes_before, a0));
                    let w = choose|w: int|
                        0 <= w < nodes_before.len() && nodes_before[w].repr@ == a0;
                    assert(graph.nodes@[w] == nodes_before[w]);
                }
            };
            assert forall|i: int|
                0 <= i < graph.nodes@.len() && lookup_package(
                    metadata.packages@,
                    (#[trigger] graph.nodes@[i]).repr@,
                ) is None implies has_key(pending_packages@, graph.nodes@[i].repr@) || has_key(
                omitted_packages@,
                graph.nodes@[i].repr@,
            ) by {
                if graph.nodes@[i].repr@ == a0 {
                    assert(!resolved);
                    assert(omitted_packages@[omitted_packages@.len() - 1].repr@ == a0);
                    assert(has_key(omitted_packages@, a0));
                } else if i < nodes_before.len() {
                    assert(graph.nodes@[i] == nodes_before[i]);
                    if has_key(pending_before, nodes_before[i].repr@) {
                        let w = choose|w: int|
                            0 <= w < pending_before.len() && pending_before[w].repr@
                                == nodes_before[i].repr@;
                        assert(w < pending_before.len() - 1);
                        assert(pending_packages@[w] == pending_before[w]);
                        assert(has_key(pending_packages@, graph.nodes@[i].repr@));
                    } else if has_key(omitted_before, nodes_before[i].repr@) {
                        let w = choose|w: int|
                            0 <= w < omitted_before.len() && omitted_before[w].repr@
                                == nodes_before[i].repr@;
                        assert(omitted_packages@[w] == omitted_before[w]);
                        assert(has_key(omitted_packages@, graph.nodes@[i].repr@));
                    }
                } else {
                    let off = i - nodes_before.len();
                    assert(pending_packages@[pending_before.len() - 1 + off]
                        == graph.nodes@.skip(nodes_before.len() as int)[off]);
                    assert(pending_packages@[pending_before.len() - 1 + off] == graph.nodes@[i]);
                    assert(has_key(pending_packages@, graph.nodes@[i].repr@));
                }
            };
        }
    }
    proof {
        assert forall|i: int| 0 <= i < graph.nodes@.len() implies node_closed(
            *metadata,
            *graph_configuration,
            graph.nodes@,
            (#[trigger] graph.nodes@[i]).repr@,
        ) && node_edges_complete(
            *metadata,
            *graph_configuration,
            graph.nodes@,
            pg_edge_seq(graph.graph),
            graph.nodes@[i].repr@,
        ) by {
            assert(!has_key(pending_packages@, graph.nodes@[i].repr@));
        };
    }
    (graph, omitted_packages)
}

/// Law: a built graph holds exactly the identities reachable from the root
/// under the inclusion policy.
pub proof fn lemma_built_graph_nodes_exactly_reachable(
    metadata: Metadata,
    cfg: GraphConfiguration,
    root: PackageId,
    g: Graph,
)
    requires
        built_graph_ok(metadata, cfg, root, g),
    ensures
        forall|k: Seq<char>| has_key(g.nodes@, k) <==> reachable(metadata, cfg, root.repr@, k),
{
    assert forall|k: Seq<char>| has_key(g.nodes@, k) implies reachable(
        metadata,
        cfg,
        root.repr@,
        k,
    ) by {
        let i = choose|i: int| 0 <= i < g.nodes@.len() && g.nodes@[i].repr@ == k;
        assert(reachable(metadata, cfg, root.repr@, g.nodes@[i].repr@));
    }
    assert forall|k: Seq<char>| reachable(metadata, cfg, root.repr@, k) implies has_key(
        g.nodes@,
        k,
    ) by {
        let p = choose|p: Seq<Seq<char>>|
            #![auto]
            p.len() >= 1 && p[0] == root.repr@ && p.last() == k && admitted_path(metadata, cfg, p);
        assert(g.nodes@[0].repr@ == root.repr@);
        assert(has_key(g.nodes@, p[0]));
        lemma_path_end_has_node(metadata, cfg, g.nodes@, p);
    }
}

/// Law: no duplicate nodes — every identity reachable from the root has a
/// node, and no identity has two.
pub proof fn lemma_built_graph_no_duplicate_nodes(
    metadata: Metadata,
    cfg: GraphConfiguration,
    root: PackageId,
    g: Graph,
)
    requires
        built_graph_ok(metadata, cfg, root, g),
    ensures
        forall|k: Seq<char>| reachable(metadata, cfg, root.repr@, k) ==> has_key(g.nodes@, k),
        forall|i: int, j: int|
            0 <= i < g.nodes@.len() && 0 <= j < g.nodes@.len() && g.nodes@[i].repr@
                == g.nodes@[j].repr@ ==> i == j,
{
    lemma_built_graph_nodes_exactly_reachable(metadata, cfg, root, g);
    assert forall|i: int, j: int|
        0 <= i < g.nodes@.len() && 0 <= j < g.nodes@.len() && g.nodes@[i].repr@
            == g.nodes@[j].repr@ implies i == j by {
        if i < j {
            assert(g.nodes@[i].repr@ != g.nodes@[j].repr@);
        } else if j < i {
            assert(g.nodes@[j].repr@ != g.nodes@[i].repr@);
        }
    }
}

/// Law: determinism — two graphs built from the same catalog, policy and
/// root hold exactly the same node identities, whatever order the worklist
/// was drained in.
pub proof fn lemma_built_graph_determinism(
    metadata: Metadata,
    cfg: GraphConfiguration,
    root: PackageId,
    g1: Graph,
    g2: Graph,
)
    requires
        built_graph_ok(metadata, cfg, root, g1),
        built_graph_ok(metadata, cfg, root, g2),
    ensures
        forall|k: Seq<char>| has_key(g1.nodes@, k) <==> has_key(g2.nodes@, k),
{
    lemma_built_graph_nodes_exactly_reachable(metadata, cfg, root, g1);
    lemma_built_graph_nodes_exactly_reachable(metadata, cfg, root, g2);
}

/// A labelled edge of one built graph is stored in another built graph over
/// the same catalog, policy and root.
proof fn lemma_edge_present_transfer(
    metadata: Metadata,
    cfg: GraphConfiguration,
    root: PackageId,
    g1: Graph,
    g2: Graph,
    a: Seq<char>,
    b: Seq<char>,
    kind: DependencyKind,
)
    requires
        built_graph_ok(metadata, cfg, root, g1),
        built_graph_ok(metadata, cfg, root, g2),
        edge_present(g1.nodes@, pg_edge_seq(g1.graph), a, b, kind),
    ensures
        edge_present(g2.nodes@, pg_edge_seq(g2.graph), a, b, kind),
{
    let edges1 = pg_edge_seq(g1.graph);
    let k = choose|k: int|
        0 <= k < edges1.len() && ((#[trigger] edges1[k]).0 as int) < g1.nodes@.len() && (edges1[k].1
            as int) < g1.nodes@.len() && g1.nodes@[edges1[k].0 as int].repr@ == a
            && g1.nodes@[edges1[k].1 as int].repr@ == b && edges1[k].2 == kind;
    let e = edges1[k];
    assert(edge_ok(metadata, cfg, g1.nodes@, e));
    lemma_built_graph_determinism(metadata, cfg, root, g1, g2);
    assert(has_key(g1.nodes@, a));
    assert(has_key(g2.nodes@, a));
    let i2 = choose|i2: int| 0 <= i2 < g2.nodes@.len() && g2.nodes@[i2].repr@ == a;
    match lookup_package(metadata.packages@, a) {
        Some(p) => {
            let targets = dep_targets(metadata.packages@, p.dependencies@);
            let (t, u) = choose|t: int, u: int|
                0 <= t < targets.len() && targets[t].repr@ == b && 0 <= u && u < admitted_deps(
                    metadata,
                    cfg,
                    targets[t].repr@,
                    p.dependencies@,
                ).len() && (#[trigger] admitted_deps(
                    metadata,
                    cfg,
                    targets[t].repr@,
                    p.dependencies@,
                )[u]).kind == kind;
            assert(node_edges_complete(
                metadata,
                cfg,
                g2.nodes@,
                pg_edge_seq(g2.graph),
                g2.nodes@[i2].repr@,
            ));
            assert(edge_present(
                g2.nodes@,
                pg_edge_seq(g2.graph),
                a,
                targets[t].repr@,
                admitted_deps(metadata, cfg, targets[t].repr@, p.dependencies@)[u].kind,
            ));
        },
        None => {
            assert(false);
        },
    }
}

/// Law: determinism of the edges — two graphs built from the same catalog,
/// policy and root store edges between exactly the same pairs of identities
/// with exactly the same labels, whatever order the worklist was drained in.
pub proof fn lemma_built_graph_edge_determinism(
    metadata: Metadata,
    cfg: GraphConfiguration,
    root: PackageId,
    g1: Graph,
    g2: Graph,
)
    requires
        built_graph_ok(metadata, cfg, root, g1),
        built_graph_ok(metadata, cfg, root, g2),
    ensures
        forall|a: Seq<char>, b: Seq<char>, kind: DependencyKind|
            edge_present(g1.nodes@, pg_edge_seq(g1.graph), a, b, kind) <==> edge_present(
                g2.nodes@,
                pg_edge_seq(g2.graph),
                a,
                b,
                kind,
            ),
{
    assert forall|a: Seq<char>, b: Seq<char>, kind: DependencyKind|
        #[trigger] edge_present(g1.nodes@, pg_edge_seq(g1.graph), a, b, kind) implies edge_present(
        g2.nodes@,
        pg_edge_seq(g2.graph),
        a,
        b,
        kind,
    ) by {
        lemma_edge_present_transfer(metadata, cfg, root, g1, g2, a, b, kind);
    }
    assert forall|a: Seq<char>, b: Seq<char>, kind: DependencyKind|
        #[trigger] edge_present(g2.nodes@, pg_edge_seq(g2.graph), a, b, kind) implies edge_present(
        g1.nodes@,
        pg_edge_seq(g1.graph),
        a,
        b,
        kind,
    ) by {
        lemma_edge_present_transfer(metadata, cfg, root, g2, g1, a, b, kind);
    }
}

/// Law: determinism of the edge multiset — two graphs built from the same
/// catalog, policy and root store every labelled edge the same number of
/// times, parallel duplicates included, whatever order the worklist was
/// drained in. The family of `edge_count` values over all identity pairs and
/// labels is the graph's labelled-edge multiset.
pub proof fn lemma_built_graph_edge_multiset_determinism(
    metadata: Metadata,
    cfg: GraphConfiguration,
    root: PackageId,
    g1: Graph,
    g2: Graph,
)
    requires
        built_graph_ok(metadata, cfg, root, g1),
        built_graph_ok(metadata, cfg, root, g2),
    ensures
        forall|a: Seq<char>, b: Seq<char>, kind: DependencyKind|
            #[trigger] edge_count(g1.nodes@, pg_edge_seq(g1.graph), a, b, kind) == edge_count(
                g2.nodes@,
                pg_edge_seq(g2.graph),
                a,
                b,
                kind,
            ),
{
    lemma_built_graph_determinism(metadata, cfg, root, g1, g2);
    assert forall|a: Seq<char>, b: Seq<char>, kind: DependencyKind|
        #[trigger] edge_count(g1.nodes@, pg_edge_seq(g1.graph), a, b, kind) == edge_count(
        g2.nodes@,
        pg_edge_seq(g2.graph),
        a,
        b,
        kind,
    ) by {
        assert(has_key(g1.nodes@, a) == has_key(g2.nodes@, a));
        assert(edge_count(g2.nodes@, pg_edge_seq(g2.graph), a, b, kind) == spec_edge_count(
            metadata,
            cfg,
            g2.nodes@,
            a,
            b,
            kind,
        ));
    }
}

} // verus!
