//! The dependency graph of a recipe's steps, kept in a petgraph `DiGraph`:
//! building it, ordering it, finding the steps that may run, and the data
//! that the flow view draws.
use vstd::prelude::*;
use petgraph::graph::DiGraph;
use petgraph::graph::NodeIndex;
use petgraph::Direction;

use crate::error::AppError;
use crate::recipe::schema::RecipeStep;
use crate::text::{str_eq, views, sort_strings, strictly_sorted, contains_str, clone_strings, clone_opt_string};

verus! {

// ---------------------------------------------------------------------------
// petgraph, as the library uses it
// ---------------------------------------------------------------------------

#[verifier::external_type_specification]
#[verifier::external_body]
#[verifier::reject_recursive_types(N)]
#[verifier::reject_recursive_types(E)]
#[verifier::reject_recursive_types(Ty)]
#[verifier::reject_recursive_types(Ix)]
pub struct ExGraph<N, E, Ty, Ix>(petgraph::graph::Graph<N, E, Ty, Ix>);

#[verifier::external_type_specification]
#[verifier::external_body]
pub struct ExDirected(petgraph::Directed);

/// The node weights of a graph, by node index.
pub uninterp spec fn dag_nodes(g: DiGraph<String, ()>) -> Seq<Seq<char>>;

/// The edges of a graph, as (source index, target index), in the order they
/// were added.
pub uninterp spec fn dag_edges(g: DiGraph<String, ()>) -> Seq<(nat, nat)>;

/// `order` lists every node of a graph with `n` nodes once, and puts the
/// source of each edge before its target.
pub open spec fn is_topological_order(n: nat, edges: Seq<(nat, nat)>, order: Seq<nat>) -> bool {
    &&& order.len() == n
    &&& order.no_duplicates()
    &&& forall|k: int| 0 <= k < order.len() ==> #[trigger] order[k] < n
    &&& forall|e: int| 0 <= e < edges.len() ==> #[trigger] comes_before(order, edges[e])
}

/// The source of `edge` occurs in `order` before its target.
pub open spec fn comes_before(order: Seq<nat>, edge: (nat, nat)) -> bool {
    exists|i: int, j: int|
        #![trigger order[i], order[j]]
        0 <= i < j < order.len() && order[i] == edge.0 && order[j] == edge.1
}

/// The edge list holds an edge from `a` to `b`.
pub open spec fn has_edge(edges: Seq<(nat, nat)>, a: nat, b: nat) -> bool {
    exists|e: int| 0 <= e < edges.len() && #[trigger] edges[e] == (a, b)
}

/// A graph without cycles: one that has a topological order.
pub open spec fn is_acyclic(n: nat, edges: Seq<(nat, nat)>) -> bool {
    exists|order: Seq<nat>| is_topological_order(n, edges, order)
}

/// `DiGraph::new`: a graph with no nodes and no edges.
#[verifier::external_body]
fn dag_new() -> (g: DiGraph<String, ()>)
    ensures
        dag_nodes(g) == Seq::<Seq<char>>::empty(),
        dag_edges(g) == Seq::<(nat, nat)>::empty(),
{
    DiGraph::new()
}

/// `Graph::add_node`: appends a node with the given weight and returns its
/// index, the former node count. It panics when the count reaches the index
/// type's maximum, `u32::MAX`.
#[verifier::external_body]
fn dag_add_node(g: &mut DiGraph<String, ()>, weight: String) -> (idx: usize)
    requires
        dag_nodes(*old(g)).len() < u32::MAX,
    ensures
        dag_nodes(*final(g)) == dag_nodes(*old(g)).push(weight@),
        dag_edges(*final(g)) == dag_edges(*old(g)),
        idx == dag_nodes(*old(g)).len(),
{
    g.add_node(weight).index()
}

/// `Graph::add_edge`: appends an edge from `a` to `b`. It panics when a
/// node does not exist or the edge count reaches `u32::MAX`.
#[verifier::external_body]
fn dag_add_edge(g: &mut DiGraph<String, ()>, a: usize, b: usize)
    requires
        a < dag_nodes(*old(g)).len(),
        b < dag_nodes(*old(g)).len(),
        dag_edges(*old(g)).len() < u32::MAX,
    ensures
        dag_nodes(*final(g)) == dag_nodes(*old(g)),
        dag_edges(*final(g)) == dag_edges(*old(g)).push((a as nat, b as nat)),
{
    g.add_edge(NodeIndex::new(a), NodeIndex::new(b), ());
}

/// `petgraph::algo::is_cyclic_directed`: whether the graph holds a cycle,
/// that is, whether it has no topological order.
#[verifier::external_body]
fn dag_is_cyclic(g: &DiGraph<String, ()>) -> (r: bool)
    ensures
        r == !is_acyclic(dag_nodes(*g).len(), dag_edges(*g)),
{
    petgraph::algo::is_cyclic_directed(g)
}

/// The node order that `petgraph::algo::toposort` gives for a graph with
/// these nodes and these edges, added in this order.
pub uninterp spec fn toposort_order(nodes: Seq<Seq<char>>, edges: Seq<(nat, nat)>) -> Seq<nat>;

/// The sources of the edges into node `i`, one per edge, the most recently
/// added edge first.
pub open spec fn incoming_sources(edges: Seq<(nat, nat)>, i: nat) -> Seq<nat>
    decreases edges.len(),
{
    if edges.len() == 0 {
        Seq::empty()
    } else {
        let rest = incoming_sources(edges.drop_last(), i);
        if edges.last().1 == i {
            seq![edges.last().0] + rest
        } else {
            rest
        }
    }
}

/// `petgraph::algo::toposort`: a topological order of the node indices, or
/// `None` when the graph has a cycle. Which of the valid orders comes back
/// is the crate's choice, named `toposort_order`.
#[verifier::external_body]
fn dag_toposort(g: &DiGraph<String, ()>) -> (r: Option<Vec<usize>>)
    ensures
        r is Some <==> is_acyclic(dag_nodes(*g).len(), dag_edges(*g)),
        r matches Some(v) ==> is_topological_order(
            dag_nodes(*g).len(),
            dag_edges(*g),
            v@.map_values(|x: usize| x as nat),
        ),
        r matches Some(v) ==> v@.map_values(|x: usize| x as nat) == toposort_order(
            dag_nodes(*g),
            dag_edges(*g),
        ),
{
    match petgraph::algo::toposort(g, None) {
        Ok(v) => Some(v.into_iter().map(|n| n.index()).collect()),
        Err(_) => None,
    }
}

/// `Graph::neighbors_directed(_, Incoming)`: the sources of the edges into
/// node `i`, one per edge, listed in reverse order of the edges' addition
/// (as the crate documents for a directed graph).
#[verifier::external_body]
fn dag_predecessors(g: &DiGraph<String, ()>, i: usize) -> (r: Vec<usize>)
    requires
        i < dag_nodes(*g).len(),
    ensures
        r@.map_values(|x: usize| x as nat) == incoming_sources(dag_edges(*g), i as nat),
{
    g.neighbors_directed(NodeIndex::new(i), Direction::Incoming).map(|n| n.index()).collect()
}

proof fn lemma_incoming_sources(edges: Seq<(nat, nat)>, i: nat)
    ensures
        forall|k: int|
            0 <= k < incoming_sources(edges, i).len() ==> #[trigger] has_edge(
                edges,
                incoming_sources(edges, i)[k],
                i,
            ),
        forall|e: int|
            0 <= e < edges.len() && edges[e].1 == i ==> incoming_sources(edges, i).contains(
                #[trigger] edges[e].0,
            ),
    decreases edges.len(),
{
    if edges.len() > 0 {
        let pre = edges.drop_last();
        lemma_incoming_sources(pre, i);
        let rest = incoming_sources(pre, i);
        let s = incoming_sources(edges, i);
        assert forall|k: int| 0 <= k < s.len() implies #[trigger] has_edge(edges, s[k], i) by {
            if edges.last().1 == i && k == 0 {
                assert(edges[edges.len() - 1] == (s[k], i));
            } else {
                let k2 = if edges.last().1 == i { k - 1 } else { k };
                assert(s[k] == rest[k2]);
                assert(has_edge(pre, rest[k2], i));
                let e = choose|e: int| 0 <= e < pre.len() && #[trigger] pre[e] == (rest[k2], i);
                assert(edges[e] == pre[e]);
            }
        }
        assert forall|e: int| 0 <= e < edges.len() && edges[e].1 == i implies s.contains(#[trigger] edges[e].0) by {
            if e == edges.len() - 1 {
                assert(s[0] == edges[e].0);
            } else {
                assert(edges[e] == pre[e]);
                assert(rest.contains(pre[e].0));
                let m = choose|m: int| 0 <= m < rest.len() && rest[m] == pre[e].0;
                if edges.last().1 == i {
                    assert(s[m + 1] == rest[m]);
                } else {
                    assert(s[m] == rest[m]);
                }
            }
        }
    }
}

/// The sources of the edges into node `i`: each has an edge into `i`, and
/// the source of every edge into `i` is among them.
fn predecessors(g: &DiGraph<String, ()>, i: usize) -> (r: Vec<usize>)
    requires
        i < dag_nodes(*g).len(),
    ensures
        forall|k: int|
            0 <= k < r@.len() ==> #[trigger] has_edge(dag_edges(*g), r@[k] as nat, i as nat),
        forall|e: int|
            0 <= e < dag_edges(*g).len() && dag_edges(*g)[e].1 == i ==> r@.contains(
                dag_edges(*g)[e].0 as usize,
            ),
{
    let r = dag_predecessors(g, i);
    proof {
        let edges = dag_edges(*g);
        let s = incoming_sources(edges, i as nat);
        lemma_incoming_sources(edges, i as nat);
        assert forall|k: int| 0 <= k < r@.len() implies #[trigger] has_edge(edges, r@[k] as nat, i as nat) by {
            assert(r@.map_values(|x: usize| x as nat)[k] == r@[k] as nat);
            assert(has_edge(edges, s[k], i as nat));
        }
        assert forall|e: int| 0 <= e < edges.len() && edges[e].1 == i implies r@.contains(edges[e].0 as usize) by {
            assert(s.contains(edges[e].0));
            let m = choose|m: int| 0 <= m < s.len() && s[m] == edges[e].0;
            assert(r@.map_values(|x: usize| x as nat)[m] == r@[m] as nat);
            assert(r@[m] == edges[e].0 as usize);
        }
    }
    r
}

// ---------------------------------------------------------------------------
// The graph of a recipe's steps
// ---------------------------------------------------------------------------

/// The ids of a list of steps, in order.
pub open spec fn step_ids(steps: Seq<RecipeStep>) -> Seq<Seq<char>> {
    steps.map_values(|s: RecipeStep| s.id@)
}

/// The index of the last occurrence of `id` in `ids`, or -1 when it does not
/// occur. A name that several steps share stands for the last of them.
pub open spec fn last_index_of(ids: Seq<Seq<char>>, id: Seq<char>) -> int
    decreases ids.len(),
{
    if ids.len() == 0 {
        -1
    } else if ids.last() == id {
        ids.len() - 1
    } else {
        last_index_of(ids.drop_last(), id)
    }
}

/// The edges that one step contributes: one per dependency, from the
/// dependency to the step.
pub open spec fn step_edges(step: RecipeStep, ids: Seq<Seq<char>>) -> Seq<(nat, nat)> {
    views(step.depends_on@).map_values(
        |d: Seq<char>| (last_index_of(ids, d) as nat, last_index_of(ids, step.id@) as nat),
    )
}

/// The edges of the whole step list, step by step and dependency by
/// dependency.
pub open spec fn dependency_edges(steps: Seq<RecipeStep>, ids: Seq<Seq<char>>) -> Seq<(nat, nat)>
    decreases steps.len(),
{
    if steps.len() == 0 {
        Seq::empty()
    } else {
        dependency_edges(steps.drop_last(), ids) + step_edges(steps.last(), ids)
    }
}

/// The first dependency in `deps` that names no step.
pub open spec fn first_missing(deps: Seq<Seq<char>>, ids: Seq<Seq<char>>) -> Option<Seq<char>>
    decreases deps.len(),
{
    if deps.len() == 0 {
        None
    } else {
        match first_missing(deps.drop_last(), ids) {
            Some(d) => Some(d),
            None => if ids.contains(deps.last()) {
                None
            } else {
                Some(deps.last())
            },
        }
    }
}

/// The first (step id, dependency) pair, in step order, whose dependency
/// names no step.
pub open spec fn first_unknown_dependency(steps: Seq<RecipeStep>, ids: Seq<Seq<char>>) -> Option<
    (Seq<char>, Seq<char>),
>
    decreases steps.len(),
{
    if steps.len() == 0 {
        None
    } else {
        match first_unknown_dependency(steps.drop_last(), ids) {
            Some(p) => Some(p),
            None => match first_missing(views(steps.last().depends_on@), ids) {
                Some(d) => Some((steps.last().id@, d)),
                None => None,
            },
        }
    }
}

/// The message of the error for a dependency that names no step.
pub open spec fn unknown_dependency_message(step: Seq<char>, dep: Seq<char>) -> Seq<char> {
    "step '"@ + step + "' depends on unknown step '"@ + dep + "'"@
}

/// The message of the error for a cyclic step graph.
pub open spec fn cycle_message() -> Seq<char> {
    "circular dependency detected in step graph"@
}

/// A `RecipeParseError` with an empty path and the given message.
pub open spec fn is_graph_error(e: AppError, message: Seq<char>) -> bool {
    e matches AppError::RecipeParseError { path, message: m } && path@ == Seq::<char>::empty() && m@
        == message
}

/// The layer of each node: 0 for a node without dependencies, else one more
/// than the highest layer among its dependencies.
pub open spec fn is_layering(n: nat, edges: Seq<(nat, nat)>, layer: Seq<nat>) -> bool {
    &&& layer.len() == n
    &&& forall|j: int| 0 <= j < n ==> #[trigger] layer_fits(edges, layer, j)
}

pub open spec fn layer_fits(edges: Seq<(nat, nat)>, layer: Seq<nat>, j: int) -> bool {
    &&& forall|e: int|
        0 <= e < edges.len() && (#[trigger] edges[e]).1 == j ==> layer[edges[e].0 as int] + 1
            <= layer[j]
    &&& (exists|e: int| 0 <= e < edges.len() && (#[trigger] edges[e]).1 == j) ==> (exists|e: int|
        0 <= e < edges.len() && (#[trigger] edges[e]).1 == j && layer[edges[e].0 as int] + 1
            == layer[j])
    &&& (forall|e: int| 0 <= e < edges.len() ==> (#[trigger] edges[e]).1 != j) ==> layer[j] == 0
}

/// Directed acyclic graph of recipe steps: node `i` is the `i`-th step, and
/// an edge runs from each dependency to the step that depends on it.
pub struct TaskGraph {
    graph: DiGraph<String, ()>,
    ids: Vec<String>,
}

/// A node in the task graph, used for visualisation.
#[derive(Debug)]
pub struct TaskGraphNode {
    pub id: String,
    pub name: String,
    pub description: Option<String>,
    /// Zero-based layer index (for layout hints).
    pub layer: usize,
    pub depends_on: Vec<String>,
}

/// Graph data for the flow view.
#[derive(Debug)]
pub struct TaskGraphData {
    pub nodes: Vec<TaskGraphNode>,
    pub edges: Vec<TaskGraphEdge>,
}

/// One dependency edge, drawn from `source` to `target`.
#[derive(Debug)]
pub struct TaskGraphEdge {
    pub id: String,
    pub source: String,
    pub target: String,
}

/// The (dependency, step) id pairs of a step list, step by step.
pub open spec fn edge_pairs(steps: Seq<RecipeStep>) -> Seq<(Seq<char>, Seq<char>)>
    decreases steps.len(),
{
    if steps.len() == 0 {
        Seq::empty()
    } else {
        edge_pairs(steps.drop_last()) + views(steps.last().depends_on@).map_values(
            |d: Seq<char>| (d, steps.last().id@),
        )
    }
}

/// For each entry of a topological order whose id some step in `steps`
/// carries, the index of the last such step.
pub open spec fn drawn_steps(order: Seq<nat>, ids: Seq<Seq<char>>, steps: Seq<RecipeStep>) -> Seq<
    int,
>
    decreases order.len(),
{
    if order.len() == 0 {
        Seq::empty()
    } else {
        let prefix = drawn_steps(order.drop_last(), ids, steps);
        let k = last_index_of(step_ids(steps), ids[order.last() as int]);
        if k >= 0 {
            prefix.push(k)
        } else {
            prefix
        }
    }
}

/// The node for step `s` at the given layer.
pub open spec fn node_matches(node: TaskGraphNode, s: RecipeStep, layer: nat) -> bool {
    &&& node.id@ == s.id@
    &&& node.name@ == s.name@
    &&& node.description == s.description
    &&& node.layer == layer
    &&& views(node.depends_on@) == views(s.depends_on@)
}

pub proof fn lemma_last_index_of(ids: Seq<Seq<char>>, id: Seq<char>)
    ensures
        last_index_of(ids, id) < ids.len(),
        last_index_of(ids, id) >= -1,
        last_index_of(ids, id) == -1 <==> !ids.contains(id),
        last_index_of(ids, id) >= 0 ==> ids[last_index_of(ids, id)] == id,
        forall|m: int| last_index_of(ids, id) < m < ids.len() ==> #[trigger] ids[m] != id,
    decreases ids.len(),
{
    if ids.len() > 0 {
        lemma_last_index_of(ids.drop_last(), id);
        if ids.last() != id {
            if ids.contains(id) {
                let k = choose|k: int| 0 <= k < ids.len() && ids[k] == id;
                assert(ids.drop_last()[k] == id);
            }
            if ids.drop_last().contains(id) {
                let k = choose|k: int| 0 <= k < ids.drop_last().len() && ids.drop_last()[k] == id;
                assert(ids[k] == id);
            }
            let l = last_index_of(ids, id);
            assert forall|m: int| l < m < ids.len() implies ids[m] != id by {
                if m < ids.len() - 1 {
                    assert(ids.drop_last()[m] == ids[m]);
                }
            }
        } else {
            assert(ids[ids.len() - 1] == id);
        }
    }
}

/// The index of the last string in `ids` equal to `id`.
fn last_index(ids: &Vec<String>, id: &str) -> (r: Option<usize>)
    ensures
        r is Some <==> views(ids@).contains(id@),
        r matches Some(k) ==> k as int == last_index_of(views(ids@), id@),
{
    proof {
        lemma_last_index_of(views(ids@), id@);
    }
    let mut i: usize = ids.len();
    while i > 0
        invariant
            i <= ids.len(),
            forall|m: int| i <= m < ids.len() ==> ids@[m]@ != id@,
        decreases i,
    {
        i = i - 1;
        proof {
            lemma_last_index_of(views(ids@), id@);
        }
        if str_eq(ids[i].as_str(), id) {
            proof {
                let l = last_index_of(views(ids@), id@);
                assert(views(ids@)[i as int] == id@);
                assert(views(ids@).contains(id@));
                if l != i {
                    if l < i {
                        assert(views(ids@)[i as int] != id@);
                    } else {
                        assert(ids@[l]@ != id@);
                    }
                }
            }
            return Some(i);
        }
    }
    proof {
        if views(ids@).contains(id@) {
            let k = choose|k: int| 0 <= k < views(ids@).len() && views(ids@)[k] == id@;
            assert(ids@[k]@ != id@);
        }
    }
    None
}

/// The index of the last step in `steps` whose id is `id`.
fn last_step_index(steps: &Vec<RecipeStep>, id: &str) -> (r: Option<usize>)
    ensures
        r is Some <==> step_ids(steps@).contains(id@),
        r matches Some(k) ==> k as int == last_index_of(step_ids(steps@), id@),
{
    proof {
        lemma_last_index_of(step_ids(steps@), id@);
    }
    let mut i: usize = steps.len();
    while i > 0
        invariant
            i <= steps.len(),
            forall|m: int| i <= m < steps.len() ==> steps@[m].id@ != id@,
        decreases i,
    {
        i = i - 1;
        proof {
            lemma_last_index_of(step_ids(steps@), id@);
        }
        if str_eq(steps[i].id.as_str(), id) {
            proof {
                let l = last_index_of(step_ids(steps@), id@);
                assert(step_ids(steps@)[i as int] == id@);
                assert(step_ids(steps@).contains(id@));
                if l != i {
                    if l < i {
                        assert(step_ids(steps@)[i as int] != id@);
                    } else {
                        assert(steps@[l].id@ != id@);
                    }
                }
            }
            return Some(i);
        }
    }
    proof {
        if step_ids(steps@).contains(id@) {
            let k = choose|k: int| 0 <= k < step_ids(steps@).len() && step_ids(steps@)[k] == id@;
            assert(steps@[k].id@ != id@);
        }
    }
    None
}

proof fn lemma_dependency_edges_len(steps: Seq<RecipeStep>, ids: Seq<Seq<char>>, i: int)
    requires
        0 <= i <= steps.len(),
    ensures
        dependency_edges(steps.subrange(0, i), ids).len() <= dependency_edges(steps, ids).len(),
    decreases steps.len() - i,
{
    if i < steps.len() {
        lemma_dependency_edges_len(steps, ids, i + 1);
        assert(steps.subrange(0, i + 1).drop_last() =~= steps.subrange(0, i));
    } else {
        assert(steps.subrange(0, i) =~= steps);
    }
}

proof fn lemma_first_missing_none(deps: Seq<Seq<char>>, ids: Seq<Seq<char>>)
    requires
        first_missing(deps, ids) is None,
    ensures
        forall|k: int| 0 <= k < deps.len() ==> ids.contains(#[trigger] deps[k]),
    decreases deps.len(),
{
    if deps.len() > 0 {
        lemma_first_missing_none(deps.drop_last(), ids);
        assert forall|k: int| 0 <= k < deps.len() implies ids.contains(#[trigger] deps[k]) by {
            if k < deps.len() - 1 {
                assert(deps.drop_last()[k] == deps[k]);
            }
        }
    }
}

proof fn lemma_edges_in_bounds(steps: Seq<RecipeStep>, ids: Seq<Seq<char>>)
    requires
        first_unknown_dependency(steps, ids) is None,
        forall|k: int| 0 <= k < steps.len() ==> ids.contains(#[trigger] steps[k].id@),
    ensures
        forall|e: int|
            0 <= e < dependency_edges(steps, ids).len() ==> (#[trigger] dependency_edges(
                steps,
                ids,
            )[e]).0 < ids.len() && dependency_edges(steps, ids)[e].1 < ids.len(),
    decreases steps.len(),
{
    if steps.len() > 0 {
        let pre = steps.drop_last();
        assert forall|k: int| 0 <= k < pre.len() implies ids.contains(#[trigger] pre[k].id@) by {
            assert(steps[k] == pre[k]);
        }
        lemma_edges_in_bounds(pre, ids);
        let s = steps.last();
        let deps = views(s.depends_on@);
        lemma_first_missing_none(deps, ids);
        lemma_last_index_of(ids, s.id@);
        assert(ids.contains(steps[steps.len() - 1].id@));
        let a = dependency_edges(pre, ids);
        let b = step_edges(s, ids);
        assert forall|e: int|
            0 <= e < dependency_edges(steps, ids).len() implies (#[trigger] dependency_edges(
            steps,
            ids,
        )[e]).0 < ids.len() && dependency_edges(steps, ids)[e].1 < ids.len() by {
            if e >= a.len() {
                let k = e - a.len();
                assert(ids.contains(deps[k]));
                lemma_last_index_of(ids, deps[k]);
                assert(b[k] == (last_index_of(ids, deps[k]) as nat, last_index_of(ids, s.id@) as nat));
            } else {
                assert(dependency_edges(steps, ids)[e] == a[e]);
            }
        }
    }
}

/// Whether a step list fits the sizes a graph can hold: fewer than
/// `u32::MAX` steps and fewer than `u32::MAX` dependency entries.
pub fn within_graph_limits(steps: &Vec<RecipeStep>) -> (r: bool)
    ensures
        r == (steps@.len() < u32::MAX && dependency_edges(steps@, step_ids(steps@)).len()
            < u32::MAX),
{
    if steps.len() >= 0xffff_ffff {
        return false;
    }
    let ghost ids = step_ids(steps@);
    let mut count: usize = 0;
    let mut i: usize = 0;
    while i < steps.len()
        invariant
            i <= steps@.len(),
            ids == step_ids(steps@),
            count == dependency_edges(steps@.subrange(0, i as int), ids).len(),
            count < u32::MAX,
        decreases steps@.len() - i,
    {
        let ghost pre = steps@.subrange(0, i as int);
        assert(steps@.subrange(0, i + 1).drop_last() =~= pre);
        assert(step_edges(steps@[i as int], ids).len() == steps@[i as int].depends_on@.len());
        let n = steps[i].depends_on.len();
        if n >= 0xffff_ffff - count {
            proof {
                lemma_dependency_edges_len(steps@, ids, i + 1);
            }
            return false;
        }
        count = count + n;
        i = i + 1;
    }
    assert(steps@.subrange(0, steps@.len() as int) =~= steps@);
    true
}

impl TaskGraph {
    /// The graph's nodes mirror `ids`, its edges join existing nodes, and it
    /// has no cycle.
    pub closed spec fn well_formed(self) -> bool {
        &&& dag_nodes(self.graph) == views(self.ids@)
        &&& forall|e: int|
            0 <= e < dag_edges(self.graph).len() ==> (#[trigger] dag_edges(self.graph)[e]).0
                < self.ids@.len() && dag_edges(self.graph)[e].1 < self.ids@.len()
        &&& is_acyclic(self.ids@.len() as nat, dag_edges(self.graph))
    }

    /// The step id of each node, by node index.
    pub closed spec fn node_ids(self) -> Seq<Seq<char>> {
        views(self.ids@)
    }

    /// The dependency edges, as (dependency node, dependent node).
    pub closed spec fn edges(self) -> Seq<(nat, nat)> {
        dag_edges(self.graph)
    }

    /// Every graph has edges between its own nodes only, and no cycle.
    pub proof fn lemma_well_formed(self)
        requires
            self.well_formed(),
        ensures
            is_acyclic(self.node_ids().len(), self.edges()),
            forall|e: int|
                0 <= e < self.edges().len() ==> (#[trigger] self.edges()[e]).0 < self.node_ids().len()
                    && self.edges()[e].1 < self.node_ids().len(),
    {
    }

    /// Build the graph of a list of recipe steps. It fails when a
    /// `depends_on` entry names no step (the first such entry, in step
    /// order) or when the dependencies form a cycle.
    pub fn build(steps: &Vec<RecipeStep>) -> (r: Result<TaskGraph, AppError>)
        requires
            steps@.len() < u32::MAX,
            dependency_edges(steps@, step_ids(steps@)).len() < u32::MAX,
        ensures
            match first_unknown_dependency(steps@, step_ids(steps@)) {
                Some(p) => r matches Err(e) && is_graph_error(
                    e,
                    unknown_dependency_message(p.0, p.1),
                ),
                None => if is_acyclic(steps@.len(), dependency_edges(steps@, step_ids(steps@))) {
                    r matches Ok(g) && g.well_formed() && g.node_ids() == step_ids(steps@) && g.edges()
                        == dependency_edges(steps@, step_ids(steps@))
                } else {
                    r matches Err(e) && is_graph_error(e, cycle_message())
                },
            },
    {
        let ghost all_ids = step_ids(steps@);
        let mut graph = dag_new();
        let mut ids: Vec<String> = Vec::new();
        let mut i: usize = 0;
        while i < steps.len()
            invariant
                i <= steps.len(),
                steps@.len() < u32::MAX,
                all_ids == step_ids(steps@),
                dag_nodes(graph) == views(ids@),
                views(ids@) == step_ids(steps@.subrange(0, i as int)),
                dag_edges(graph) == Seq::<(nat, nat)>::empty(),
            decreases steps.len() - i,
        {
            dag_add_node(&mut graph, steps[i].id.clone());
            ids.push(steps[i].id.clone());
            let ghost prev = step_ids(steps@.subrange(0, i as int));
            assert(steps@.subrange(0, i + 1) =~= steps@.subrange(0, i as int).push(steps@[i as int]));
            assert(step_ids(steps@.subrange(0, i + 1)) =~= prev.push(steps@[i as int].id@));
            assert(views(ids@) =~= prev.push(steps@[i as int].id@));
            i = i + 1;
        }
        assert(steps@.subrange(0, steps@.len() as int) =~= steps@);
        assert(views(ids@) == all_ids);
        proof {
            lemma_dependency_edges_len(steps@, all_ids, 0);
        }
        let mut i: usize = 0;
        while i < steps.len()
            invariant
                i <= steps.len(),
                all_ids == step_ids(steps@),
                views(ids@) == all_ids,
                dag_nodes(graph) == all_ids,
                dependency_edges(steps@, all_ids).len() < u32::MAX,
                dag_edges(graph) == dependency_edges(steps@.subrange(0, i as int), all_ids),
                first_unknown_dependency(steps@.subrange(0, i as int), all_ids) is None,
            decreases steps.len() - i,
        {
            let step = &steps[i];
            let ghost pre = steps@.subrange(0, i as int);
            let ghost next = steps@.subrange(0, i + 1);
            assert(next.drop_last() =~= pre);
            assert(next.last() == *step);
            assert(all_ids[i as int] == step.id@);
            let to = match last_index(&ids, step.id.as_str()) {
                Some(t) => t,
                None => {
                    assert(all_ids.contains(step.id@));
                    return Err(AppError::System(String::new()));
                },
            };
            proof {
                lemma_dependency_edges_len(steps@, all_ids, i + 1);
                lemma_last_index_of(all_ids, step.id@);
            }
            let ghost deps = views(step.depends_on@);
            let mut j: usize = 0;
            while j < step.depends_on.len()
                invariant
                    j <= step.depends_on.len(),
                    i < steps@.len(),
                    all_ids == step_ids(steps@),
                    next == steps@.subrange(0, i + 1),
                    pre == steps@.subrange(0, i as int),
                    *step == steps@[i as int],
                    deps == views(step.depends_on@),
                    views(ids@) == all_ids,
                    dag_nodes(graph) == all_ids,
                    to as int == last_index_of(all_ids, step.id@),
                    to < all_ids.len(),
                    dag_edges(graph).len() <= dependency_edges(next, all_ids).len(),
                    dependency_edges(next, all_ids).len() < u32::MAX,
                    next.drop_last() == pre,
                    next.last() == *step,
                    dag_edges(graph) == dependency_edges(pre, all_ids) + deps.subrange(
                        0,
                        j as int,
                    ).map_values(
                        |d: Seq<char>|
                            (last_index_of(all_ids, d) as nat, last_index_of(all_ids, step.id@) as nat),
                    ),
                    first_missing(deps.subrange(0, j as int), all_ids) is None,
                    first_unknown_dependency(pre, all_ids) is None,
                decreases step.depends_on.len() - j,
            {
                let dep = &step.depends_on[j];
                assert(deps.subrange(0, j + 1).drop_last() =~= deps.subrange(0, j as int));
                assert(deps.subrange(0, j + 1).last() == dep@);
                match last_index(&ids, dep.as_str()) {
                    None => {
                        proof {
                            assert(first_missing(deps.subrange(0, j + 1), all_ids) == Some(dep@));
                            lemma_first_missing_prefix(deps, all_ids, j + 1);
                            assert(first_missing(deps, all_ids) == Some(dep@));
                            assert(first_unknown_dependency(next.drop_last(), all_ids) is None);
                            assert(views(next.last().depends_on@) == deps);
                            assert(first_unknown_dependency(next, all_ids) == Some((step.id@, dep@)));
                            lemma_first_unknown_prefix(steps@, all_ids, i + 1);
                        }
                        let msg = "step '".to_owned().concat(step.id.as_str()).concat(
                            "' depends on unknown step '",
                        ).concat(dep.as_str()).concat("'");
                        return Err(AppError::RecipeParseError { path: String::new(), message: msg });
                    },
                    Some(from) => {
                        proof {
                            lemma_last_index_of(all_ids, dep@);
                            let f = |d: Seq<char>|
                                (last_index_of(all_ids, d) as nat, last_index_of(all_ids, step.id@) as nat);
                            assert(deps.subrange(0, j + 1).map_values(f) =~= deps.subrange(
                                0,
                                j as int,
                            ).map_values(f).push(f(dep@)));
                            assert(dependency_edges(next.drop_last(), all_ids) == dependency_edges(pre, all_ids));
                            assert(dependency_edges(next, all_ids) == dependency_edges(pre, all_ids)
                                + step_edges(*step, all_ids));
                            assert(deps.subrange(0, j + 1).map_values(f).len() <= step_edges(*step, all_ids).len());
                        }
                        dag_add_edge(&mut graph, from, to);
                        proof {
                            let f = |d: Seq<char>|
                                (last_index_of(all_ids, d) as nat, last_index_of(all_ids, step.id@) as nat);
                            assert(dag_edges(graph) =~= dependency_edges(pre, all_ids) + deps.subrange(
                                0,
                                j + 1,
                            ).map_values(f));
                        }
                    },
                }
                j = j + 1;
            }
            proof {
                assert(deps.subrange(0, deps.len() as int) =~= deps);
                assert(dag_edges(graph) =~= dependency_edges(next, all_ids));
                assert(first_missing(deps, all_ids) is None);
            }
            i = i + 1;
        }
        proof {
            assert(steps@.subrange(0, steps@.len() as int) =~= steps@);
            assert forall|k: int| 0 <= k < steps@.len() implies all_ids.contains(
                #[trigger] steps@[k].id@,
            ) by {
                assert(all_ids[k] == steps@[k].id@);
            }
            lemma_edges_in_bounds(steps@, all_ids);
        }
        if dag_is_cyclic(&graph) {
            return Err(
                AppError::RecipeParseError {
                    path: String::new(),
                    message: "circular dependency detected in step graph".to_owned(),
                },
            );
        }
        Ok(TaskGraph { graph, ids })
    }
}


/// The ids that may start now: steps that are neither completed nor
/// running and whose every dependency is completed. A name that several
/// steps share stands for the last of them.
pub open spec fn is_ready(
    ids: Seq<Seq<char>>,
    edges: Seq<(nat, nat)>,
    completed: Seq<Seq<char>>,
    running: Seq<Seq<char>>,
    x: Seq<char>,
) -> bool {
    &&& ids.contains(x)
    &&& !completed.contains(x)
    &&& !running.contains(x)
    &&& forall|e: int|
        0 <= e < edges.len() && (#[trigger] edges[e]).1 == last_index_of(ids, x)
            ==> completed.contains(ids[edges[e].0 as int])
}

/// The numbers below `n`.
pub open spec fn below(n: nat) -> Set<nat> {
    Set::new(|j: nat| j < n)
}

proof fn lemma_below(n: nat)
    ensures
        below(n).finite(),
        below(n).len() == n,
    decreases n,
{
    if n == 0 {
        assert(below(n) =~= Set::empty());
    } else {
        lemma_below((n - 1) as nat);
        assert(below((n - 1) as nat).insert((n - 1) as nat) =~= below(n));
    }
}

/// A topological order lists every node.
pub proof fn lemma_order_covers(n: nat, edges: Seq<(nat, nat)>, order: Seq<nat>)
    requires
        is_topological_order(n, edges, order),
    ensures
        forall|j: nat| j < n ==> order.contains(j),
{
    order.unique_seq_to_set();
    vstd::seq_lib::seq_to_set_is_finite(order);
    lemma_below(n);
    assert(order.to_set().subset_of(below(n))) by {
        assert forall|x: nat| order.to_set().contains(x) implies below(n).contains(x) by {
            let k = choose|k: int| 0 <= k < order.len() && order[k] == x;
            assert(order[k] < n);
        }
    }
    vstd::set_lib::lemma_subset_equality(order.to_set(), below(n));
    assert forall|j: nat| j < n implies order.contains(j) by {
        assert(below(n).contains(j));
        assert(order.to_set().contains(j));
    }
}

/// In a topological order the source of every edge comes first.
proof fn lemma_position_before(
    n: nat,
    edges: Seq<(nat, nat)>,
    order: Seq<nat>,
    e: int,
    k: int,
)
    requires
        is_topological_order(n, edges, order),
        0 <= e < edges.len(),
        0 <= k < order.len(),
        order[k] == edges[e].1,
    ensures
        exists|i: int| 0 <= i < k && order[i] == edges[e].0,
{
    assert(comes_before(order, edges[e]));
    let (i, j) = choose|i: int, j: int|
        0 <= i < j < order.len() && order[i] == edges[e].0 && order[j] == edges[e].1;
    assert(j == k);
}

/// There is only one layering of an acyclic graph: a node's layer is the
/// length of the longest dependency chain that ends in it.
pub proof fn lemma_layering_unique(
    n: nat,
    edges: Seq<(nat, nat)>,
    l1: Seq<nat>,
    l2: Seq<nat>,
)
    requires
        is_acyclic(n, edges),
        forall|e: int| 0 <= e < edges.len() ==> (#[trigger] edges[e]).0 < n && edges[e].1 < n,
        is_layering(n, edges, l1),
        is_layering(n, edges, l2),
    ensures
        l1 == l2,
{
    let order = choose|order: Seq<nat>| is_topological_order(n, edges, order);
    lemma_layers_agree_upto(n, edges, order, l1, l2, n as int);
    lemma_order_covers(n, edges, order);
    assert forall|j: int| 0 <= j < n implies l1[j] == l2[j] by {
        assert(order.contains(j as nat));
        let k = choose|k: int| 0 <= k < order.len() && order[k] == j as nat;
    }
    assert(l1 =~= l2);
}

proof fn lemma_layers_agree_upto(
    n: nat,
    edges: Seq<(nat, nat)>,
    order: Seq<nat>,
    l1: Seq<nat>,
    l2: Seq<nat>,
    k: int,
)
    requires
        is_topological_order(n, edges, order),
        forall|e: int| 0 <= e < edges.len() ==> (#[trigger] edges[e]).0 < n && edges[e].1 < n,
        is_layering(n, edges, l1),
        is_layering(n, edges, l2),
        0 <= k <= n,
    ensures
        forall|m: int| 0 <= m < k ==> l1[#[trigger] order[m] as int] == l2[order[m] as int],
    decreases k,
{
    if k > 0 {
        lemma_layers_agree_upto(n, edges, order, l1, l2, k - 1);
        let j = order[k - 1] as int;
        assert(layer_fits(edges, l1, j));
        assert(layer_fits(edges, l2, j));
        // The layers of j's dependencies agree: they come earlier.
        assert forall|e: int| 0 <= e < edges.len() && (#[trigger] edges[e]).1 == j implies l1[edges[e].0 as int]
            == l2[edges[e].0 as int] by {
            lemma_position_before(n, edges, order, e, k - 1);
            let i = choose|i: int| 0 <= i < k - 1 && order[i] == edges[e].0;
            assert(l1[order[i] as int] == l2[order[i] as int]);
        }
        if exists|e: int| 0 <= e < edges.len() && (#[trigger] edges[e]).1 == j {
            let e1 = choose|e: int|
                0 <= e < edges.len() && (#[trigger] edges[e]).1 == j && l1[edges[e].0 as int] + 1
                    == l1[j];
            let e2 = choose|e: int|
                0 <= e < edges.len() && (#[trigger] edges[e]).1 == j && l2[edges[e].0 as int] + 1
                    == l2[j];
            assert(l2[edges[e1].0 as int] + 1 <= l2[j]);
            assert(l1[edges[e2].0 as int] + 1 <= l1[j]);
        }
    }
}

impl TaskGraph {
    /// The ids of the nodes at the positions of `order`, in that order.
    pub fn ids_in_order(&self, order: &Vec<usize>) -> (r: Vec<String>)
        requires
            forall|k: int| 0 <= k < order@.len() ==> #[trigger] order@[k] < self.node_ids().len(),
        ensures
            views(r@) == order@.map_values(|x: usize| self.node_ids()[x as int]),
    {
        let mut r: Vec<String> = Vec::new();
        let mut k: usize = 0;
        while k < order.len()
            invariant
                k <= order@.len(),
                forall|m: int| 0 <= m < order@.len() ==> #[trigger] order@[m] < self.node_ids().len(),
                views(r@) == order@.subrange(0, k as int).map_values(|x: usize| self.node_ids()[x as int]),
            decreases order@.len() - k,
        {
            assert(order@[k as int] < self.ids@.len());
            let ghost before = views(r@);
            r.push(self.ids[order[k]].clone());
            proof {
                let f = |x: usize| self.node_ids()[x as int];
                assert(order@.subrange(0, k + 1) =~= order@.subrange(0, k as int).push(order@[k as int]));
                assert(order@.subrange(0, k + 1).map_values(f) =~= order@.subrange(0, k as int).map_values(f).push(f(order@[k as int])));
                assert(views(r@) =~= before.push(self.ids@[order@[k as int] as int]@));
            }
            k = k + 1;
        }
        assert(order@.subrange(0, order@.len() as int) =~= order@);
        r
    }

    /// The step ids in the order that petgraph's topological sort gives,
    /// where every step follows its dependencies.
    pub fn topological_order(&self) -> (r: Vec<String>)
        requires
            self.well_formed(),
        ensures
            is_topological_order(
                self.node_ids().len(),
                self.edges(),
                toposort_order(self.node_ids(), self.edges()),
            ),
            views(r@) == toposort_order(self.node_ids(), self.edges()).map_values(
                |k: nat| self.node_ids()[k as int],
            ),
    {
        match dag_toposort(&self.graph) {
            Some(v) => {
                let ghost order = v@.map_values(|x: usize| x as nat);
                assert forall|k: int| 0 <= k < v@.len() implies #[trigger] v@[k] < self.node_ids().len() by {
                    assert(order[k] < self.node_ids().len());
                }
                let r = self.ids_in_order(&v);
                assert(views(r@) =~= order.map_values(|k: nat| self.node_ids()[k as int]));
                r
            },
            None => {
                proof {
                    assert(false);
                }
                Vec::new()
            },
        }
    }

    /// The ids of the steps that may run now, in ascending order: those
    /// neither completed nor running whose every dependency is completed.
    pub fn get_ready_steps(&self, completed: &Vec<String>, running: &Vec<String>) -> (r: Vec<
        String,
    >)
        requires
            self.well_formed(),
        ensures
            strictly_sorted(views(r@)),
            views(r@).to_set() == Set::new(
                |x: Seq<char>|
                    is_ready(self.node_ids(), self.edges(), views(completed@), views(running@), x),
            ),
    {
        let ghost ids = views(self.ids@);
        let ghost edges = dag_edges(self.graph);
        let ghost c = views(completed@);
        let ghost u = views(running@);
        let mut ready: Vec<String> = Vec::new();
        let mut i: usize = 0;
        proof {
            assert forall|x: Seq<char>|
                views(ready@).contains(x) <==> (is_ready(ids, edges, c, u, x) && last_index_of(ids, x) < i) by {
                lemma_last_index_of(ids, x);
            }
        }
        while i < self.ids.len()
            invariant
                i <= self.ids@.len(),
                ids == views(self.ids@),
                edges == dag_edges(self.graph),
                c == views(completed@),
                u == views(running@),
                self.well_formed(),
                views(ready@).no_duplicates(),
                forall|x: Seq<char>|
                    views(ready@).contains(x) <==> (is_ready(ids, edges, c, u, x) && last_index_of(
                        ids,
                        x,
                    ) < i),
            decreases self.ids@.len() - i,
        {
            let id = &self.ids[i];
            let ghost x = id@;
            proof {
                lemma_last_index_of(ids, x);
                assert(ids[i as int] == x);
                assert(ids.contains(x));
            }
            let is_last = match last_index(&self.ids, id.as_str()) {
                Some(k) => k == i,
                None => false,
            };
            let mut take = false;
            if is_last && !contains_str(completed, id.as_str()) && !contains_str(running, id.as_str()) {
                let preds = predecessors(&self.graph, i);
                let mut all = true;
                let mut q: usize = 0;
                while q < preds.len()
                    invariant
                        q <= preds@.len(),
                        self.well_formed(),
                        ids == views(self.ids@),
                        edges == dag_edges(self.graph),
                        c == views(completed@),
                        i < ids.len(),
                        forall|k: int| 0 <= k < preds@.len() ==> #[trigger] has_edge(edges, preds@[k] as nat, i as nat),
                        all == forall|k: int| 0 <= k < q ==> c.contains(ids[#[trigger] preds@[k] as int]),
                    decreases preds@.len() - q,
                {
                    let p = preds[q];
                    assert(has_edge(edges, preds@[q as int] as nat, i as nat));
                    proof {
                        let e = choose|e: int| 0 <= e < edges.len() && #[trigger] edges[e] == (p as nat, i as nat);
                        assert(edges[e].0 < ids.len());
                    }
                    if !contains_str(completed, self.ids[p].as_str()) {
                        all = false;
                    }
                    q = q + 1;
                }
                proof {
                    // `all` says the same of the edges into node i.
                    if all {
                        assert forall|e: int|
                            0 <= e < edges.len() && (#[trigger] edges[e]).1 == last_index_of(ids, x) implies c.contains(
                            ids[edges[e].0 as int],
                        ) by {
                            assert(preds@.contains(edges[e].0 as usize));
                            let k = choose|k: int| 0 <= k < preds@.len() && preds@[k] == edges[e].0 as usize;
                            assert(c.contains(ids[preds@[k] as int]));
                        }
                    } else {
                        let k = choose|k: int| 0 <= k < preds@.len() && !c.contains(ids[#[trigger] preds@[k] as int]);
                        assert(has_edge(edges, preds@[k] as nat, i as nat));
                        let e = choose|e: int| 0 <= e < edges.len() && #[trigger] edges[e] == (preds@[k] as nat, i as nat);
                        assert(!is_ready(ids, edges, c, u, x));
                    }
                }
                take = all;
            }
            proof {
                assert(take == (is_ready(ids, edges, c, u, x) && last_index_of(ids, x) == i));
            }
            let ghost before = views(ready@);
            if take {
                ready.push(id.clone());
                proof {
                    assert(views(ready@) =~= before.push(x));
                    assert(!before.contains(x));
                    assert(views(ready@).no_duplicates()) by {
                        assert forall|a: int, b: int| 0 <= a < b < views(ready@).len() implies views(ready@)[a] != views(ready@)[b] by {
                            if b == before.len() {
                                assert(before.contains(before[a]));
                            } else {
                                assert(views(ready@)[a] == before[a]);
                                assert(views(ready@)[b] == before[b]);
                            }
                        }
                    }
                }
            }
            proof {
                assert forall|y: Seq<char>|
                    views(ready@).contains(y) <==> (is_ready(ids, edges, c, u, y) && last_index_of(
                        ids,
                        y,
                    ) < i + 1) by {
                    lemma_last_index_of(ids, y);
                    if take {
                        if views(ready@).contains(y) && y != x {
                            let k = choose|k: int| 0 <= k < views(ready@).len() && views(ready@)[k] == y;
                            assert(before[k] == y);
                        }
                        if before.contains(y) {
                            let k = choose|k: int| 0 <= k < before.len() && before[k] == y;
                            assert(views(ready@)[k] == y);
                        }
                        if y == x {
                            assert(views(ready@)[before.len() as int] == y);
                        }
                    }
                    if is_ready(ids, edges, c, u, y) && last_index_of(ids, y) == i {
                        assert(ids[i as int] == y);
                    }
                }
            }
            i = i + 1;
        }
        let sorted = sort_strings(ready);
        proof {
            assert forall|x: Seq<char>| views(sorted@).to_set().contains(x) <==> is_ready(ids, edges, c, u, x) by {
                lemma_last_index_of(ids, x);
                if is_ready(ids, edges, c, u, x) {
                    assert(views(ready@).contains(x));
                }
            }
            assert(views(sorted@).to_set() =~= Set::new(|x: Seq<char>| is_ready(ids, edges, c, u, x)));
        }
        sorted
    }
}


/// The layers computed so far fit every node among the first `k` of `order`;
/// nodes not yet reached are at layer 0.
spec fn layers_so_far(
    n: nat,
    edges: Seq<(nat, nat)>,
    order: Seq<nat>,
    layer: Seq<nat>,
    k: int,
) -> bool {
    &&& layer.len() == n
    &&& forall|m: int| 0 <= m < k ==> layer_fits(edges, layer, #[trigger] order[m] as int)
    &&& forall|m: int| 0 <= m < k ==> layer[#[trigger] order[m] as int] <= m
    &&& forall|m: int| k <= m < n ==> layer[#[trigger] order[m] as int] == 0
}

/// `r` draws `steps` with the nodes in `order`: one node for each graph
/// node whose id some step carries (the last such step gives its fields),
/// placed on a layering of the graph, and one edge, from dependency to
/// step, per (step, dependency) pair.
pub open spec fn draws_in_order(
    r: TaskGraphData,
    ids: Seq<Seq<char>>,
    edges: Seq<(nat, nat)>,
    steps: Seq<RecipeStep>,
    order: Seq<nat>,
) -> bool {
    &&& exists|layer: Seq<nat>|
        {
            &&& is_layering(ids.len(), edges, layer)
            &&& r.nodes@.len() == drawn_steps(order, ids, steps).len()
            &&& forall|k: int|
                0 <= k < r.nodes@.len() ==> node_matches(
                    #[trigger] r.nodes@[k],
                    steps[drawn_steps(order, ids, steps)[k]],
                    layer[last_index_of(ids, steps[drawn_steps(order, ids, steps)[k]].id@)],
                )
        }
    &&& r.edges@.len() == edge_pairs(steps).len()
    &&& forall|k: int|
        0 <= k < r.edges@.len() ==> {
            let p = edge_pairs(steps)[k];
            &&& (#[trigger] r.edges@[k]).source@ == p.0
            &&& r.edges@[k].target@ == p.1
            &&& r.edges@[k].id@ == p.0 + "->"@ + p.1
        }
}

/// `x` occurs among the first `k` entries of `order`.
spec fn reached_before(order: Seq<nat>, k: int, x: nat) -> bool {
    exists|m: int| 0 <= m < k && #[trigger] order[m] == x
}

impl TaskGraph {
    /// The nodes and edges that the flow view draws, with the nodes in the
    /// order that petgraph's topological sort gives: one node for each
    /// graph node whose id some step in `steps` carries (the last such step
    /// gives its fields); each node's layer is the length of the longest
    /// dependency chain ending in it. There is one edge per (step,
    /// dependency) pair of `steps`.
    pub fn to_graph_data(&self, steps: &Vec<RecipeStep>) -> (r: TaskGraphData)
        requires
            self.well_formed(),
        ensures
            is_topological_order(
                self.node_ids().len(),
                self.edges(),
                toposort_order(self.node_ids(), self.edges()),
            ),
            draws_in_order(
                r,
                self.node_ids(),
                self.edges(),
                steps@,
                toposort_order(self.node_ids(), self.edges()),
            ),
    {
        match dag_toposort(&self.graph) {
            Some(v) => {
                proof {
                    assert(self.node_ids() == dag_nodes(self.graph));
                }
                self.graph_data_in_order(steps, &v)
            },
            None => {
                proof {
                    assert(false);
                }
                TaskGraphData { nodes: Vec::new(), edges: Vec::new() }
            },
        }
    }

    /// The nodes and edges that the flow view draws, with the nodes in the
    /// given topological order of the graph.
    pub fn graph_data_in_order(&self, steps: &Vec<RecipeStep>, order_in: &Vec<usize>) -> (r: TaskGraphData)
        requires
            self.well_formed(),
            is_topological_order(
                self.node_ids().len(),
                self.edges(),
                order_in@.map_values(|x: usize| x as nat),
            ),
        ensures
            draws_in_order(
                r,
                self.node_ids(),
                self.edges(),
                steps@,
                order_in@.map_values(|x: usize| x as nat),
            ),
    {
        let ghost ids = views(self.ids@);
        let ghost edges = dag_edges(self.graph);
        let n = self.ids.len();
        let v = order_in;
        let ghost order = v@.map_values(|x: usize| x as nat);
        assert(ids.len() == n);
        // Layers, in topological order.
        let mut layer: Vec<usize> = Vec::new();
        let mut z: usize = 0;
        while z < n
            invariant
                z <= n,
                layer@.len() == z,
                forall|m: int| 0 <= m < z ==> layer@[m] == 0,
            decreases n - z,
        {
            layer.push(0);
            z = z + 1;
        }
        let mut k: usize = 0;
        while k < v.len()
            invariant
                k <= v@.len(),
                n == self.ids@.len(),
                ids == views(self.ids@),
                edges == dag_edges(self.graph),
                self.well_formed(),
                order == v@.map_values(|x: usize| x as nat),
                is_topological_order(n as nat, edges, order),
                layers_so_far(n as nat, edges, order, layer@.map_values(|x: usize| x as nat), k as int),
            decreases v@.len() - k,
        {
            let t = v[k];
            assert(order[k as int] == t as nat);
            assert(t < n);
            let preds = predecessors(&self.graph, t);
            let ghost lay = layer@.map_values(|x: usize| x as nat);
            proof {
                // Every dependency of t comes earlier in the order.
                assert forall|q: int| 0 <= q < preds@.len() implies #[trigger] reached_before(order, k as int, preds@[q] as nat) by {
                    assert(has_edge(edges, preds@[q] as nat, t as nat));
                    let e = choose|e: int| 0 <= e < edges.len() && #[trigger] edges[e] == (preds@[q] as nat, t as nat);
                    lemma_position_before(n as nat, edges, order, e, k as int);
                }
            }
            let mut best: usize = 0;
            let mut q: usize = 0;
            while q < preds.len()
                invariant
                    q <= preds@.len(),
                    k < v@.len(),
                    n == self.ids@.len(),
                    layer@.len() == n,
                    lay == layer@.map_values(|x: usize| x as nat),
                    order == v@.map_values(|x: usize| x as nat),
                    is_topological_order(n as nat, edges, order),
                    layers_so_far(n as nat, edges, order, lay, k as int),
                    forall|q2: int| 0 <= q2 < preds@.len() ==> #[trigger] reached_before(order, k as int, preds@[q2] as nat),
                    best <= k,
                    q == 0 ==> best == 0,
                    q > 0 ==> exists|q2: int| 0 <= q2 < q && best == lay[#[trigger] preds@[q2] as int] + 1,
                    forall|q2: int| 0 <= q2 < q ==> lay[#[trigger] preds@[q2] as int] + 1 <= best,
                decreases preds@.len() - q,
            {
                let p = preds[q];
                proof {
                    assert(reached_before(order, k as int, preds@[q as int] as nat));
                    let m = choose|m: int| 0 <= m < k && #[trigger] order[m] == preds@[q as int] as nat;
                    assert(lay[order[m] as int] <= m);
                    assert(order[m] < n);
                }
                let cand = layer[p] + 1;
                if q == 0 || cand > best {
                    best = cand;
                }
                q = q + 1;
            }
            layer.set(t, best);
            proof {
                let nl = layer@.map_values(|x: usize| x as nat);
                assert(nl =~= lay.update(t as int, best as nat));
                // Node t now fits.
                assert forall|e: int|
                    0 <= e < edges.len() && (#[trigger] edges[e]).1 == t as int implies nl[edges[e].0 as int] + 1
                        <= nl[t as int] by {
                    assert(preds@.contains(edges[e].0 as usize));
                    let q2 = choose|q2: int| 0 <= q2 < preds@.len() && preds@[q2] == edges[e].0 as usize;
                    assert(reached_before(order, k as int, preds@[q2] as nat));
                    let m = choose|m: int| 0 <= m < k && #[trigger] order[m] == preds@[q2] as nat;
                    assert(order[m] != order[k as int]);
                }
                if exists|e: int| 0 <= e < edges.len() && (#[trigger] edges[e]).1 == t as int {
                    let e = choose|e: int| 0 <= e < edges.len() && (#[trigger] edges[e]).1 == t as int;
                    assert(preds@.contains(edges[e].0 as usize));
                    let q2 = choose|q2: int| 0 <= q2 < preds@.len() && best == lay[#[trigger] preds@[q2] as int] + 1;
                    assert(has_edge(edges, preds@[q2] as nat, t as nat));
                    let e2 = choose|e2: int| 0 <= e2 < edges.len() && #[trigger] edges[e2] == (preds@[q2] as nat, t as nat);
                    assert(reached_before(order, k as int, preds@[q2] as nat));
                    let m = choose|m: int| 0 <= m < k && #[trigger] order[m] == preds@[q2] as nat;
                    assert(order[m] != order[k as int]);
                    assert(edges[e2].1 == t as int && nl[edges[e2].0 as int] + 1 == nl[t as int]);
                }
                if forall|e: int| 0 <= e < edges.len() ==> (#[trigger] edges[e]).1 != t as int {
                    if preds@.len() > 0 {
                        assert(has_edge(edges, preds@[0] as nat, t as nat));
                        let e = choose|e: int| 0 <= e < edges.len() && #[trigger] edges[e] == (preds@[0] as nat, t as nat);
                    }
                }
                assert(layer_fits(edges, nl, t as int));
                // Nodes reached earlier still fit: t is none of their dependencies.
                assert forall|m: int| 0 <= m < k + 1 implies layer_fits(edges, nl, #[trigger] order[m] as int) by {
                    if m < k {
                        let j = order[m] as int;
                        assert(layer_fits(edges, lay, j));
                        assert(order[m] != order[k as int]);
                        assert forall|e: int| 0 <= e < edges.len() && (#[trigger] edges[e]).1 == j implies edges[e].0 != t as nat by {
                            lemma_position_before(n as nat, edges, order, e, m);
                            let i2 = choose|i2: int| 0 <= i2 < m && order[i2] == edges[e].0;
                            assert(order[i2] != order[k as int]);
                        }
                        if exists|e: int| 0 <= e < edges.len() && (#[trigger] edges[e]).1 == j {
                            let e = choose|e: int|
                                0 <= e < edges.len() && (#[trigger] edges[e]).1 == j && lay[edges[e].0 as int] + 1 == lay[j];
                            assert(edges[e].0 != t as nat);
                        }
                    }
                }
                assert forall|m: int| 0 <= m < k + 1 implies nl[#[trigger] order[m] as int] <= m by {
                    if m < k {
                        assert(order[m] != order[k as int]);
                    }
                }
                assert forall|m: int| k + 1 <= m < n implies nl[#[trigger] order[m] as int] == 0 by {
                    assert(order[m] != order[k as int]);
                }
            }
            k = k + 1;
        }
        let ghost lay = layer@.map_values(|x: usize| x as nat);
        proof {
            lemma_order_covers(n as nat, edges, order);
            assert forall|j: int| 0 <= j < n implies #[trigger] layer_fits(edges, lay, j) by {
                assert(order.contains(j as nat));
                let m = choose|m: int| 0 <= m < order.len() && order[m] == j as nat;
            }
            assert(is_layering(n as nat, edges, lay));
        }
        // Nodes, in topological order.
        let mut nodes: Vec<TaskGraphNode> = Vec::new();
        let mut k: usize = 0;
        while k < v.len()
            invariant
                k <= v@.len(),
                n == self.ids@.len(),
                ids == views(self.ids@),
                layer@.len() == n,
                lay == layer@.map_values(|x: usize| x as nat),
                order == v@.map_values(|x: usize| x as nat),
                is_topological_order(n as nat, edges, order),
                nodes@.len() == drawn_steps(order.subrange(0, k as int), ids, steps@).len(),
                forall|m: int|
                    0 <= m < nodes@.len() ==> node_matches(
                        #[trigger] nodes@[m],
                        steps@[drawn_steps(order.subrange(0, k as int), ids, steps@)[m]],
                        lay[last_index_of(
                            ids,
                            steps@[drawn_steps(order.subrange(0, k as int), ids, steps@)[m]].id@,
                        )],
                    ),
            decreases v@.len() - k,
        {
            let t = v[k];
            assert(order[k as int] == t as nat);
            let id = &self.ids[t];
            let ghost sub = order.subrange(0, k as int);
            let ghost sub1 = order.subrange(0, k + 1);
            assert(sub1.drop_last() =~= sub);
            assert(sub1.last() == t as nat);
            assert(ids[t as int] == id@);
            let ghost prev = drawn_steps(sub, ids, steps@);
            match last_step_index(steps, id.as_str()) {
                Some(si) => {
                    let l = match last_index(&self.ids, id.as_str()) {
                        Some(l) => l,
                        None => {
                            proof {
                                assert(ids.contains(id@));
                            }
                            0
                        },
                    };
                    proof {
                        lemma_last_index_of(step_ids(steps@), id@);
                        lemma_last_index_of(ids, id@);
                        assert(step_ids(steps@)[si as int] == steps@[si as int].id@);
                        assert(drawn_steps(sub1, ids, steps@) == prev.push(si as int));
                    }
                    let s = &steps[si];
                    let node = TaskGraphNode {
                        id: s.id.clone(),
                        name: s.name.clone(),
                        description: clone_opt_string(&s.description),
                        layer: layer[l],
                        depends_on: clone_strings(&s.depends_on),
                    };
                    nodes.push(node);
                },
                None => {
                    proof {
                        lemma_last_index_of(step_ids(steps@), id@);
                        assert(drawn_steps(sub1, ids, steps@) == prev);
                    }
                },
            }
            k = k + 1;
        }
        assert(order.subrange(0, v@.len() as int) =~= order);
        // Edges, step by step.
        let mut out: Vec<TaskGraphEdge> = Vec::new();
        let mut i: usize = 0;
        while i < steps.len()
            invariant
                i <= steps@.len(),
                out@.len() == edge_pairs(steps@.subrange(0, i as int)).len(),
                forall|k2: int|
                    0 <= k2 < out@.len() ==> {
                        let p = edge_pairs(steps@.subrange(0, i as int))[k2];
                        &&& (#[trigger] out@[k2]).source@ == p.0
                        &&& out@[k2].target@ == p.1
                        &&& out@[k2].id@ == p.0 + "->"@ + p.1
                    },
            decreases steps@.len() - i,
        {
            let step = &steps[i];
            let ghost pre = edge_pairs(steps@.subrange(0, i as int));
            let ghost deps = views(step.depends_on@);
            let ghost f = |d: Seq<char>| (d, step.id@);
            let mut j: usize = 0;
            while j < step.depends_on.len()
                invariant
                    j <= step.depends_on@.len(),
                    deps == views(step.depends_on@),
                    f == |d: Seq<char>| (d, step.id@),
                    out@.len() == pre.len() + j,
                    forall|k2: int|
                        0 <= k2 < out@.len() ==> {
                            let p = (pre + deps.subrange(0, j as int).map_values(f))[k2];
                            &&& (#[trigger] out@[k2]).source@ == p.0
                            &&& out@[k2].target@ == p.1
                            &&& out@[k2].id@ == p.0 + "->"@ + p.1
                        },
                decreases step.depends_on@.len() - j,
            {
                let dep = &step.depends_on[j];
                let edge_id = dep.clone().concat("->").concat(step.id.as_str());
                let ghost before = out@;
                out.push(TaskGraphEdge { id: edge_id, source: dep.clone(), target: step.id.clone() });
                proof {
                    assert(deps.subrange(0, j + 1).map_values(f) =~= deps.subrange(0, j as int).map_values(f).push(f(dep@)));
                    assert(pre + deps.subrange(0, j + 1).map_values(f) =~= (pre + deps.subrange(0, j as int).map_values(f)).push(f(dep@)));
                    assert forall|k2: int| 0 <= k2 < out@.len() implies {
                        let p = (pre + deps.subrange(0, j + 1).map_values(f))[k2];
                        &&& (#[trigger] out@[k2]).source@ == p.0
                        &&& out@[k2].target@ == p.1
                        &&& out@[k2].id@ == p.0 + "->"@ + p.1
                    } by {
                        if k2 < before.len() {
                            assert(out@[k2] == before[k2]);
                        }
                    }
                }
                j = j + 1;
            }
            proof {
                assert(deps.subrange(0, deps.len() as int) =~= deps);
                assert(steps@.subrange(0, i + 1).drop_last() =~= steps@.subrange(0, i as int));
                assert(steps@.subrange(0, i + 1).last() == *step);
                assert(edge_pairs(steps@.subrange(0, i + 1)) == pre + deps.map_values(f));
            }
            i = i + 1;
        }
        assert(steps@.subrange(0, steps@.len() as int) =~= steps@);
        proof {
            assert(self.node_ids() == ids);
            assert(self.edges() == edges);
        }
        TaskGraphData { nodes, edges: out }
    }
}

proof fn lemma_first_missing_prefix(deps: Seq<Seq<char>>, ids: Seq<Seq<char>>, j: int)
    requires
        0 <= j <= deps.len(),
        first_missing(deps.subrange(0, j), ids) is Some,
    ensures
        first_missing(deps, ids) == first_missing(deps.subrange(0, j), ids),
    decreases deps.len() - j,
{
    if j < deps.len() {
        assert(deps.subrange(0, j + 1).drop_last() =~= deps.subrange(0, j));
        lemma_first_missing_prefix(deps, ids, j + 1);
    } else {
        assert(deps.subrange(0, j) =~= deps);
    }
}

proof fn lemma_first_unknown_prefix(steps: Seq<RecipeStep>, ids: Seq<Seq<char>>, i: int)
    requires
        0 <= i <= steps.len(),
        first_unknown_dependency(steps.subrange(0, i), ids) is Some,
    ensures
        first_unknown_dependency(steps, ids) == first_unknown_dependency(steps.subrange(0, i), ids),
    decreases steps.len() - i,
{
    if i < steps.len() {
        assert(steps.subrange(0, i + 1).drop_last() =~= steps.subrange(0, i));
        lemma_first_unknown_prefix(steps, ids, i + 1);
    } else {
        assert(steps.subrange(0, i) =~= steps);
    }
}

} // verus!
