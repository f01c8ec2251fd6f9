use vstd::prelude::*;
use crate::cost::{agg_spec, Cost, CostError, CostModel};
use crate::graph::{far_end, incidence_ok, Direction, Edge, EdgeId, Graph, GraphError, VertexId};
use crate::state_model::{initial_of, StateError, StateModel, StateVar};
use crate::traversal::{TraversalError, TraversalModel};

verus! {

/// One crossed edge of a route or of the search tree.
pub struct EdgeTraversal {
    pub edge_id: EdgeId,
    pub access_cost: Cost,
    pub traversal_cost: Cost,
    pub result_state: Vec<StateVar>,
}

/// The branch of the search tree that reaches `terminal_vertex`.
pub struct SearchTreeBranch {
    pub terminal_vertex: VertexId,
    pub edge_traversal: EdgeTraversal,
}

#[derive(Clone, Debug, PartialEq, Eq)]
pub enum SearchError {
    NoPathExists { origin: VertexId, destination: VertexId },
    GraphError(GraphError),
    TraversalError(TraversalError),
    CostError(CostError),
    StateError(StateError),
}

/// What a search hands back: the route (empty for a tree-only search), the
/// search tree indexed by vertex, and the time spent, in microseconds.
pub struct SearchAppResult {
    pub route: Vec<EdgeTraversal>,
    pub tree: Option<Vec<Option<SearchTreeBranch>>>,
    pub search_runtime: u64,
    pub route_runtime: u64,
    pub total_runtime: u64,
}

/// The search tree indexed by vertex, and the route found.
pub struct SearchOutcome {
    pub tree: Vec<Option<SearchTreeBranch>>,
    pub route: Vec<EdgeTraversal>,
}

/// The vertex an edge leaves from when crossed in `direction`.
pub open spec fn near_end(e: Edge, direction: Direction) -> VertexId {
    match direction {
        Direction::Forward => e.src_vertex_id,
        Direction::Reverse => e.dst_vertex_id,
    }
}

/// `route` crosses edges of `g` one after another, from `from` to `to`.
pub open spec fn is_route(g: Graph, direction: Direction, from: int, to: int, route: Seq<EdgeTraversal>) -> bool {
    &&& forall|i: int| 0 <= i < route.len() ==> (#[trigger] route[i]).edge_id.0 < g.ne()
    &&& route.len() == 0 ==> from == to
    &&& route.len() > 0 ==> near_end(g.edges@[route[0].edge_id.0 as int], direction).0 == from && far_end(
        g.edges@[route[route.len() - 1].edge_id.0 as int],
        direction,
    ).0 == to
    &&& forall|i: int|
        0 <= i < route.len() - 1 ==> far_end(g.edges@[(#[trigger] route[i]).edge_id.0 as int], direction) == near_end(
            g.edges@[route[i + 1].edge_id.0 as int],
            direction,
        )
}

/// The branch stored for `v` leads back over one edge to a settled vertex of
/// smaller depth.
pub open spec fn branch_ok(
    g: Graph,
    direction: Direction,
    tree: Seq<Option<SearchTreeBranch>>,
    settled: Seq<bool>,
    depth: Seq<u64>,
    v: int,
) -> bool {
    &&& tree[v] is Some
    &&& tree[v]->0.terminal_vertex.0 == v
    &&& tree[v]->0.edge_traversal.edge_id.0 < g.ne()
    &&& far_end(g.edges@[tree[v]->0.edge_traversal.edge_id.0 as int], direction).0 == v
    &&& {
        let u = near_end(g.edges@[tree[v]->0.edge_traversal.edge_id.0 as int], direction).0 as int;
        settled[u] && depth[u] < depth[v]
    }
}

/// The search tree rooted at `origin` is consistent.
pub open spec fn tree_ok(
    g: Graph,
    direction: Direction,
    origin: int,
    tree: Seq<Option<SearchTreeBranch>>,
    reached: Seq<bool>,
    settled: Seq<bool>,
    depth: Seq<u64>,
) -> bool {
    &&& tree.len() == g.nv() && reached.len() == g.nv() && settled.len() == g.nv() && depth.len() == g.nv()
    &&& 0 <= origin < g.nv()
    &&& reached[origin] && tree[origin] is None && depth[origin] == 0
    &&& forall|v: int| 0 <= v < g.nv() && #[trigger] settled[v] ==> reached[v]
    &&& forall|v: int| 0 <= v < g.nv() && #[trigger] reached[v] && v != origin ==> branch_ok(g, direction, tree, settled, depth, v)
}

pub open spec fn count_true(s: Seq<bool>) -> nat
    decreases s.len(),
{
    if s.len() == 0 {
        0
    } else {
        count_true(s.drop_last()) + if s.last() { 1nat } else { 0nat }
    }
}

proof fn lemma_count_bound(s: Seq<bool>)
    ensures
        count_true(s) <= s.len(),
    decreases s.len(),
{
    if s.len() > 0 {
        lemma_count_bound(s.drop_last());
    }
}

proof fn lemma_count_set(s: Seq<bool>, i: int)
    requires
        0 <= i < s.len(),
        !s[i],
    ensures
        count_true(s.update(i, true)) == count_true(s) + 1,
    decreases s.len(),
{
    let t = s.update(i, true);
    if i == s.len() - 1 {
        assert(t.drop_last() == s.drop_last());
    } else {
        assert(t.drop_last() == s.drop_last().update(i, true));
        lemma_count_set(s.drop_last(), i);
    }
}

fn near_end_of(e: &Edge, direction: Direction) -> (r: VertexId)
    ensures
        r == near_end(*e, direction),
{
    match direction {
        Direction::Forward => e.src_vertex_id,
        Direction::Reverse => e.dst_vertex_id,
    }
}

/// The initial state of a search over `sm`.
pub open spec fn initial_spec(sm: StateModel) -> Seq<StateVar> {
    Seq::new(sm.n() as nat, |i: int| StateVar(initial_of(sm.feature(i))->0))
}

/// `t` is what crossing its edge from state `prev` gives: the traversal
/// model's next state, and the cost model's access and traversal costs.
pub open spec fn step_ok(
    g: Graph,
    sm: StateModel,
    tm: TraversalModel,
    cm: CostModel,
    prev: Seq<StateVar>,
    t: EdgeTraversal,
) -> bool {
    &&& t.edge_id.0 < g.ne()
    &&& tm.next_state(sm, prev, g.edges@[t.edge_id.0 as int]) == Some(t.result_state@)
    &&& cm.readable(sm, prev, prev)
    &&& t.access_cost.0 as int == agg_spec(cm.aggregation, cm.terms(sm, prev, prev))
    &&& cm.readable(sm, prev, t.result_state@)
    &&& t.traversal_cost.0 as int == agg_spec(cm.aggregation, cm.terms(sm, prev, t.result_state@))
}

/// Each entry of `route` follows from the state before it, starting at `start`.
pub open spec fn steps_ok(
    g: Graph,
    sm: StateModel,
    tm: TraversalModel,
    cm: CostModel,
    start: Seq<StateVar>,
    route: Seq<EdgeTraversal>,
) -> bool {
    &&& route.len() > 0 ==> step_ok(g, sm, tm, cm, start, route[0])
    &&& forall|i: int| 0 < i < route.len() ==> step_ok(g, sm, tm, cm, route[i - 1].result_state@, #[trigger] route[i])
}

/// Every branch holds the state of its vertex, and follows from the state of
/// the vertex it leaves.
pub open spec fn states_ok(
    g: Graph,
    sm: StateModel,
    tm: TraversalModel,
    cm: CostModel,
    direction: Direction,
    tree: Seq<Option<SearchTreeBranch>>,
    states: Seq<Vec<StateVar>>,
) -> bool {
    forall|v: int|
        0 <= v < tree.len() && (#[trigger] tree[v]) is Some ==> {
            let t = tree[v]->0.edge_traversal;
            &&& t.result_state@ == states[v]@
            &&& t.edge_id.0 < g.ne()
            &&& step_ok(g, sm, tm, cm, states[near_end(g.edges@[t.edge_id.0 as int], direction).0 as int]@, t)
        }
}

/// The state at the end of `route`, started in `start`.
pub open spec fn end_state(start: Seq<StateVar>, route: Seq<EdgeTraversal>) -> Seq<StateVar> {
    if route.len() == 0 {
        start
    } else {
        route[route.len() - 1].result_state@
    }
}

/// Every reached vertex is the end of a route from the origin whose steps
/// follow the models from the initial state and end in the vertex's state.
proof fn lemma_tree_route(
    g: Graph,
    direction: Direction,
    origin: int,
    tree: Seq<Option<SearchTreeBranch>>,
    reached: Seq<bool>,
    settled: Seq<bool>,
    depth: Seq<u64>,
    states: Seq<Vec<StateVar>>,
    sm: StateModel,
    tm: TraversalModel,
    cm: CostModel,
    v: int,
) -> (route: Seq<EdgeTraversal>)
    requires
        g.wf(),
        tree_ok(g, direction, origin, tree, reached, settled, depth),
        states.len() == g.nv(),
        states_ok(g, sm, tm, cm, direction, tree, states),
        states[origin]@ == initial_spec(sm),
        0 <= v < g.nv(),
        reached[v],
    ensures
        is_route(g, direction, origin, v, route),
        steps_ok(g, sm, tm, cm, initial_spec(sm), route),
        end_state(initial_spec(sm), route) == states[v]@,
    decreases depth[v],
{
    if v == origin {
        Seq::empty()
    } else {
        assert(branch_ok(g, direction, tree, settled, depth, v));
        let t = tree[v]->0.edge_traversal;
        let e = t.edge_id.0 as int;
        assert(g.edges@[e].src_vertex_id.0 < g.nv() && g.edges@[e].dst_vertex_id.0 < g.nv());
        let u = near_end(g.edges@[e], direction).0 as int;
        assert(settled[u]);
        let r = lemma_tree_route(g, direction, origin, tree, reached, settled, depth, states, sm, tm, cm, u);
        let route = r.push(t);
        assert forall|i: int| 0 < i < route.len() implies step_ok(
            g,
            sm,
            tm,
            cm,
            route[i - 1].result_state@,
            #[trigger] route[i],
        ) by {
            if i < r.len() {
                assert(route[i] == r[i] && route[i - 1] == r[i - 1]);
            }
        }
        assert forall|i: int| 0 <= i < route.len() - 1 implies far_end(
            g.edges@[(#[trigger] route[i]).edge_id.0 as int],
            direction,
        ) == near_end(g.edges@[route[i + 1].edge_id.0 as int], direction) by {
            if i + 1 < r.len() {
                assert(route[i] == r[i] && route[i + 1] == r[i + 1]);
            }
        }
        assert forall|i: int| 0 <= i < route.len() implies (#[trigger] route[i]).edge_id.0 < g.ne() by {
            if i < r.len() {
                assert(route[i] == r[i]);
            }
        }
        if r.len() > 0 {
            assert(route[0] == r[0]);
        }
        route
    }
}

/// Some route from `origin`, following the models from the initial state,
/// ends in a state from which the traversal model fails on a next edge.
#[verifier::opaque]
pub open spec fn traversal_fails(g: Graph, direction: Direction, origin: int, sm: StateModel, tm: TraversalModel, cm: CostModel) -> bool {
    exists|route: Seq<EdgeTraversal>, e: int|
        #![trigger is_route(g, direction, origin, near_end(g.edges@[e], direction).0 as int, route)]
        0 <= e < g.ne() && is_route(g, direction, origin, near_end(g.edges@[e], direction).0 as int, route) && steps_ok(
            g,
            sm,
            tm,
            cm,
            initial_spec(sm),
            route,
        ) && tm.next_state(sm, end_state(initial_spec(sm), route), g.edges@[e]) is None
}

/// Some route from `origin`, following the models from the initial state,
/// ends in a state where the cost model cannot price the access step or the
/// crossing of a next edge.
#[verifier::opaque]
pub open spec fn cost_fails(g: Graph, direction: Direction, origin: int, sm: StateModel, tm: TraversalModel, cm: CostModel) -> bool {
    exists|route: Seq<EdgeTraversal>, e: int|
        #![trigger is_route(g, direction, origin, near_end(g.edges@[e], direction).0 as int, route)]
        0 <= e < g.ne() && is_route(g, direction, origin, near_end(g.edges@[e], direction).0 as int, route) && steps_ok(
            g,
            sm,
            tm,
            cm,
            initial_spec(sm),
            route,
        ) && ({
            let st = end_state(initial_spec(sm), route);
            !cm.readable(sm, st, st) || (tm.next_state(sm, st, g.edges@[e]) is Some && !cm.readable(
                sm,
                st,
                tm.next_state(sm, st, g.edges@[e])->0,
            ))
        })
}

/// The failure of a model call on the state of a reached vertex `u`, for an
/// edge `e` leaving it, is a failure on a route from the origin.
proof fn lemma_failure_on_route(
    g: Graph,
    direction: Direction,
    origin: int,
    tree: Seq<Option<SearchTreeBranch>>,
    reached: Seq<bool>,
    settled: Seq<bool>,
    depth: Seq<u64>,
    states: Seq<Vec<StateVar>>,
    sm: StateModel,
    tm: TraversalModel,
    cm: CostModel,
    u: int,
    e: int,
)
    requires
        g.wf(),
        tree_ok(g, direction, origin, tree, reached, settled, depth),
        states.len() == g.nv(),
        states_ok(g, sm, tm, cm, direction, tree, states),
        states[origin]@ == initial_spec(sm),
        0 <= u < g.nv(),
        reached[u],
        0 <= e < g.ne(),
        near_end(g.edges@[e], direction).0 == u,
    ensures
        tm.next_state(sm, states[u]@, g.edges@[e]) is None ==> traversal_fails(g, direction, origin, sm, tm, cm),
        ({
            let st = states[u]@;
            !cm.readable(sm, st, st) || (tm.next_state(sm, st, g.edges@[e]) is Some && !cm.readable(
                sm,
                st,
                tm.next_state(sm, st, g.edges@[e])->0,
            ))
        }) ==> cost_fails(g, direction, origin, sm, tm, cm),
{
    let w = lemma_tree_route(g, direction, origin, tree, reached, settled, depth, states, sm, tm, cm, u);
    reveal(traversal_fails);
    reveal(cost_fails);
    assert(is_route(g, direction, origin, near_end(g.edges@[e], direction).0 as int, w));
}

/// Follows the tree back from `destination` to `origin`.
fn backtrack(
    g: &Graph,
    direction: Direction,
    origin: usize,
    destination: usize,
    tree: &Vec<Option<SearchTreeBranch>>,
    depth: &Vec<u64>,
    Ghost(reached): Ghost<Seq<bool>>,
    Ghost(settled): Ghost<Seq<bool>>,
    Ghost(states): Ghost<Seq<Vec<StateVar>>>,
    Ghost(sm): Ghost<StateModel>,
    Ghost(tm): Ghost<TraversalModel>,
    Ghost(cm): Ghost<CostModel>,
) -> (r: Vec<EdgeTraversal>)
    requires
        g.wf(),
        tree_ok(*g, direction, origin as int, tree@, reached, settled, depth@),
        states.len() == g.nv(),
        states_ok(*g, sm, tm, cm, direction, tree@, states),
        0 <= destination < g.nv(),
        reached[destination as int],
    ensures
        is_route(*g, direction, origin as int, destination as int, r@),
        steps_ok(*g, sm, tm, cm, states[origin as int]@, r@),
{
    let mut route: Vec<EdgeTraversal> = Vec::new();
    let mut v: usize = destination;
    while v != origin
        invariant
            g.wf(),
            tree_ok(*g, direction, origin as int, tree@, reached, settled, depth@),
            0 <= v < g.nv(),
            reached[v as int],
            is_route(*g, direction, v as int, destination as int, route@),
            states.len() == g.nv(),
            states_ok(*g, sm, tm, cm, direction, tree@, states),
            steps_ok(*g, sm, tm, cm, states[v as int]@, route@),
        decreases depth@[v as int],
    {
        assert(branch_ok(*g, direction, tree@, settled, depth@, v as int));
        let b = tree[v].as_ref().unwrap();
        let e = b.edge_traversal.edge_id;
        assert(e == tree@[v as int]->0.edge_traversal.edge_id);
        let ne = g.edges.len();
        assert(e.0 < ne);
        let ei = e.0 as usize;
        let edge = &g.edges[ei];
        assert(*edge == g.edges@[e.0 as int]);
        assert(edge.src_vertex_id.0 < g.nv() && edge.dst_vertex_id.0 < g.nv());
        let nv = g.vertices.len();
        let u = near_end_of(edge, direction).0 as usize;
        assert(settled[u as int]);
        let step = EdgeTraversal {
            edge_id: e,
            access_cost: b.edge_traversal.access_cost,
            traversal_cost: b.edge_traversal.traversal_cost,
            result_state: b.edge_traversal.result_state.clone(),
        };
        assert(step.result_state@ == b.edge_traversal.result_state@);
        let ghost old_route = route@;
        route.insert(0, step);
        proof {
            assert(route@ == old_route.insert(0, step));
            assert forall|i: int| 0 <= i < route@.len() - 1 implies far_end(
                g.edges@[(#[trigger] route@[i]).edge_id.0 as int],
                direction,
            ) == near_end(g.edges@[route@[i + 1].edge_id.0 as int], direction) by {
                if i > 0 {
                    assert(route@[i] == old_route[i - 1]);
                    assert(route@[i + 1] == old_route[i]);
                }
            }
            assert forall|i: int| 0 <= i < route@.len() implies (#[trigger] route@[i]).edge_id.0 < g.ne() by {
                if i > 0 {
                    assert(route@[i] == old_route[i - 1]);
                }
            }
            assert(tree@[v as int] is Some);
            assert(step_ok(*g, sm, tm, cm, states[u as int]@, step));
            assert forall|i: int| 0 < i < route@.len() implies step_ok(
                *g,
                sm,
                tm,
                cm,
                route@[i - 1].result_state@,
                #[trigger] route@[i],
            ) by {
                assert(route@[i] == old_route[i - 1]);
                if i > 1 {
                    assert(route@[i - 1] == old_route[i - 2]);
                }
            }
        }
        v = u;
    }
    route
}


/// Every edge leaving a settled vertex leads to a reached vertex.
pub open spec fn closed(g: Graph, direction: Direction, settled: Seq<bool>, reached: Seq<bool>) -> bool {
    forall|e: int|
        0 <= e < g.ne() && #[trigger] settled[near_end(g.edges@[e], direction).0 as int] ==> reached[far_end(
            g.edges@[e],
            direction,
        ).0 as int]
}

/// When every reached vertex is settled and the reached set is closed
/// under edges, every route from the origin ends at a reached vertex.
proof fn lemma_routes_stay_reached(
    g: Graph,
    direction: Direction,
    origin: int,
    to: int,
    route: Seq<EdgeTraversal>,
    settled: Seq<bool>,
    reached: Seq<bool>,
)
    requires
        g.wf(),
        0 <= origin < g.nv(),
        settled.len() == g.nv(),
        reached.len() == g.nv(),
        reached[origin],
        forall|v: int| 0 <= v < g.nv() && #[trigger] reached[v] ==> settled[v],
        closed(g, direction, settled, reached),
        is_route(g, direction, origin, to, route),
    ensures
        reached[to],
{
    if route.len() > 0 {
        lemma_route_prefix(g, direction, origin, to, route, settled, reached, route.len() - 1);
    }
}

proof fn lemma_route_prefix(
    g: Graph,
    direction: Direction,
    origin: int,
    to: int,
    route: Seq<EdgeTraversal>,
    settled: Seq<bool>,
    reached: Seq<bool>,
    i: int,
)
    requires
        g.wf(),
        0 <= origin < g.nv(),
        settled.len() == g.nv(),
        reached.len() == g.nv(),
        reached[origin],
        forall|v: int| 0 <= v < g.nv() && #[trigger] reached[v] ==> settled[v],
        closed(g, direction, settled, reached),
        is_route(g, direction, origin, to, route),
        0 <= i < route.len(),
    ensures
        reached[far_end(g.edges@[route[i].edge_id.0 as int], direction).0 as int],
    decreases i,
{
    if i > 0 {
        lemma_route_prefix(g, direction, origin, to, route, settled, reached, i - 1);
        assert(far_end(g.edges@[route[i - 1].edge_id.0 as int], direction) == near_end(
            g.edges@[route[i].edge_id.0 as int],
            direction,
        ));
    }
    let e = route[i].edge_id.0 as int;
    assert(0 <= e < g.ne());
    let a = near_end(g.edges@[e], direction).0 as int;
    assert(g.edges@[e].src_vertex_id.0 < g.nv() && g.edges@[e].dst_vertex_id.0 < g.nv());
    assert(reached[a]);
    assert(settled[a]);
}

/// Every stored branch belongs to a reached vertex other than the origin.
pub open spec fn branches_reached(origin: int, tree: Seq<Option<SearchTreeBranch>>, reached: Seq<bool>) -> bool {
    forall|v: int| 0 <= v < tree.len() && (#[trigger] tree[v]) is Some ==> reached[v] && v != origin
}

/// A least-cost search from `origin` over `g` in `direction`. The frontier
/// is expanded by lowest accumulated cost, ties going to the lower vertex id;
/// the search stops at `destination` when one is given, else when every
/// reachable vertex is settled. Returns the search tree, indexed by vertex,
/// and the route to `destination` (empty without one).
pub fn run_search(
    g: &Graph,
    sm: &StateModel,
    traversal: &TraversalModel,
    cost: &CostModel,
    origin: VertexId,
    destination: Option<VertexId>,
    direction: Direction,
) -> (r: Result<SearchOutcome, SearchError>)
    requires
        g.wf(),
        sm.wf(),
    ensures
        origin.0 >= g.nv() ==> r is Err,
        destination is Some && destination.unwrap().0 >= g.nv() ==> r is Err,
        r is Ok ==> r->Ok_0.tree@.len() == g.nv(),
        r is Ok ==> forall|v: int| 0 <= v < g.nv() && (#[trigger] r->Ok_0.tree@[v]) is Some ==> {
            let b = r->Ok_0.tree@[v]->0;
            &&& b.terminal_vertex.0 == v
            &&& b.edge_traversal.edge_id.0 < g.ne()
            &&& far_end(g.edges@[b.edge_traversal.edge_id.0 as int], direction).0 == v
        },
        r is Ok && destination is Some ==> is_route(
            *g,
            direction,
            origin.0 as int,
            destination.unwrap().0 as int,
            r->Ok_0.route@,
        ),
        r is Ok && destination is None ==> r->Ok_0.route@.len() == 0,
        r is Ok && destination is Some ==> steps_ok(*g, *sm, *traversal, *cost, initial_spec(*sm), r->Ok_0.route@),
        r is Err && r->Err_0 is NoPathExists ==> destination is Some && forall|route: Seq<EdgeTraversal>|
            !is_route(*g, direction, origin.0 as int, destination.unwrap().0 as int, route),
        destination is Some && (exists|route: Seq<EdgeTraversal>|
            is_route(*g, direction, origin.0 as int, destination.unwrap().0 as int, route)) ==> !(r is Err
            && r->Err_0 is NoPathExists),
        r is Err && r->Err_0 is GraphError ==> origin.0 >= g.nv() || (destination is Some && destination.unwrap().0
            >= g.nv()),
        r is Err && r->Err_0 is StateError ==> exists|i: int|
            0 <= i < sm.n() && initial_of(#[trigger] sm.feature(i)) is None,
        r is Err && r->Err_0 is TraversalError ==> traversal_fails(*g, direction, origin.0 as int, *sm, *traversal, *cost),
        r is Err && r->Err_0 is CostError ==> cost_fails(*g, direction, origin.0 as int, *sm, *traversal, *cost),
{
    let nv = g.vertices.len();
    if origin.0 >= nv as u64 {
        return Err(SearchError::GraphError(GraphError::VertexAttributeNotFound { vertex_id: origin }));
    }
    let o = origin.0 as usize;
    let dest: Option<usize> = match destination {
        Some(d) => {
            if d.0 >= nv as u64 {
                return Err(SearchError::GraphError(GraphError::VertexAttributeNotFound { vertex_id: d }));
            }
            Some(d.0 as usize)
        },
        None => None,
    };
    let init = match sm.initial_state() {
        Ok(s) => s,
        Err(e) => {
            return Err(SearchError::StateError(e));
        },
    };
    let mut reached: Vec<bool> = Vec::new();
    let mut settled: Vec<bool> = Vec::new();
    let mut gs: Vec<u64> = Vec::new();
    let mut depth: Vec<u64> = Vec::new();
    let mut states: Vec<Vec<StateVar>> = Vec::new();
    let mut tree: Vec<Option<SearchTreeBranch>> = Vec::new();
    let mut i: usize = 0;
    while i < nv
        invariant
            i <= nv,
            reached@.len() == i && settled@.len() == i && gs@.len() == i && depth@.len() == i && states@.len() == i
                && tree@.len() == i,
            forall|j: int| 0 <= j < i ==> !(#[trigger] reached@[j]),
            forall|j: int| 0 <= j < i ==> !(#[trigger] settled@[j]),
            forall|j: int| 0 <= j < i ==> #[trigger] depth@[j] == 0,
            forall|j: int| 0 <= j < i ==> (#[trigger] tree@[j]) is None,
        decreases nv - i,
    {
        reached.push(false);
        settled.push(false);
        gs.push(0);
        depth.push(0);
        states.push(Vec::new());
        tree.push(None);
        i = i + 1;
    }
    let ghost reached0 = reached@;
    proof {
        assert(init@ =~= initial_spec(*sm));
    }
    reached.set(o, true);
    states.set(o, init);
    proof {
        lemma_count_zero(settled@);
        assert forall|v: int| 0 <= v < nv && #[trigger] reached@[v] implies v == o by {
            if v != o {
                assert(reached@[v] == reached0[v]);
            }
        }
    }
    let mut n_settled: usize = 0;
    let mut found = false;
    let mut stop = false;
    while !stop
        invariant
            g.wf(),
            sm.wf(),
            nv == g.nv(),
            o == origin.0,
            o < nv,
            dest is Some <==> destination is Some,
            dest is Some ==> dest->0 as int == destination.unwrap().0 as int,
            dest is Some ==> dest->0 < nv,
            gs@.len() == nv,
            states@.len() == nv,
            tree_ok(*g, direction, o as int, tree@, reached@, settled@, depth@),
            branches_reached(o as int, tree@, reached@),
            forall|v: int| 0 <= v < nv && #[trigger] reached@[v] && v != o ==> settled@[o as int],
            n_settled == count_true(settled@),
            forall|v: int| 0 <= v < nv && #[trigger] reached@[v] ==> depth@[v] <= n_settled,
            found ==> dest is Some && reached@[dest->0 as int],
            !stop ==> !found,
            closed(*g, direction, settled@, reached@),
            states_ok(*g, *sm, *traversal, *cost, direction, tree@, states@),
            states@[o as int]@ == initial_spec(*sm),
            forall|v: int| 0 <= v < nv && #[trigger] reached@[v] ==> states@[v]@.len() == sm.n(),
            dest is Some ==> !settled@[dest->0 as int],
            stop && !found ==> forall|v: int| 0 <= v < nv && #[trigger] reached@[v] ==> settled@[v],
        decreases nv - n_settled, (if stop { 0int } else { 1int }),
    {
        proof {
            lemma_count_bound(settled@);
        }
        let mut best: usize = nv;
        let mut k: usize = 0;
        while k < nv
            invariant
                k <= nv,
                reached@.len() == nv,
                settled@.len() == nv,
                gs@.len() == nv,
                best == nv || (best < nv && reached@[best as int] && !settled@[best as int]),
                best == nv ==> forall|w: int| 0 <= w < k ==> !(#[trigger] reached@[w] && !settled@[w]),
            decreases nv - k,
        {
            if reached[k] && !settled[k] && (best == nv || gs[k] < gs[best]) {
                best = k;
            }
            k = k + 1;
        }
        if best == nv {
            stop = true;
        } else if dest == Some(best) {
            found = true;
            stop = true;
        } else {
            let u = best;
            proof {
                lemma_count_set(settled@, u as int);
                lemma_count_bound(settled@.update(u as int, true));
                assert(u == o || settled@[o as int]);
            }
            let ghost settled_before = settled@;
            settled.set(u, true);
            n_settled = n_settled + 1;
            let triplets = match g.incident_triplets(VertexId(u as u64), direction) {
                Ok(t) => t,
                Err(e) => {
                    return Err(SearchError::GraphError(e));
                },
            };
            let ghost l = g.incidence(VertexId(u as u64), direction);
            proof {
                assert(incidence_ok(g.edges@, l, u as int, g.ne(), direction is Forward));
            }
            let mut j: usize = 0;
            while j < triplets.len()
                invariant
                    g.wf(),
                    sm.wf(),
                    nv == g.nv(),
                    o == origin.0,
                    o < nv,
                    u < nv,
                    u != o ==> settled@[o as int],
                    settled@[u as int],
                    reached@[u as int],
                    depth@[u as int] < n_settled,
                    n_settled <= nv,
                    l == g.incidence(VertexId(u as u64), direction),
                    incidence_ok(g.edges@, l, u as int, g.ne(), direction is Forward),
                    triplets@.len() == l.len(),
                    forall|t: int| 0 <= t < l.len() ==> #[trigger] triplets@[t] == (VertexId(u as u64), l[t].0, l[t].1),
                    gs@.len() == nv,
                    states@.len() == nv,
                    tree_ok(*g, direction, o as int, tree@, reached@, settled@, depth@),
                    branches_reached(o as int, tree@, reached@),
                    forall|v: int| 0 <= v < nv && #[trigger] reached@[v] && v != o ==> settled@[o as int],
                    n_settled == count_true(settled@),
                    forall|v: int| 0 <= v < nv && #[trigger] reached@[v] ==> depth@[v] <= n_settled,
                    j <= triplets@.len(),
                    forall|t: int| 0 <= t < j ==> reached@[(#[trigger] l[t]).1.0 as int],
                    forall|e: int|
                        0 <= e < g.ne() && #[trigger] settled@[near_end(g.edges@[e], direction).0 as int] && near_end(
                            g.edges@[e],
                            direction,
                        ).0 != u ==> reached@[far_end(g.edges@[e], direction).0 as int],
                    dest is Some ==> !settled@[dest->0 as int],
                    states_ok(*g, *sm, *traversal, *cost, direction, tree@, states@),
                    states@[o as int]@ == initial_spec(*sm),
                    forall|v: int| 0 <= v < nv && #[trigger] reached@[v] ==> states@[v]@.len() == sm.n(),
                    dest is Some <==> destination is Some,
                    dest is Some ==> dest->0 < nv,
                decreases triplets@.len() - j,
            {
                let (_, e, v) = triplets[j];
                assert(triplets@[j as int] == (VertexId(u as u64), l[j as int].0, l[j as int].1));
                let ne = g.edges.len();
                assert(e.0 < ne);
                let edge = &g.edges[e.0 as usize];
                assert(*edge == g.edges@[e.0 as int]);
                assert(v == far_end(*edge, direction) && near_end(*edge, direction).0 == u);
                assert(edge.src_vertex_id.0 < nv && edge.dst_vertex_id.0 < nv);
                let ghost su = states@[u as int]@;
                let next = match traversal.traverse(sm, edge, states[u].as_slice()) {
                    Ok(s) => s,
                    Err(err) => {
                        proof {
                            lemma_failure_on_route(*g, direction, o as int, tree@, reached@, settled@, depth@, states@, *sm, *traversal, *cost, u as int, e.0 as int);
                        }
                        return Err(SearchError::TraversalError(err));
                    },
                };
                let ac = match cost.access_cost(sm, states[u].as_slice(), states[u].as_slice()) {
                    Ok(c) => c,
                    Err(err) => {
                        proof {
                            lemma_failure_on_route(*g, direction, o as int, tree@, reached@, settled@, depth@, states@, *sm, *traversal, *cost, u as int, e.0 as int);
                        }
                        return Err(SearchError::CostError(err));
                    },
                };
                let tc = match cost.traversal_cost(sm, states[u].as_slice(), next.as_slice()) {
                    Ok(c) => c,
                    Err(err) => {
                        proof {
                            lemma_failure_on_route(*g, direction, o as int, tree@, reached@, settled@, depth@, states@, *sm, *traversal, *cost, u as int, e.0 as int);
                        }
                        return Err(SearchError::CostError(err));
                    },
                };
                let gv = gs[u].saturating_add(ac.0).saturating_add(tc.0);
                let vi = v.0 as usize;
                if !settled[vi] && (!reached[vi] || gv < gs[vi]) {
                    let branch = SearchTreeBranch {
                        terminal_vertex: v,
                        edge_traversal: EdgeTraversal {
                            edge_id: e,
                            access_cost: ac,
                            traversal_cost: tc,
                            result_state: next.clone(),
                        },
                    };
                    assert(branch.edge_traversal.result_state@ == next@);
                    let ghost states0 = states@;
                    let du = depth[u];
                    let ghost tree0 = tree@;
                    let ghost reached0 = reached@;
                    let ghost depth0 = depth@;
                    assert(vi != o);
                    gs.set(vi, gv);
                    reached.set(vi, true);
                    depth.set(vi, du + 1);
                    tree.set(vi, Some(branch));
                    states.set(vi, next);
                    proof {
                        assert forall|w: int| 0 <= w < nv && #[trigger] reached@[w] && w != o implies branch_ok(
                            *g,
                            direction,
                            tree@,
                            settled@,
                            depth@,
                            w,
                        ) by {
                            if w != vi {
                                assert(reached0[w]);
                                assert(branch_ok(*g, direction, tree0, settled@, depth0, w));
                                let pu = near_end(g.edges@[tree0[w]->0.edge_traversal.edge_id.0 as int], direction).0 as int;
                                assert(settled@[pu]);
                                assert(pu != vi);
                            }
                        }
                        assert forall|w: int| 0 <= w < nv && #[trigger] settled@[w] implies reached@[w] by {
                            if w != vi {
                                assert(reached0[w]);
                            }
                        }
                        assert forall|w: int| 0 <= w < tree@.len() && (#[trigger] tree@[w]) is Some implies reached@[w]
                            && w != o by {
                            if w != vi {
                                assert(tree0[w] is Some);
                            }
                        }
                        assert forall|w: int| 0 <= w < nv && #[trigger] reached@[w] implies states@[w]@.len() == sm.n() by {
                            if w != vi {
                                assert(reached0[w]);
                            }
                        }
                        assert forall|w: int| 0 <= w < tree@.len() && (#[trigger] tree@[w]) is Some implies {
                            let t = tree@[w]->0.edge_traversal;
                            &&& t.result_state@ == states@[w]@
                            &&& t.edge_id.0 < g.ne()
                            &&& step_ok(
                                *g,
                                *sm,
                                *traversal,
                                *cost,
                                states@[near_end(g.edges@[t.edge_id.0 as int], direction).0 as int]@,
                                t,
                            )
                        } by {
                            if w != vi {
                                assert(tree0[w] is Some);
                                assert(reached0[w] && w != o);
                                assert(branch_ok(*g, direction, tree0, settled@, depth0, w));
                                let pu = near_end(g.edges@[tree0[w]->0.edge_traversal.edge_id.0 as int], direction).0 as int;
                                assert(pu != vi);
                                assert(states@[pu] == states0[pu]);
                            } else {
                                assert(states@[u as int] == states0[u as int]);
                            }
                        }
                    }
                }
                assert(reached@[v.0 as int]);
                j = j + 1;
            }
            proof {
                assert forall|e: int|
                    0 <= e < g.ne() && #[trigger] settled@[near_end(g.edges@[e], direction).0 as int] implies reached@[far_end(
                        g.edges@[e],
                        direction,
                    ).0 as int] by {
                    if near_end(g.edges@[e], direction).0 == u {
                        let t = choose|t: int| 0 <= t < l.len() && (#[trigger] l[t]).0.0 == e;
                        assert(reached@[l[t].1.0 as int]);
                    }
                }
            }
        }
    }
    match dest {
        None => Ok(SearchOutcome { tree, route: Vec::new() }),
        Some(d) => {
            if !found {
                proof {
                    assert forall|route: Seq<EdgeTraversal>|
                        !is_route(*g, direction, origin.0 as int, d as int, route) by {
                        if is_route(*g, direction, origin.0 as int, d as int, route) {
                            lemma_routes_stay_reached(*g, direction, o as int, d as int, route, settled@, reached@);
                        }
                    }
                }
                return Err(
                    SearchError::NoPathExists { origin, destination: VertexId(d as u64) },
                );
            }
            let route = backtrack(
                g,
                direction,
                o,
                d,
                &tree,
                &depth,
                Ghost(reached@),
                Ghost(settled@),
                Ghost(states@),
                Ghost(*sm),
                Ghost(*traversal),
                Ghost(*cost),
            );
            Ok(SearchOutcome { tree, route })
        },
    }
}

proof fn lemma_count_zero(s: Seq<bool>)
    requires
        forall|j: int| 0 <= j < s.len() ==> !s[j],
    ensures
        count_true(s) == 0,
    decreases s.len(),
{
    if s.len() > 0 {
        lemma_count_zero(s.drop_last());
    }
}

} // verus!
