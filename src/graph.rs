use vstd::prelude::*;

verus! {

#[derive(Clone, Copy, Debug, PartialEq, Eq, Structural)]
pub struct VertexId(pub u64);

#[derive(Clone, Copy, Debug, PartialEq, Eq, Structural)]
pub struct EdgeId(pub u64);

/// A vertex; its coordinate is in millionths of a degree.
#[derive(Clone, Copy, Debug, PartialEq, Eq, Structural)]
pub struct Vertex {
    pub vertex_id: VertexId,
    pub x: i64,
    pub y: i64,
}

/// A directed edge; `distance` is in millionths of a metre and `grade` in
/// millionths (rise over run).
#[derive(Clone, Copy, Debug, PartialEq, Eq, Structural)]
pub struct Edge {
    pub edge_id: EdgeId,
    pub src_vertex_id: VertexId,
    pub dst_vertex_id: VertexId,
    pub road_class: u8,
    pub distance: u64,
    pub grade: i64,
}

#[derive(Clone, Copy, Debug, PartialEq, Eq, Structural)]
pub enum Direction {
    Forward,
    Reverse,
}

#[derive(Clone, Copy, Debug, PartialEq, Eq, Structural)]
pub enum GraphError {
    EdgeAttributeNotFound { edge_id: EdgeId },
    VertexAttributeNotFound { vertex_id: VertexId },
    VertexWithoutOutEdges { vertex_id: VertexId },
    VertexWithoutInEdges { vertex_id: VertexId },
    /// A vertex row whose id is not its position.
    VertexIdNotDense { position: usize, vertex_id: VertexId },
    /// An edge row whose id is not its position.
    EdgeIdNotDense { position: usize, edge_id: EdgeId },
    /// An edge whose source or destination is not a vertex.
    EdgeEndpointMissing { edge_id: EdgeId },
}

/// An immutable directed graph whose vertex and edge ids are their positions.
/// `adj[v]` lists the edges leaving `v` with their destinations, `rev[v]` the
/// edges entering `v` with their sources, each by increasing edge id.
pub struct Graph {
    pub adj: Vec<Vec<(EdgeId, VertexId)>>,
    pub rev: Vec<Vec<(EdgeId, VertexId)>>,
    pub edges: Vec<Edge>,
    pub vertices: Vec<Vertex>,
}

/// Rows `0..n` of `vs` carry their own position as id.
pub open spec fn vertices_dense(vs: Seq<Vertex>, n: int) -> bool {
    forall|i: int| 0 <= i < n ==> (#[trigger] vs[i]).vertex_id.0 == i
}

/// Edge rows `0..n` carry their own position as id and join two of `nv` vertices.
pub open spec fn edges_dense(es: Seq<Edge>, n: int, nv: int) -> bool {
    forall|i: int|
        0 <= i < n ==> (#[trigger] es[i]).edge_id.0 == i && es[i].src_vertex_id.0 < nv && es[i].dst_vertex_id.0
            < nv
}

/// The list `l` of vertex `v` holds exactly the edges `e < n` whose `from`
/// end is `v`, by increasing id, each with its `to` end.
pub open spec fn incidence_ok(es: Seq<Edge>, l: Seq<(EdgeId, VertexId)>, v: int, n: int, forward: bool) -> bool {
    &&& forall|j: int| 0 <= j < l.len() ==> {
        let e = (#[trigger] l[j]).0.0 as int;
        &&& 0 <= e < n
        &&& forward ==> es[e].src_vertex_id.0 == v && l[j].1 == es[e].dst_vertex_id
        &&& !forward ==> es[e].dst_vertex_id.0 == v && l[j].1 == es[e].src_vertex_id
    }
    &&& forall|j: int, k: int| 0 <= j < k < l.len() ==> (#[trigger] l[j]).0.0 < (#[trigger] l[k]).0.0
    &&& forall|e: int|
        0 <= e < n && (if forward { es[e].src_vertex_id.0 == v } else { es[e].dst_vertex_id.0 == v }) ==> exists|j: int|
            0 <= j < l.len() && (#[trigger] l[j]).0.0 == e
}

impl Graph {
    pub open spec fn nv(&self) -> int {
        self.vertices@.len() as int
    }

    pub open spec fn ne(&self) -> int {
        self.edges@.len() as int
    }

    pub open spec fn wf(&self) -> bool {
        &&& self.adj@.len() == self.nv()
        &&& self.rev@.len() == self.nv()
        &&& vertices_dense(self.vertices@, self.nv())
        &&& edges_dense(self.edges@, self.ne(), self.nv())
        &&& forall|v: int| 0 <= v < self.nv() ==> incidence_ok(self.edges@, (#[trigger] self.adj@[v])@, v, self.ne(), true)
        &&& forall|v: int| 0 <= v < self.nv() ==> incidence_ok(self.edges@, (#[trigger] self.rev@[v])@, v, self.ne(), false)
    }

    /// Builds the graph from its vertex and edge rows, which must be dense:
    /// the row at position `i` has id `i`, and every edge joins two vertices.
    pub fn new(vertices: Vec<Vertex>, edges: Vec<Edge>) -> (r: Result<Graph, GraphError>)
        ensures
            (vertices_dense(vertices@, vertices@.len() as int) && edges_dense(edges@, edges@.len() as int, vertices@.len() as int))
                <==> r is Ok,
            r is Ok ==> r->Ok_0.wf() && r->Ok_0.vertices@ == vertices@ && r->Ok_0.edges@ == edges@,
    {
        let nv = vertices.len();
        let mut i: usize = 0;
        while i < nv
            invariant
                nv == vertices@.len(),
                i <= nv,
                vertices_dense(vertices@, i as int),
            decreases nv - i,
        {
            if vertices[i].vertex_id.0 != i as u64 {
                return Err(GraphError::VertexIdNotDense { position: i, vertex_id: vertices[i].vertex_id });
            }
            i = i + 1;
        }
        let mut adj: Vec<Vec<(EdgeId, VertexId)>> = Vec::new();
        let mut rev: Vec<Vec<(EdgeId, VertexId)>> = Vec::new();
        let mut v: usize = 0;
        while v < nv
            invariant
                v <= nv,
                adj@.len() == v,
                rev@.len() == v,
                forall|w: int| 0 <= w < v ==> (#[trigger] adj@[w])@.len() == 0,
                forall|w: int| 0 <= w < v ==> (#[trigger] rev@[w])@.len() == 0,
            decreases nv - v,
        {
            adj.push(Vec::new());
            rev.push(Vec::new());
            v = v + 1;
        }
        let ne = edges.len();
        let mut e: usize = 0;
        while e < ne
            invariant
                nv == vertices@.len(),
                ne == edges@.len(),
                e <= ne,
                adj@.len() == nv,
                rev@.len() == nv,
                edges_dense(edges@, e as int, nv as int),
                forall|w: int| 0 <= w < nv ==> incidence_ok(edges@, (#[trigger] adj@[w])@, w, e as int, true),
                forall|w: int| 0 <= w < nv ==> incidence_ok(edges@, (#[trigger] rev@[w])@, w, e as int, false),
            decreases ne - e,
        {
            let edge = edges[e];
            if edge.edge_id.0 != e as u64 {
                return Err(GraphError::EdgeIdNotDense { position: e, edge_id: edge.edge_id });
            }
            if edge.src_vertex_id.0 >= nv as u64 || edge.dst_vertex_id.0 >= nv as u64 {
                return Err(GraphError::EdgeEndpointMissing { edge_id: edge.edge_id });
            }
            let s = edge.src_vertex_id.0 as usize;
            let d = edge.dst_vertex_id.0 as usize;
            let ghost adj0 = adj@;
            let ghost rev0 = rev@;
            adj[s].push((edge.edge_id, edge.dst_vertex_id));
            rev[d].push((edge.edge_id, edge.src_vertex_id));
            proof {
                assert forall|w: int| 0 <= w < nv implies incidence_ok(edges@, (#[trigger] adj@[w])@, w, e + 1, true) by {
                    let l = adj@[w]@;
                    let l0 = adj0[w]@;
                    assert(incidence_ok(edges@, l0, w, e as int, true));
                    if w == s {
                        assert(l == l0.push((edge.edge_id, edge.dst_vertex_id)));
                        assert forall|x: int| 0 <= x < e + 1 && edges@[x].src_vertex_id.0 == w implies exists|j: int|
                            0 <= j < l.len() && (#[trigger] l[j]).0.0 == x by {
                            if x == e {
                                assert(l[l.len() - 1].0.0 == x);
                            } else {
                                let j = choose|j: int| 0 <= j < l0.len() && (#[trigger] l0[j]).0.0 == x;
                                assert(l[j] == l0[j]);
                            }
                        }
                    } else {
                        assert(l == l0);
                    }
                }
                assert forall|w: int| 0 <= w < nv implies incidence_ok(edges@, (#[trigger] rev@[w])@, w, e + 1, false) by {
                    let l = rev@[w]@;
                    let l0 = rev0[w]@;
                    assert(incidence_ok(edges@, l0, w, e as int, false));
                    if w == d {
                        assert(l == l0.push((edge.edge_id, edge.src_vertex_id)));
                        assert forall|x: int| 0 <= x < e + 1 && edges@[x].dst_vertex_id.0 == w implies exists|j: int|
                            0 <= j < l.len() && (#[trigger] l[j]).0.0 == x by {
                            if x == e {
                                assert(l[l.len() - 1].0.0 == x);
                            } else {
                                let j = choose|j: int| 0 <= j < l0.len() && (#[trigger] l0[j]).0.0 == x;
                                assert(l[j] == l0[j]);
                            }
                        }
                    } else {
                        assert(l == l0);
                    }
                }
            }
            e = e + 1;
        }
        Ok(Graph { adj, rev, edges, vertices })
    }
}


/// The vertex an edge reaches when crossed in `direction`.
pub open spec fn far_end(e: Edge, direction: Direction) -> VertexId {
    match direction {
        Direction::Forward => e.dst_vertex_id,
        Direction::Reverse => e.src_vertex_id,
    }
}

impl Graph {
    pub fn n_edges(&self) -> (r: usize)
        ensures
            r == self.ne(),
    {
        self.edges.len()
    }

    pub fn n_vertices(&self) -> (r: usize)
        ensures
            r == self.nv(),
    {
        self.vertices.len()
    }

    pub fn all_edge_ids(&self) -> (r: Vec<EdgeId>)
        ensures
            r@.len() == self.ne(),
            forall|i: int| 0 <= i < self.ne() ==> #[trigger] r@[i] == self.edges@[i].edge_id,
    {
        let mut out: Vec<EdgeId> = Vec::new();
        let mut i: usize = 0;
        while i < self.edges.len()
            invariant
                i <= self.ne(),
                out@.len() == i,
                forall|j: int| 0 <= j < i ==> #[trigger] out@[j] == self.edges@[j].edge_id,
            decreases self.ne() - i,
        {
            out.push(self.edges[i].edge_id);
            i = i + 1;
        }
        out
    }

    pub fn all_edges(&self) -> (r: Vec<Edge>)
        ensures
            r@ == self.edges@,
    {
        let mut out: Vec<Edge> = Vec::new();
        let mut i: usize = 0;
        while i < self.edges.len()
            invariant
                i <= self.ne(),
                out@ == self.edges@.take(i as int),
            decreases self.ne() - i,
        {
            out.push(self.edges[i]);
            i = i + 1;
            proof {
                assert(out@ == self.edges@.take(i as int));
            }
        }
        proof {
            assert(self.edges@.take(self.ne()) == self.edges@);
        }
        out
    }

    pub fn all_vertex_ids(&self) -> (r: Vec<VertexId>)
        ensures
            r@.len() == self.nv(),
            forall|i: int| 0 <= i < self.nv() ==> #[trigger] r@[i] == self.vertices@[i].vertex_id,
    {
        let mut out: Vec<VertexId> = Vec::new();
        let mut i: usize = 0;
        while i < self.vertices.len()
            invariant
                i <= self.nv(),
                out@.len() == i,
                forall|j: int| 0 <= j < i ==> #[trigger] out@[j] == self.vertices@[j].vertex_id,
            decreases self.nv() - i,
        {
            out.push(self.vertices[i].vertex_id);
            i = i + 1;
        }
        out
    }

    pub fn all_vertices(&self) -> (r: Vec<Vertex>)
        ensures
            r@ == self.vertices@,
    {
        let mut out: Vec<Vertex> = Vec::new();
        let mut i: usize = 0;
        while i < self.vertices.len()
            invariant
                i <= self.nv(),
                out@ == self.vertices@.take(i as int),
            decreases self.nv() - i,
        {
            out.push(self.vertices[i]);
            i = i + 1;
            proof {
                assert(out@ == self.vertices@.take(i as int));
            }
        }
        proof {
            assert(self.vertices@.take(self.nv()) == self.vertices@);
        }
        out
    }

    pub fn edge_attr(&self, edge_id: EdgeId) -> (r: Result<&Edge, GraphError>)
        ensures
            edge_id.0 < self.ne() <==> r is Ok,
            r is Ok ==> *r->Ok_0 == self.edges@[edge_id.0 as int],
            r is Err ==> r->Err_0 == (GraphError::EdgeAttributeNotFound { edge_id }),
    {
        if edge_id.0 < self.edges.len() as u64 {
            Ok(&self.edges[edge_id.0 as usize])
        } else {
            Err(GraphError::EdgeAttributeNotFound { edge_id })
        }
    }

    pub fn vertex_attr(&self, vertex_id: VertexId) -> (r: Result<&Vertex, GraphError>)
        ensures
            vertex_id.0 < self.nv() <==> r is Ok,
            r is Ok ==> *r->Ok_0 == self.vertices@[vertex_id.0 as int],
            r is Err ==> r->Err_0 == (GraphError::VertexAttributeNotFound { vertex_id }),
    {
        if vertex_id.0 < self.vertices.len() as u64 {
            Ok(&self.vertices[vertex_id.0 as usize])
        } else {
            Err(GraphError::VertexAttributeNotFound { vertex_id })
        }
    }

    /// The ids of the edges leaving `src`, by increasing id.
    pub fn out_edges(&self, src: VertexId) -> (r: Result<Vec<EdgeId>, GraphError>)
        ensures
            src.0 < self.adj@.len() <==> r is Ok,
            r is Ok ==> r->Ok_0@ == self.adj@[src.0 as int]@.map_values(|p: (EdgeId, VertexId)| p.0),
            r is Err ==> r->Err_0 == (GraphError::VertexWithoutOutEdges { vertex_id: src }),
    {
        if src.0 >= self.adj.len() as u64 {
            return Err(GraphError::VertexWithoutOutEdges { vertex_id: src });
        }
        Ok(first_of_pairs(&self.adj[src.0 as usize]))
    }

    /// The ids of the edges entering `dst`, by increasing id.
    pub fn in_edges(&self, dst: VertexId) -> (r: Result<Vec<EdgeId>, GraphError>)
        ensures
            dst.0 < self.rev@.len() <==> r is Ok,
            r is Ok ==> r->Ok_0@ == self.rev@[dst.0 as int]@.map_values(|p: (EdgeId, VertexId)| p.0),
            r is Err ==> r->Err_0 == (GraphError::VertexWithoutInEdges { vertex_id: dst }),
    {
        if dst.0 >= self.rev.len() as u64 {
            return Err(GraphError::VertexWithoutInEdges { vertex_id: dst });
        }
        Ok(first_of_pairs(&self.rev[dst.0 as usize]))
    }

    pub fn src_vertex(&self, edge_id: EdgeId) -> (r: Result<VertexId, GraphError>)
        ensures
            edge_id.0 < self.ne() <==> r is Ok,
            r is Ok ==> r->Ok_0 == self.edges@[edge_id.0 as int].src_vertex_id,
            r is Err ==> r->Err_0 == (GraphError::EdgeAttributeNotFound { edge_id }),
    {
        let e = self.edge_attr(edge_id)?;
        Ok(e.src_vertex_id)
    }

    pub fn dst_vertex(&self, edge_id: EdgeId) -> (r: Result<VertexId, GraphError>)
        ensures
            edge_id.0 < self.ne() <==> r is Ok,
            r is Ok ==> r->Ok_0 == self.edges@[edge_id.0 as int].dst_vertex_id,
            r is Err ==> r->Err_0 == (GraphError::EdgeAttributeNotFound { edge_id }),
    {
        let e = self.edge_attr(edge_id)?;
        Ok(e.dst_vertex_id)
    }

    /// The incidence list of `vertex_id` in `direction`.
    pub open spec fn incidence(&self, vertex_id: VertexId, direction: Direction) -> Seq<(EdgeId, VertexId)> {
        match direction {
            Direction::Forward => self.adj@[vertex_id.0 as int]@,
            Direction::Reverse => self.rev@[vertex_id.0 as int]@,
        }
    }

    /// Out edges going forward, in edges going in reverse.
    pub fn incident_edges(&self, vertex_id: VertexId, direction: Direction) -> (r: Result<Vec<EdgeId>, GraphError>)
        requires
            self.wf(),
        ensures
            vertex_id.0 < self.nv() <==> r is Ok,
            r is Ok ==> r->Ok_0@ == self.incidence(vertex_id, direction).map_values(|p: (EdgeId, VertexId)| p.0),
            r is Err ==> r->Err_0 == (match direction {
                Direction::Forward => GraphError::VertexWithoutOutEdges { vertex_id },
                Direction::Reverse => GraphError::VertexWithoutInEdges { vertex_id },
            }),
    {
        match direction {
            Direction::Forward => self.out_edges(vertex_id),
            Direction::Reverse => self.in_edges(vertex_id),
        }
    }

    /// The destination going forward, the source in reverse.
    pub fn incident_vertex(&self, edge_id: EdgeId, direction: Direction) -> (r: Result<VertexId, GraphError>)
        ensures
            edge_id.0 < self.ne() <==> r is Ok,
            r is Ok ==> r->Ok_0 == far_end(self.edges@[edge_id.0 as int], direction),
            r is Err ==> r->Err_0 == (GraphError::EdgeAttributeNotFound { edge_id }),
    {
        match direction {
            Direction::Forward => self.dst_vertex(edge_id),
            Direction::Reverse => self.src_vertex(edge_id),
        }
    }

    /// The source vertex, the edge and the destination vertex of `edge_id`.
    pub fn edge_triplet_attrs(&self, edge_id: EdgeId) -> (r: Result<(&Vertex, &Edge, &Vertex), GraphError>)
        requires
            self.wf(),
        ensures
            edge_id.0 < self.ne() <==> r is Ok,
            r is Ok ==> {
                let e = self.edges@[edge_id.0 as int];
                &&& *r->Ok_0.1 == e
                &&& *r->Ok_0.0 == self.vertices@[e.src_vertex_id.0 as int]
                &&& *r->Ok_0.2 == self.vertices@[e.dst_vertex_id.0 as int]
            },
            r is Err ==> r->Err_0 == (GraphError::EdgeAttributeNotFound { edge_id }),
    {
        let edge = self.edge_attr(edge_id)?;
        let src = self.vertex_attr(edge.src_vertex_id)?;
        let dst = self.vertex_attr(edge.dst_vertex_id)?;
        Ok((src, edge, dst))
    }

    /// `(vertex_id, edge, far end)` for each edge incident to `vertex_id` in
    /// `direction`, by increasing edge id.
    pub fn incident_triplets(&self, vertex_id: VertexId, direction: Direction) -> (r: Result<
        Vec<(VertexId, EdgeId, VertexId)>,
        GraphError,
    >)
        requires
            self.wf(),
        ensures
            vertex_id.0 < self.nv() <==> r is Ok,
            r is Ok ==> r->Ok_0@.len() == self.incidence(vertex_id, direction).len() && forall|j: int|
                0 <= j < r->Ok_0@.len() ==> #[trigger] r->Ok_0@[j] == (
                vertex_id,
                self.incidence(vertex_id, direction)[j].0,
                self.incidence(vertex_id, direction)[j].1,
            ),
            r is Err ==> r->Err_0 == (match direction {
                Direction::Forward => GraphError::VertexWithoutOutEdges { vertex_id },
                Direction::Reverse => GraphError::VertexWithoutInEdges { vertex_id },
            }),
    {
        let edge_ids = self.incident_edges(vertex_id, direction)?;
        let ghost l = self.incidence(vertex_id, direction);
        proof {
            assert(incidence_ok(
                self.edges@,
                l,
                vertex_id.0 as int,
                self.ne(),
                direction is Forward,
            ));
        }
        let mut result: Vec<(VertexId, EdgeId, VertexId)> = Vec::new();
        let mut i: usize = 0;
        while i < edge_ids.len()
            invariant
                self.wf(),
                vertex_id.0 < self.nv(),
                l == self.incidence(vertex_id, direction),
                incidence_ok(self.edges@, l, vertex_id.0 as int, self.ne(), direction is Forward),
                edge_ids@ == l.map_values(|p: (EdgeId, VertexId)| p.0),
                i <= edge_ids@.len(),
                result@.len() == i,
                forall|j: int| 0 <= j < i ==> #[trigger] result@[j] == (vertex_id, l[j].0, l[j].1),
            decreases edge_ids@.len() - i,
        {
            let edge_id = edge_ids[i];
            assert(l[i as int].0 == edge_id);
            let terminal = match self.incident_vertex(edge_id, direction) {
                Ok(t) => t,
                Err(e) => {
                    return Err(e);
                },
            };
            result.push((vertex_id, edge_id, terminal));
            i = i + 1;
        }
        Ok(result)
    }

    /// The vertex and edge records of [`Graph::incident_triplets`].
    pub fn incident_triplet_attributes(&self, vertex_id: VertexId, direction: Direction) -> (r: Result<
        Vec<(&Vertex, &Edge, &Vertex)>,
        GraphError,
    >)
        requires
            self.wf(),
        ensures
            vertex_id.0 < self.nv() <==> r is Ok,
            r is Ok ==> r->Ok_0@.len() == self.incidence(vertex_id, direction).len() && forall|j: int|
                0 <= j < r->Ok_0@.len() ==> {
                    let p = self.incidence(vertex_id, direction)[j];
                    &&& *(#[trigger] r->Ok_0@[j]).0 == self.vertices@[vertex_id.0 as int]
                    &&& *r->Ok_0@[j].1 == self.edges@[p.0.0 as int]
                    &&& *r->Ok_0@[j].2 == self.vertices@[p.1.0 as int]
                },
            r is Err ==> r->Err_0 == (match direction {
                Direction::Forward => GraphError::VertexWithoutOutEdges { vertex_id },
                Direction::Reverse => GraphError::VertexWithoutInEdges { vertex_id },
            }),
    {
        let triplets = self.incident_triplets(vertex_id, direction)?;
        let ghost l = self.incidence(vertex_id, direction);
        proof {
            assert(incidence_ok(self.edges@, l, vertex_id.0 as int, self.ne(), direction is Forward));
        }
        let mut result: Vec<(&Vertex, &Edge, &Vertex)> = Vec::new();
        let mut i: usize = 0;
        while i < triplets.len()
            invariant
                self.wf(),
                vertex_id.0 < self.nv(),
                l == self.incidence(vertex_id, direction),
                incidence_ok(self.edges@, l, vertex_id.0 as int, self.ne(), direction is Forward),
                triplets@.len() == l.len(),
                forall|j: int| 0 <= j < l.len() ==> #[trigger] triplets@[j] == (vertex_id, l[j].0, l[j].1),
                i <= triplets@.len(),
                result@.len() == i,
                forall|j: int| 0 <= j < i ==> {
                    let p = l[j];
                    &&& *(#[trigger] result@[j]).0 == self.vertices@[vertex_id.0 as int]
                    &&& *result@[j].1 == self.edges@[p.0.0 as int]
                    &&& *result@[j].2 == self.vertices@[p.1.0 as int]
                },
            decreases triplets@.len() - i,
        {
            let (src_id, edge_id, dst_id) = triplets[i];
            assert(triplets@[i as int] == (vertex_id, l[i as int].0, l[i as int].1));
            let ghost e = l[i as int].0.0 as int;
            assert(0 <= e < self.ne());
            let src = match self.vertex_attr(src_id) {
                Ok(v) => v,
                Err(err) => {
                    return Err(err);
                },
            };
            let edge = match self.edge_attr(edge_id) {
                Ok(x) => x,
                Err(err) => {
                    return Err(err);
                },
            };
            let dst = match self.vertex_attr(dst_id) {
                Ok(v) => v,
                Err(err) => {
                    return Err(err);
                },
            };
            result.push((src, edge, dst));
            i = i + 1;
        }
        Ok(result)
    }
}

/// The first components of `l`, in order.
fn first_of_pairs(l: &Vec<(EdgeId, VertexId)>) -> (r: Vec<EdgeId>)
    ensures
        r@ == l@.map_values(|p: (EdgeId, VertexId)| p.0),
{
    let mut out: Vec<EdgeId> = Vec::new();
    let mut i: usize = 0;
    while i < l.len()
        invariant
            i <= l@.len(),
            out@ == l@.take(i as int).map_values(|p: (EdgeId, VertexId)| p.0),
        decreases l@.len() - i,
    {
        out.push(l[i].0);
        proof {
            assert(l@.take(i + 1) == l@.take(i as int).push(l@[i as int]));
        }
        i = i + 1;
        proof {
            assert(out@ == l@.take(i as int).map_values(|p: (EdgeId, VertexId)| p.0));
        }
    }
    proof {
        assert(l@.take(l@.len() as int) == l@);
    }
    out
}

} // verus!
