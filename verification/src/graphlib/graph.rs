use crate::edge::Edge;
use vstd::prelude::*;

verus! {

/// Whether `edges` holds an edge recorded as going from `v` to `w`
/// (edges are recorded in the orientation they were added with).
pub open spec fn has_edge(edges: Seq<Edge>, v: usize, w: usize) -> bool {
    exists|k: int| 0 <= k < edges.len() && edges[k].v == v && edges[k].w == w
}

/// Index of the first edge recorded as going from `v` to `w`, or `-1`
/// when there is none.
pub open spec fn first_edge_index(edges: Seq<Edge>, v: usize, w: usize) -> int
    decreases edges.len(),
{
    if edges.len() == 0 {
        -1
    } else if edges[0].v == v && edges[0].w == w {
        0
    } else if first_edge_index(edges.drop_first(), v, w) == -1 {
        -1
    } else {
        first_edge_index(edges.drop_first(), v, w) + 1
    }
}

/// The distance of the first edge recorded as going from `v` to `w`,
/// or `0` when there is none.
pub open spec fn first_edge_distance(edges: Seq<Edge>, v: usize, w: usize) -> usize {
    if first_edge_index(edges, v, w) == -1 {
        0
    } else {
        edges[first_edge_index(edges, v, w)].distance
    }
}

/// `first_edge_index` finds the first match: a nonnegative result is a
/// matching index preceded by no other match, and `-1` means no index
/// matches at all.
pub proof fn lemma_first_edge_index(edges: Seq<Edge>, v: usize, w: usize)
    ensures
        first_edge_index(edges, v, w) == -1 ==> !has_edge(edges, v, w),
        first_edge_index(edges, v, w) != -1 ==> {
            let k = first_edge_index(edges, v, w);
            &&& 0 <= k < edges.len()
            &&& edges[k].v == v && edges[k].w == w
            &&& forall|j: int| 0 <= j < k ==> !(edges[j].v == v && edges[j].w == w)
        },
    decreases edges.len(),
{
    if edges.len() == 0 {
    } else if edges[0].v == v && edges[0].w == w {
    } else {
        lemma_first_edge_index(edges.drop_first(), v, w);
        let rest = edges.drop_first();
        if first_edge_index(rest, v, w) == -1 {
            assert forall|k: int| 0 <= k < edges.len() implies !(edges[k].v == v && edges[k].w
                == w) by {
                if k > 0 {
                    assert(rest[k - 1] == edges[k]);
                }
            }
        } else {
            let k = first_edge_index(rest, v, w);
            assert(rest[k] == edges[k + 1]);
            assert forall|j: int| 0 <= j < k + 1 implies !(edges[j].v == v && edges[j].w
                == w) by {
                if j > 0 {
                    assert(rest[j - 1] == edges[j]);
                }
            }
        }
    }
}

/// An edge present in an edge list stays present in any extension of it.
pub proof fn lemma_has_edge_prefix(e1: Seq<Edge>, e2: Seq<Edge>, v: usize, w: usize)
    requires
        e1.is_prefix_of(e2),
        has_edge(e1, v, w),
    ensures
        has_edge(e2, v, w),
{
    let k = choose|k: int| 0 <= k < e1.len() && e1[k].v == v && e1[k].w == w;
    assert(e2.subrange(0, e1.len() as int)[k] == e2[k]);
    assert(e2[k].v == v && e2[k].w == w);
}

/// A simple graph over the vertices `0 .. size`, kept as an edge list,
/// an adjacency list and an adjacency matrix. `weighted` records whether
/// any undirected weighted edge was ever added.
pub struct Graph {
    pub size: usize,
    pub edges: Vec<Edge>,
    pub vertices: Vec<usize>,
    pub adj_list: Vec<Vec<usize>>,
    pub adj_matrix: Vec<Vec<usize>>,
    pub weighted: bool,
}

impl Graph {
    /// Shape invariant: the vertex list is exactly `0 .. size`, the
    /// adjacency structures are sized by `size`, and every recorded
    /// neighbor is a vertex.
    pub open spec fn wf(self) -> bool {
        &&& self.vertices@.len() == self.size
        &&& (forall|i: int| 0 <= i < self.size ==> self.vertices@[i] == i as usize)
        &&& self.adj_list@.len() == self.size
        &&& self.adj_matrix@.len() == self.size
        &&& (forall|i: int| 0 <= i < self.size ==> (#[trigger] self.adj_matrix@[i])@.len()
            == self.size)
        &&& (forall|i: int, k: int|
            0 <= i < self.size && 0 <= k < self.adj_list@[i]@.len() ==> (
            #[trigger] self.adj_list@[i]@[k]) < self.size)
    }

    /// A graph with vertices `0 .. size`, no edges, empty neighbor lists
    /// and an all-zero adjacency matrix.
    pub fn new(size: usize) -> (g: Graph)
        ensures
            g.wf(),
            g.size == size,
            g.edges@.len() == 0,
            g.weighted == false,
            forall|i: int| 0 <= i < size ==> (#[trigger] g.adj_list@[i])@.len() == 0,
            forall|i: int, j: int|
                0 <= i < size && 0 <= j < size ==> (#[trigger] g.adj_matrix@[i]@[j]) == 0,
    {
        let mut vertices: Vec<usize> = Vec::new();
        let mut i: usize = 0;
        while i < size
            invariant
                i <= size,
                vertices@.len() == i,
                forall|k: int| 0 <= k < i ==> vertices@[k] == k as usize,
            decreases size - i,
        {
            vertices.push(i);
            i = i + 1;
        }
        let mut adj_list: Vec<Vec<usize>> = Vec::new();
        let mut adj_matrix: Vec<Vec<usize>> = Vec::new();
        let mut r: usize = 0;
        while r < size
            invariant
                r <= size,
                adj_list@.len() == r,
                adj_matrix@.len() == r,
                forall|k: int| 0 <= k < r ==> (#[trigger] adj_list@[k])@.len() == 0,
                forall|k: int| 0 <= k < r ==> (#[trigger] adj_matrix@[k])@.len() == size,
                forall|k: int, j: int|
                    0 <= k < r && 0 <= j < size ==> (#[trigger] adj_matrix@[k]@[j]) == 0,
            decreases size - r,
        {
            let mut row: Vec<usize> = Vec::new();
            let mut c: usize = 0;
            while c < size
                invariant
                    c <= size,
                    row@.len() == c,
                    forall|j: int| 0 <= j < c ==> row@[j] == 0,
                decreases size - c,
            {
                row.push(0);
                c = c + 1;
            }
            adj_list.push(Vec::new());
            adj_matrix.push(row);
            r = r + 1;
        }
        Graph { size, edges: Vec::new(), vertices, adj_list, adj_matrix, weighted: false }
    }

    /// Whether `v` is one of the graph's vertices.
    pub fn contains_vertex(&self, v: usize) -> (r: bool)
        ensures
            r == self.vertices@.contains(v),
    {
        let mut i: usize = 0;
        while i < self.vertices.len()
            invariant
                i <= self.vertices@.len(),
                forall|k: int| 0 <= k < i ==> self.vertices@[k] != v,
            decreases self.vertices@.len() - i,
        {
            if self.vertices[i] == v {
                return true;
            }
            i = i + 1;
        }
        false
    }

    /// Whether the graph has any vertex at all and an edge recorded as
    /// going from `v` to `w`.
    #[verifier::loop_isolation(false)]
    pub fn contains_edge(&self, v: usize, w: usize) -> (r: bool)
        ensures
            r == (self.vertices@.len() > 0 && has_edge(self.edges@, v, w)),
    {
        if self.vertices.len() == 0 {
            return false;
        }
        let mut i: usize = 0;
        while i < self.edges.len()
            invariant
                i <= self.edges@.len(),
                forall|k: int| 0 <= k < i ==> !(self.edges@[k].v == v && self.edges@[k].w == w),
            decreases self.edges@.len() - i,
        {
            if self.edges[i].v == v && self.edges[i].w == w {
                proof {
                    assert(self.edges@[i as int].v == v && self.edges@[i as int].w == w);
                }
                return true;
            }
            i = i + 1;
        }
        false
    }

    /// Whether `w` is already recorded as a neighbor of `v`.
    #[verifier::loop_isolation(false)]
    pub fn contains_neighbor(&self, v: usize, w: usize) -> (r: bool)
        requires
            v < self.adj_list@.len(),
        ensures
            r == self.adj_list@[v as int]@.contains(w),
    {
        let row = &self.adj_list[v];
        let mut i: usize = 0;
        while i < row.len()
            invariant
                i <= row@.len(),
                forall|k: int| 0 <= k < i ==> row@[k] != w,
            decreases row@.len() - i,
        {
            if row[i] == w {
                proof {
                    assert(row@[i as int] == w);
                }
                return true;
            }
            i = i + 1;
        }
        false
    }

    /// Record the undirected unweighted edge `(v, w)`: one edge-list
    /// entry of distance zero, a symmetric pair of ones in the matrix,
    /// and each endpoint added to the other's neighbor list when it was
    /// not there yet. Nothing changes when the edge is already present
    /// or an endpoint is out of range.
    pub fn add_edge(&mut self, v: usize, w: usize)
        requires
            old(self).wf(),
        ensures
            final(self).wf(),
            final(self).size == old(self).size,
            final(self).vertices@ == old(self).vertices@,
            final(self).weighted == old(self).weighted,
            final(self).adj_list@.len() == old(self).adj_list@.len(),
            old(self).edges@.is_prefix_of(final(self).edges@),
            has_edge(old(self).edges@, v, w) || v >= old(self).size || w >= old(self).size
                ==> *final(self) == *old(self),
            !has_edge(old(self).edges@, v, w) && v < old(self).size && w < old(self).size ==> {
                &&& final(self).edges@ =~= old(self).edges@.push(Edge { v, w, distance: 0 })
                &&& final(self).adj_matrix@[v as int]@[w as int] == 1
                &&& final(self).adj_matrix@[w as int]@[v as int] == 1
                &&& (forall|i: int, j: int|
                    0 <= i < old(self).size && 0 <= j < old(self).size && !(i == v && j == w)
                        && !(i == w && j == v) ==> (#[trigger] final(self).adj_matrix@[i]@[j])
                        == old(self).adj_matrix@[i]@[j])
                &&& final(self).adj_list@[v as int]@ == (if old(self).adj_list@[
                    v as int
                ]@.contains(w) {
                    old(self).adj_list@[v as int]@
                } else {
                    old(self).adj_list@[v as int]@.push(w)
                })
                &&& (v != w ==> final(self).adj_list@[w as int]@ == (if old(self).adj_list@[
                    w as int
                ]@.contains(v) {
                    old(self).adj_list@[w as int]@
                } else {
                    old(self).adj_list@[w as int]@.push(v)
                }))
                &&& (forall|i: int|
                    0 <= i < old(self).size && i != v && i != w ==> (
                    #[trigger] final(self).adj_list@[i])@ == old(self).adj_list@[i]@)
            },
    {
        if !self.contains_edge(v, w) && v < self.size && w < self.size {
            proof {
                assert(old(self).vertices@.contains(v)) by {
                    assert(old(self).vertices@[v as int] == v);
                }
                assert(old(self).vertices@.contains(w)) by {
                    assert(old(self).vertices@[w as int] == w);
                }
            }
            self.edges.push(Edge { v, w, distance: 0 });
            self.adj_matrix[v][w] = 1;
            self.adj_matrix[w][v] = 1;
            if !self.contains_vertex(v) {
                self.vertices.push(v);
            }
            if !self.contains_neighbor(v, w) {
                self.adj_list[v].push(w);
            }
            if !self.contains_vertex(w) {
                self.vertices.push(w);
            }
            proof {
                if v == w {
                    assert(self.adj_list@[w as int]@.contains(v)) by {
                        if old(self).adj_list@[v as int]@.contains(w) {
                            let k = choose|k: int|
                                0 <= k < old(self).adj_list@[v as int]@.len() && old(
                                    self,
                                ).adj_list@[v as int]@[k] == w;
                            assert(self.adj_list@[v as int]@[k] == w);
                        } else {
                            assert(self.adj_list@[v as int]@[self.adj_list@[v as int]@.len()
                                - 1] == w);
                        }
                    }
                }
            }
            if !self.contains_neighbor(w, v) {
                self.adj_list[w].push(v);
            }
        }
    }

    /// Record the undirected edge `(v, w)` with the given distance and
    /// mark the graph weighted. The edge list, matrix and neighbor
    /// lists change as in `add_edge`, with `distance` in place of the
    /// unit weight. Nothing changes when the edge is already present or
    /// an endpoint is out of range.
    pub fn add_weighted_edge(&mut self, v: usize, w: usize, distance: usize)
        requires
            old(self).wf(),
        ensures
            final(self).wf(),
            final(self).size == old(self).size,
            final(self).vertices@ == old(self).vertices@,
            final(self).adj_list@.len() == old(self).adj_list@.len(),
            old(self).edges@.is_prefix_of(final(self).edges@),
            has_edge(old(self).edges@, v, w) || v >= old(self).size || w >= old(self).size
                ==> *final(self) == *old(self),
            !has_edge(old(self).edges@, v, w) && v < old(self).size && w < old(self).size ==> {
                &&& final(self).weighted == true
                &&& final(self).edges@ =~= old(self).edges@.push(Edge { v, w, distance })
                &&& final(self).adj_matrix@[v as int]@[w as int] == distance
                &&& final(self).adj_matrix@[w as int]@[v as int] == distance
                &&& (forall|i: int, j: int|
                    0 <= i < old(self).size && 0 <= j < old(self).size && !(i == v && j == w)
                        && !(i == w && j == v) ==> (#[trigger] final(self).adj_matrix@[i]@[j])
                        == old(self).adj_matrix@[i]@[j])
                &&& final(self).adj_list@[v as int]@ == (if old(self).adj_list@[
                    v as int
                ]@.contains(w) {
                    old(self).adj_list@[v as int]@
                } else {
                    old(self).adj_list@[v as int]@.push(w)
                })
                &&& (v != w ==> final(self).adj_list@[w as int]@ == (if old(self).adj_list@[
                    w as int
                ]@.contains(v) {
                    old(self).adj_list@[w as int]@
                } else {
                    old(self).adj_list@[w as int]@.push(v)
                }))
                &&& (forall|i: int|
                    0 <= i < old(self).size && i != v && i != w ==> (
                    #[trigger] final(self).adj_list@[i])@ == old(self).adj_list@[i]@)
            },
    {
        if !self.contains_edge(v, w) && v < self.size && w < self.size {
            proof {
                assert(old(self).vertices@.contains(v)) by {
                    assert(old(self).vertices@[v as int] == v);
                }
                assert(old(self).vertices@.contains(w)) by {
                    assert(old(self).vertices@[w as int] == w);
                }
            }
            self.weighted = true;
            self.edges.push(Edge { v, w, distance });
            self.adj_matrix[v][w] = distance;
            self.adj_matrix[w][v] = distance;
            if !self.contains_vertex(v) {
                self.vertices.push(v);
            }
            if !self.contains_neighbor(v, w) {
                self.adj_list[v].push(w);
            }
            if !self.contains_vertex(w) {
                self.vertices.push(w);
            }
            proof {
                if v == w {
                    assert(self.adj_list@[w as int]@.contains(v)) by {
                        if old(self).adj_list@[v as int]@.contains(w) {
                            let k = choose|k: int|
                                0 <= k < old(self).adj_list@[v as int]@.len() && old(
                                    self,
                                ).adj_list@[v as int]@[k] == w;
                            assert(self.adj_list@[v as int]@[k] == w);
                        } else {
                            assert(self.adj_list@[v as int]@[self.adj_list@[v as int]@.len()
                                - 1] == w);
                        }
                    }
                }
            }
            if !self.contains_neighbor(w, v) {
                self.adj_list[w].push(v);
            }
        }
    }

    /// Record the directed unweighted edge from `v` to `w`: one
    /// edge-list entry of distance zero, a single one in the matrix and
    /// `w` added to the neighbor list of `v` when it was not there yet.
    /// Nothing changes when the edge is already present or an endpoint
    /// is out of range.
    pub fn add_directed_edge(&mut self, v: usize, w: usize)
        requires
            old(self).wf(),
        ensures
            final(self).wf(),
            final(self).size == old(self).size,
            final(self).vertices@ == old(self).vertices@,
            final(self).weighted == old(self).weighted,
            final(self).adj_list@.len() == old(self).adj_list@.len(),
            old(self).edges@.is_prefix_of(final(self).edges@),
            has_edge(old(self).edges@, v, w) || v >= old(self).size || w >= old(self).size
                ==> *final(self) == *old(self),
            !has_edge(old(self).edges@, v, w) && v < old(self).size && w < old(self).size ==> {
                &&& final(self).edges@ =~= old(self).edges@.push(Edge { v, w, distance: 0 })
                &&& final(self).adj_matrix@[v as int]@[w as int] == 1
                &&& (forall|i: int, j: int|
                    0 <= i < old(self).size && 0 <= j < old(self).size && !(i == v && j == w)
                        ==> (#[trigger] final(self).adj_matrix@[i]@[j]) == old(
                        self,
                    ).adj_matrix@[i]@[j])
                &&& final(self).adj_list@[v as int]@ == (if old(self).adj_list@[
                    v as int
                ]@.contains(w) {
                    old(self).adj_list@[v as int]@
                } else {
                    old(self).adj_list@[v as int]@.push(w)
                })
                &&& (forall|i: int|
                    0 <= i < old(self).size && i != v ==> (#[trigger] final(self).adj_list@[i])@
                        == old(self).adj_list@[i]@)
            },
    {
        if !self.contains_edge(v, w) && v < self.size && w < self.size {
            proof {
                assert(old(self).vertices@.contains(v)) by {
                    assert(old(self).vertices@[v as int] == v);
                }
            }
            self.edges.push(Edge { v, w, distance: 0 });
            self.adj_matrix[v][w] = 1;
            if !self.contains_vertex(v) {
                self.vertices.push(v);
            }
            if !self.contains_neighbor(v, w) {
                self.adj_list[v].push(w);
            }
        }
    }

    /// Record the directed edge from `v` to `w`, keeping the given
    /// distance in the matrix only: the edge-list entry records
    /// distance zero. `w` is added to the neighbor list of `v` when it
    /// was not there yet. Nothing changes when the edge is already
    /// present or an endpoint is out of range.
    pub fn add_directed_weighted_edge(&mut self, v: usize, w: usize, distance: usize)
        requires
            old(self).wf(),
        ensures
            final(self).wf(),
            final(self).size == old(self).size,
            final(self).vertices@ == old(self).vertices@,
            final(self).weighted == old(self).weighted,
            final(self).adj_list@.len() == old(self).adj_list@.len(),
            old(self).edges@.is_prefix_of(final(self).edges@),
            has_edge(old(self).edges@, v, w) || v >= old(self).size || w >= old(self).size
                ==> *final(self) == *old(self),
            !has_edge(old(self).edges@, v, w) && v < old(self).size && w < old(self).size ==> {
                &&& final(self).edges@ =~= old(self).edges@.push(Edge { v, w, distance: 0 })
                &&& final(self).adj_matrix@[v as int]@[w as int] == distance
                &&& (forall|i: int, j: int|
                    0 <= i < old(self).size && 0 <= j < old(self).size && !(i == v && j == w)
                        ==> (#[trigger] final(self).adj_matrix@[i]@[j]) == old(
                        self,
                    ).adj_matrix@[i]@[j])
                &&& final(self).adj_list@[v as int]@ == (if old(self).adj_list@[
                    v as int
                ]@.contains(w) {
                    old(self).adj_list@[v as int]@
                } else {
                    old(self).adj_list@[v as int]@.push(w)
                })
                &&& (forall|i: int|
                    0 <= i < old(self).size && i != v ==> (#[trigger] final(self).adj_list@[i])@
                        == old(self).adj_list@[i]@)
            },
    {
        if !self.contains_edge(v, w) && v < self.size && w < self.size {
            proof {
                assert(old(self).vertices@.contains(v)) by {
                    assert(old(self).vertices@[v as int] == v);
                }
            }
            self.edges.push(Edge { v, w, distance: 0 });
            self.adj_matrix[v][w] = distance;
            if !self.contains_vertex(v) {
                self.vertices.push(v);
            }
            if !self.contains_neighbor(v, w) {
                self.adj_list[v].push(w);
            }
        }
    }

    /// The first edge recorded as going from `v` to `w`, if any.
    pub fn get_edge(&self, v: usize, w: usize) -> (r: Option<&Edge>)
        ensures
            match r {
                Some(e) => first_edge_index(self.edges@, v, w) >= 0 && *e == self.edges@[
                    first_edge_index(self.edges@, v, w)
                ],
                None => first_edge_index(self.edges@, v, w) == -1,
            },
    {
        proof {
            lemma_first_edge_index(self.edges@, v, w);
        }
        let mut i: usize = 0;
        #[verifier::loop_isolation(false)]
        while i < self.edges.len()
            invariant
                i <= self.edges@.len(),
                forall|k: int| 0 <= k < i ==> !(self.edges@[k].v == v && self.edges@[k].w == w),
            decreases self.edges@.len() - i,
        {
            if self.edges[i].v == v && self.edges[i].w == w {
                proof {
                    assert(self.edges@[i as int].v == v && self.edges@[i as int].w == w);
                    let fi = first_edge_index(self.edges@, v, w);
                    assert(has_edge(self.edges@, v, w));
                    assert(fi != -1);
                    if fi < i {
                        assert(!(self.edges@[fi].v == v && self.edges@[fi].w == w));
                    }
                    if fi > i {
                        assert(!(self.edges@[i as int].v == v && self.edges@[i as int].w == w));
                    }
                    assert(fi == i);
                }
                return Some(&self.edges[i]);
            }
            i = i + 1;
        }
        proof {
            let fi = first_edge_index(self.edges@, v, w);
            if fi != -1 {
                assert(!(self.edges@[fi].v == v && self.edges@[fi].w == w));
            }
        }
        None
    }

    /// The neighbor list of `v`, or nothing when `v` has no recorded
    /// neighbor.
    pub fn get_neighbors(&self, v: usize) -> (r: Option<&Vec<usize>>)
        requires
            v < self.adj_list@.len(),
        ensures
            match r {
                Some(ns) => ns@ == self.adj_list@[v as int]@ && ns@.len() > 0,
                None => self.adj_list@[v as int]@.len() == 0,
            },
    {
        if self.adj_list[v].len() > 0 {
            return Some(&self.adj_list[v]);
        }
        None
    }

    /// Connect every ordered pair of distinct vertices with a weighted
    /// edge whose distance is drawn at random from `low .. high`. Edges
    /// that already exist keep their recorded distance.
    #[verifier::loop_isolation(false)]
    pub fn randomize_weights(&mut self, low: usize, high: usize)
        requires
            old(self).wf(),
            low < high,
        ensures
            final(self).wf(),
            final(self).size == old(self).size,
            final(self).vertices@ == old(self).vertices@,
            old(self).edges@.is_prefix_of(final(self).edges@),
            old(self).weighted ==> final(self).weighted,
            forall|a: usize, b: usize|
                a < old(self).size && b < old(self).size && a != b ==> has_edge(
                    final(self).edges@,
                    a,
                    b,
                ),
            forall|k: int|
                old(self).edges@.len() <= k < final(self).edges@.len() ==> low <= (
                #[trigger] final(self).edges@[k]).distance < high,
    {
        let mut i: usize = 0;
        while i < self.size
            invariant
                i <= self.size,
                self.wf(),
                self.size == old(self).size,
                self.vertices@ == old(self).vertices@,
                old(self).edges@.is_prefix_of(self.edges@),
                old(self).weighted ==> self.weighted,
                forall|a: usize, b: usize|
                    a < i && b < self.size && a != b ==> has_edge(self.edges@, a, b),
                forall|k: int|
                    old(self).edges@.len() <= k < self.edges@.len() ==> low <= (
                    #[trigger] self.edges@[k]).distance < high,
            decreases self.size - i,
        {
            let mut j: usize = 0;
            while j < self.size
                invariant
                    i < self.size,
                    j <= self.size,
                    self.wf(),
                    self.size == old(self).size,
                    self.vertices@ == old(self).vertices@,
                    old(self).edges@.is_prefix_of(self.edges@),
                    old(self).weighted ==> self.weighted,
                    forall|a: usize, b: usize|
                        a < i && b < self.size && a != b ==> has_edge(self.edges@, a, b),
                    forall|b: usize| b < j && b != i ==> has_edge(self.edges@, i, b),
                    forall|k: int|
                        old(self).edges@.len() <= k < self.edges@.len() ==> low <= (
                        #[trigger] self.edges@[k]).distance < high,
                decreases self.size - j,
            {
                let n = crate::rng::random_in_range_usize(low, high);
                if i != j {
                    let ghost pre = *self;
                    self.add_weighted_edge(i, j, n);
                    proof {
                        if !has_edge(pre.edges@, i, j) {
                            assert(self.edges@[self.edges@.len() - 1] == Edge {
                                v: i,
                                w: j,
                                distance: n,
                            });
                        }
                        assert(has_edge(self.edges@, i, j));
                        assert forall|k: int|
                            old(self).edges@.len() <= k < self.edges@.len() implies low <= (
                        #[trigger] self.edges@[k]).distance < high by {
                            if k < pre.edges@.len() {
                                assert(self.edges@.subrange(0, pre.edges@.len() as int)[k]
                                    == self.edges@[k]);
                            }
                        }
                        assert(old(self).edges@.is_prefix_of(self.edges@)) by {
                            assert forall|k: int|
                                0 <= k < old(self).edges@.len() implies old(self).edges@[k]
                                == self.edges@[k] by {
                                assert(self.edges@.subrange(0, pre.edges@.len() as int)[k]
                                    == self.edges@[k]);
                                assert(pre.edges@.subrange(0, old(self).edges@.len() as int)[k]
                                    == pre.edges@[k]);
                            }
                            assert(old(self).edges@ =~= self.edges@.subrange(
                                0,
                                old(self).edges@.len() as int,
                            ));
                        }
                        assert forall|a: usize, b: usize|
                            a < i && b < self.size && a != b implies has_edge(
                            self.edges@,
                            a,
                            b,
                        ) by {
                            assert(has_edge(pre.edges@, a, b));
                            lemma_has_edge_prefix(pre.edges@, self.edges@, a, b);
                        }
                        assert forall|b: usize| b < j + 1 && b != i implies has_edge(
                            self.edges@,
                            i,
                            b,
                        ) by {
                            if b < j {
                                assert(has_edge(pre.edges@, i, b));
                                lemma_has_edge_prefix(pre.edges@, self.edges@, i, b);
                            }
                        }
                    }
                }
                j = j + 1;
            }
            i = i + 1;
        }
    }

    /// Give every ordered pair of vertices, self-loops included, a
    /// directed edge whose matrix weight is drawn at random from
    /// `low .. high`; the edge-list entries record distance zero. Pairs
    /// already connected are left alone.
    #[verifier::loop_isolation(false)]
    pub fn randomize_directed_weights(&mut self, low: usize, high: usize)
        requires
            old(self).wf(),
            low < high,
        ensures
            final(self).wf(),
            final(self).size == old(self).size,
            final(self).vertices@ == old(self).vertices@,
            final(self).weighted == old(self).weighted,
            old(self).edges@.is_prefix_of(final(self).edges@),
            forall|a: usize, b: usize|
                a < old(self).size && b < old(self).size ==> has_edge(final(self).edges@, a, b),
            forall|k: int|
                old(self).edges@.len() <= k < final(self).edges@.len() ==> (
                #[trigger] final(self).edges@[k]).distance == 0,
    {
        let mut i: usize = 0;
        while i < self.size
            invariant
                i <= self.size,
                self.wf(),
                self.size == old(self).size,
                self.vertices@ == old(self).vertices@,
                self.weighted == old(self).weighted,
                old(self).edges@.is_prefix_of(self.edges@),
                forall|a: usize, b: usize|
                    a < i && b < self.size ==> has_edge(self.edges@, a, b),
                forall|k: int|
                    old(self).edges@.len() <= k < self.edges@.len() ==> (
                    #[trigger] self.edges@[k]).distance == 0,
            decreases self.size - i,
        {
            let mut j: usize = 0;
            while j < self.size
                invariant
                    i < self.size,
                    j <= self.size,
                    self.wf(),
                    self.size == old(self).size,
                    self.vertices@ == old(self).vertices@,
                    self.weighted == old(self).weighted,
                    old(self).edges@.is_prefix_of(self.edges@),
                    forall|a: usize, b: usize|
                        a < i && b < self.size ==> has_edge(self.edges@, a, b),
                    forall|b: usize| b < j ==> has_edge(self.edges@, i, b),
                    forall|k: int|
                        old(self).edges@.len() <= k < self.edges@.len() ==> (
                        #[trigger] self.edges@[k]).distance == 0,
                decreases self.size - j,
            {
                let n = crate::rng::random_in_range_usize(low, high);
                let ghost pre = *self;
                self.add_directed_weighted_edge(i, j, n);
                proof {
                    if !has_edge(pre.edges@, i, j) {
                        assert(self.edges@[self.edges@.len() - 1] == Edge {
                            v: i,
                            w: j,
                            distance: 0,
                        });
                    }
                    assert(has_edge(self.edges@, i, j));
                    assert forall|k: int|
                        old(self).edges@.len() <= k < self.edges@.len() implies (
                    #[trigger] self.edges@[k]).distance == 0 by {
                        if k < pre.edges@.len() {
                            assert(self.edges@.subrange(0, pre.edges@.len() as int)[k]
                                == self.edges@[k]);
                        }
                    }
                    assert(old(self).edges@.is_prefix_of(self.edges@)) by {
                        assert forall|k: int|
                            0 <= k < old(self).edges@.len() implies old(self).edges@[k]
                            == self.edges@[k] by {
                            assert(self.edges@.subrange(0, pre.edges@.len() as int)[k]
                                == self.edges@[k]);
                            assert(pre.edges@.subrange(0, old(self).edges@.len() as int)[k]
                                == pre.edges@[k]);
                        }
                        assert(old(self).edges@ =~= self.edges@.subrange(
                            0,
                            old(self).edges@.len() as int,
                        ));
                    }
                    assert forall|a: usize, b: usize|
                        a < i && b < self.size implies has_edge(self.edges@, a, b) by {
                        assert(has_edge(pre.edges@, a, b));
                        lemma_has_edge_prefix(pre.edges@, self.edges@, a, b);
                    }
                    assert forall|b: usize| b < j + 1 implies has_edge(self.edges@, i, b) by {
                        if b < j {
                            assert(has_edge(pre.edges@, i, b));
                            lemma_has_edge_prefix(pre.edges@, self.edges@, i, b);
                        }
                    }
                }
                j = j + 1;
            }
            i = i + 1;
        }
    }

    /// The distance recorded on the first edge from `v` to `w`, or `0`
    /// when there is no such edge.
    pub fn get_distance(&self, v: usize, w: usize) -> (r: usize)
        ensures
            r == first_edge_distance(self.edges@, v, w),
    {
        if let Some(edge) = self.get_edge(v, w) {
            return edge.distance;
        }
        0
    }
}

} // verus!
