use vstd::prelude::*;

verus! {

/// A weighted edge of the `u32`-indexed graph below.
pub struct Edge {
    pub v: u32,
    pub w: u32,
    pub distance: u32,
}

/// An undirected weighted graph over the vertices `0 .. size`, kept as an
/// edge list together with an adjacency matrix of distances.
pub struct Graph {
    pub size: u32,
    pub edges: Vec<Edge>,
    pub vertices: Vec<u32>,
    pub adj_list: Vec<Vec<u32>>,
    pub adj_matrix: Vec<Vec<u32>>,
}

/// Whether `edges` holds an edge recorded as going from `v` to `w`
/// (edges are recorded in the orientation they were added with).
pub open spec fn has_edge(edges: Seq<Edge>, v: u32, w: u32) -> bool {
    exists|k: int| 0 <= k < edges.len() && edges[k].v == v && edges[k].w == w
}

/// An edge present in an edge list stays present in any extension of it.
pub proof fn lemma_has_edge_prefix(e1: Seq<Edge>, e2: Seq<Edge>, v: u32, w: u32)
    requires
        e1.is_prefix_of(e2),
        has_edge(e1, v, w),
    ensures
        has_edge(e2, v, w),
{
    let k = choose|k: int| 0 <= k < e1.len() && e1[k].v == v && e1[k].w == w;
    assert(e2.subrange(0, e1.len() as int)[k] == e2[k]);
    assert(e2[k].v == v && e2[k].w == w);
}

impl Graph {
    /// Shape invariant: the vertex list is exactly `0 .. size` and both
    /// the adjacency list and the matrix are square of side `size`.
    pub open spec fn wf(self) -> bool {
        &&& self.vertices@.len() == self.size
        &&& (forall|i: int| 0 <= i < self.size ==> self.vertices@[i] == i as u32)
        &&& self.adj_list@.len() == self.size
        &&& self.adj_matrix@.len() == self.size
        &&& (forall|i: int| 0 <= i < self.size ==> (#[trigger] self.adj_matrix@[i])@.len()
            == self.size)
    }

    /// A graph with vertices `0 .. size`, no edges, and all-zero
    /// adjacency structures.
    pub fn new(size: u32) -> (g: Graph)
        ensures
            g.wf(),
            g.size == size,
            g.edges@.len() == 0,
            forall|i: int, j: int|
                0 <= i < size && 0 <= j < size ==> (#[trigger] g.adj_matrix@[i]@[j]) == 0,
            forall|i: int, j: int|
                0 <= i < size && 0 <= j < size ==> (#[trigger] g.adj_list@[i]@[j]) == 0,
            forall|i: int| 0 <= i < size ==> (#[trigger] g.adj_list@[i])@.len() == size,
    {
        let n = size as usize;
        let mut vertices: Vec<u32> = Vec::new();
        let mut i: usize = 0;
        while i < n
            invariant
                n == size,
                i <= n,
                vertices@.len() == i,
                forall|k: int| 0 <= k < i ==> vertices@[k] == k as u32,
            decreases n - i,
        {
            vertices.push(i as u32);
            i = i + 1;
        }
        let mut adj_list: Vec<Vec<u32>> = Vec::new();
        let mut adj_matrix: Vec<Vec<u32>> = Vec::new();
        let mut r: usize = 0;
        while r < n
            invariant
                n == size,
                r <= n,
                adj_list@.len() == r,
                adj_matrix@.len() == r,
                forall|k: int| 0 <= k < r ==> (#[trigger] adj_list@[k])@.len() == n,
                forall|k: int| 0 <= k < r ==> (#[trigger] adj_matrix@[k])@.len() == n,
                forall|k: int, j: int|
                    0 <= k < r && 0 <= j < n ==> (#[trigger] adj_list@[k]@[j]) == 0,
                forall|k: int, j: int|
                    0 <= k < r && 0 <= j < n ==> (#[trigger] adj_matrix@[k]@[j]) == 0,
            decreases n - r,
        {
            let mut row: Vec<u32> = Vec::new();
            let mut c: usize = 0;
            while c < n
                invariant
                    c <= n,
                    row@.len() == c,
                    forall|j: int| 0 <= j < c ==> row@[j] == 0,
                decreases n - c,
            {
                row.push(0);
                c = c + 1;
            }
            let mut row2: Vec<u32> = Vec::new();
            let mut c2: usize = 0;
            while c2 < n
                invariant
                    c2 <= n,
                    row2@.len() == c2,
                    forall|j: int| 0 <= j < c2 ==> row2@[j] == 0,
                decreases n - c2,
            {
                row2.push(0);
                c2 = c2 + 1;
            }
            adj_list.push(row);
            adj_matrix.push(row2);
            r = r + 1;
        }
        Graph { size, edges: Vec::new(), vertices, adj_list, adj_matrix }
    }

    /// Whether `v` is one of the graph's vertices.
    pub fn contains_vertex(&mut self, v: u32) -> (r: bool)
        ensures
            *final(self) == *old(self),
            r == old(self).vertices@.contains(v),
    {
        let mut i: usize = 0;
        while i < self.vertices.len()
            invariant
                *self == *old(self),
                i <= self.vertices@.len(),
                forall|k: int| 0 <= k < i ==> self.vertices@[k] != v,
            decreases self.vertices@.len() - i,
        {
            if self.vertices[i] == v {
                return true;
            }
            i = i + 1;
        }
        false
    }

    /// Whether an edge recorded as going from `v` to `w` is present.
    pub fn contains_edge(&mut self, v: u32, w: u32) -> (r: bool)
        ensures
            *final(self) == *old(self),
            r == has_edge(old(self).edges@, v, w),
    {
        let mut i: usize = 0;
        while i < self.edges.len()
            invariant
                *self == *old(self),
                i <= self.edges@.len(),
                forall|k: int| 0 <= k < i ==> !(self.edges@[k].v == v && self.edges@[k].w == w),
            decreases self.edges@.len() - i,
        {
            if self.edges[i].v == v && self.edges[i].w == w {
                return true;
            }
            i = i + 1;
        }
        false
    }

    /// Record the undirected edge `(v, w)` with the given distance: the
    /// edge list gains one entry and the matrix is set symmetrically.
    /// Nothing changes when the edge is already present or an endpoint
    /// is out of range.
    pub fn add_edge(&mut self, v: u32, w: u32, distance: u32)
        requires
            old(self).wf(),
        ensures
            final(self).wf(),
            final(self).size == old(self).size,
            final(self).vertices@ == old(self).vertices@,
            final(self).adj_list@ == old(self).adj_list@,
            old(self).edges@.is_prefix_of(final(self).edges@),
            has_edge(old(self).edges@, v, w) || v >= old(self).size || w >= old(self).size
                ==> *final(self) == *old(self),
            !has_edge(old(self).edges@, v, w) && v < old(self).size && w < old(self).size ==> {
                &&& final(self).edges@ =~= old(self).edges@.push(Edge { v, w, distance })
                &&& (#[trigger] final(self).adj_matrix@[v as int])@[w as int] == distance
                &&& final(self).adj_matrix@[w as int]@[v as int] == distance
                &&& forall|i: int, j: int|
                    0 <= i < old(self).size && 0 <= j < old(self).size && !(i == v && j == w) && !(
                    i == w && j == v) ==> (#[trigger] final(self).adj_matrix@[i]@[j]) == old(
                        self,
                    ).adj_matrix@[i]@[j]
            },
    {
        if !self.contains_edge(v, w) && v < self.size && w < self.size {
            self.edges.push(Edge { v, w, distance });
            self.adj_matrix[v as usize][w as usize] = distance;
            self.adj_matrix[w as usize][v as usize] = distance;
            if !self.contains_vertex(v) {
                self.vertices.push(v);
                self.adj_list[v as usize].push(w);
            }
            if !self.contains_vertex(w) {
                self.vertices.push(w);
                self.adj_list[w as usize].push(v);
            }
            proof {
                assert(old(self).vertices@.contains(v)) by {
                    assert(old(self).vertices@[v as int] == v);
                }
                assert(old(self).vertices@.contains(w)) by {
                    assert(old(self).vertices@[w as int] == w);
                }
            }
        }
    }

    /// Connect every ordered pair of distinct vertices with an edge whose
    /// distance is drawn at random from `low .. high`. Edges that already
    /// exist keep their recorded distance.
    #[verifier::loop_isolation(false)]
    pub fn randomize(&mut self, low: u32, high: u32)
        requires
            old(self).wf(),
            low < high,
        ensures
            final(self).wf(),
            final(self).size == old(self).size,
            final(self).vertices@ == old(self).vertices@,
            final(self).adj_list@ == old(self).adj_list@,
            old(self).edges@.is_prefix_of(final(self).edges@),
            forall|a: u32, b: u32|
                a < old(self).size && b < old(self).size && a != b ==> has_edge(
                    final(self).edges@,
                    a,
                    b,
                ),
            forall|k: int|
                old(self).edges@.len() <= k < final(self).edges@.len() ==> low <= (
                #[trigger] final(self).edges@[k]).distance < high,
    {
        let mut i: u32 = 0;
        while i < self.size
            invariant
                i <= self.size,
                self.wf(),
                self.size == old(self).size,
                self.vertices@ == old(self).vertices@,
                self.adj_list@ == old(self).adj_list@,
                old(self).edges@.is_prefix_of(self.edges@),
                forall|a: u32, b: u32|
                    a < i && b < self.size && a != b ==> has_edge(self.edges@, a, b),
                forall|k: int|
                    old(self).edges@.len() <= k < self.edges@.len() ==> low <= (
                    #[trigger] self.edges@[k]).distance < high,
            decreases self.size - i,
        {
            let mut j: u32 = 0;
            while j < self.size
                invariant
                    i < self.size,
                    j <= self.size,
                    self.wf(),
                    self.size == old(self).size,
                    self.vertices@ == old(self).vertices@,
                    self.adj_list@ == old(self).adj_list@,
                    old(self).edges@.is_prefix_of(self.edges@),
                    forall|a: u32, b: u32|
                        a < i && b < self.size && a != b ==> has_edge(self.edges@, a, b),
                    forall|b: u32| b < j && b != i ==> has_edge(self.edges@, i, b),
                    forall|k: int|
                        old(self).edges@.len() <= k < self.edges@.len() ==> low <= (
                        #[trigger] self.edges@[k]).distance < high,
                decreases self.size - j,
            {
                let n = crate::rng::random_in_range_u32(low, high);
                if i != j {
                    let ghost pre = *self;
                    self.add_edge(i, j, n);
                    proof {
                        if !has_edge(pre.edges@, i, j) {
                            assert(self.edges@[self.edges@.len() - 1] == Edge {
                                v: i,
                                w: j,
                                distance: n,
                            });
                        }
                        assert(has_edge(self.edges@, i, j));
                        assert(pre.edges@.len() >= old(self).edges@.len());
                        assert forall|k: int|
                            old(self).edges@.len() <= k < self.edges@.len() implies low <= (
                        #[trigger] self.edges@[k]).distance < high by {
                            if k < pre.edges@.len() {
                                assert(self.edges@[k] == pre.edges@[k]) by {
                                    assert(pre.edges@.is_prefix_of(self.edges@));
                                    assert(self.edges@.subrange(0, pre.edges@.len() as int)[k]
                                        == self.edges@[k]);
                                }
                            }
                        }
                        assert(old(self).edges@.is_prefix_of(self.edges@)) by {
                            assert forall|k: int|
                                0 <= k < old(self).edges@.len() implies old(self).edges@[k]
                                == self.edges@[k] by {
                                assert(self.edges@.subrange(0, pre.edges@.len() as int)[k]
                                    == self.edges@[k]);
                                assert(pre.edges@.subrange(0, old(self).edges@.len() as int)[k]
                                    == pre.edges@[k]);
                            }
                            assert(old(self).edges@ =~= self.edges@.subrange(
                                0,
                                old(self).edges@.len() as int,
                            ));
                        }
                        assert forall|a: u32, b: u32|
                            a < i && b < self.size && a != b implies has_edge(
                            self.edges@,
                            a,
                            b,
                        ) by {
                            assert(has_edge(pre.edges@, a, b));
                            lemma_has_edge_prefix(pre.edges@, self.edges@, a, b);
                        }
                        assert forall|b: u32| b < j + 1 && b != i implies has_edge(
                            self.edges@,
                            i,
                            b,
                        ) by {
                            if b < j {
                                assert(has_edge(pre.edges@, i, b));
                                lemma_has_edge_prefix(pre.edges@, self.edges@, i, b);
                            }
                        }
                    }
                }
                j = j + 1;
            }
            i = i + 1;
        }
    }
}

} // verus!
