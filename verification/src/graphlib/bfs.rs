use crate::edge::Edge;
use crate::graphlib::graph::{first_edge_distance, first_edge_index, lemma_first_edge_index, Graph};
use std::collections::VecDeque;
use vstd::arithmetic::div_mod::{
    lemma_div_is_ordered, lemma_div_multiples_vanish, lemma_fundamental_div_mod, lemma_mod_bound,
};
use vstd::arithmetic::mul::lemma_mul_inequality;
use vstd::prelude::*;
use vstd::set_lib::{lemma_int_range, lemma_len_subset, set_int_range};

verus! {

/// Sum of the recorded distances along the first `m` steps of `path`:
/// the distances of the first matching edges from `path[0]` to
/// `path[1]`, ..., `path[m - 1]` to `path[m]`.
pub open spec fn path_distance_upto(edges: Seq<Edge>, path: Seq<usize>, m: int) -> int
    decreases m,
{
    if m <= 0 {
        0
    } else {
        path_distance_upto(edges, path, m - 1) + first_edge_distance(
            edges,
            path[m - 1],
            path[m],
        )
    }
}

/// Sum of the recorded distances along all consecutive steps of `path`.
pub open spec fn path_distance(edges: Seq<Edge>, path: Seq<usize>) -> int {
    path_distance_upto(edges, path, path.len() - 1)
}

/// A sequence of distinct values below `n` has at most `n` elements.
proof fn lemma_distinct_bounded_len(s: Seq<usize>, n: int)
    requires
        s.no_duplicates(),
        forall|k: int| 0 <= k < s.len() ==> (#[trigger] s[k]) < n,
        0 <= n,
    ensures
        s.len() <= n,
{
    let si = s.map_values(|x: usize| x as int);
    assert(si.no_duplicates()) by {
        assert forall|i: int, j: int|
            0 <= i < si.len() && 0 <= j < si.len() && i != j implies si[i] != si[j] by {
            assert(si[i] == s[i] as int && si[j] == s[j] as int);
        }
    }
    si.unique_seq_to_set();
    assert(si.to_set().subset_of(set_int_range(0, n))) by {
        assert forall|x: int| si.to_set().contains(x) implies set_int_range(0, n).contains(
            x,
        ) by {
            let k = choose|k: int| 0 <= k < si.len() && si[k] == x;
            assert(si[k] == s[k] as int);
        }
    }
    lemma_int_range(0, n);
    lemma_len_subset(si.to_set(), set_int_range(0, n));
}

/// Two distinct-element sequences with no common element concatenate to
/// a distinct-element sequence.
proof fn lemma_disjoint_concat_no_duplicates(a: Seq<usize>, b: Seq<usize>)
    requires
        a.no_duplicates(),
        b.no_duplicates(),
        a.disjoint(b),
    ensures
        (a + b).no_duplicates(),
{
    assert forall|i: int, j: int|
        0 <= i < (a + b).len() && 0 <= j < (a + b).len() && i != j implies (a + b)[i] != (a
        + b)[j] by {
        if i < a.len() {
            assert((a + b)[i] == a[i]);
        } else {
            assert((a + b)[i] == b[i - a.len()]);
        }
        if j < a.len() {
            assert((a + b)[j] == a[j]);
        } else {
            assert((a + b)[j] == b[j - a.len()]);
        }
    }
}

/// Breadth-first traversal from the start vertex `s`. The vertices are
/// visited level by level into `path`; the reported distance adds up
/// the recorded distances along consecutive `path` entries. The search
/// reports nothing when `s` is not a vertex, or when the graph is
/// weighted yet the added distances come to zero.
#[verifier::loop_isolation(false)]
pub fn bfs(g: Graph, s: usize) -> (r: Option<(usize, Vec<usize>)>)
    requires
        g.wf(),
        forall|k: int|
            0 <= k < g.edges@.len() ==> (#[trigger] g.edges@[k]).distance as int * (
            g.size as int) <= usize::MAX as int,
    ensures
        !g.vertices@.contains(s) ==> r is None,
        g.vertices@.contains(s) && !g.weighted ==> r is Some,
        r is None ==> !g.vertices@.contains(s) || g.weighted,
        r matches Some(dp) ==> {
            let d = dp.0;
            let path = dp.1@;
            &&& g.vertices@.contains(s)
            &&& path.len() >= 1 && path[0] == s
            &&& path.no_duplicates()
            &&& (forall|k: int| 0 <= k < path.len() ==> (#[trigger] path[k]) < g.size)
            &&& (forall|k: int, j: int|
                0 <= k < path.len() && 0 <= j < g.adj_list@[path[k] as int]@.len()
                    ==> path.contains(#[trigger] g.adj_list@[path[k] as int]@[j]))
            &&& (forall|k: int|
                1 <= k < path.len() ==> exists|m: int, j: int|
                    0 <= m < path.len() && 0 <= j < g.adj_list@[path[m] as int]@.len() && (
                    #[trigger] g.adj_list@[path[m] as int]@[j]) == #[trigger] path[k])
            &&& d as int == path_distance(g.edges@, path)
            &&& (d != 0 || !g.weighted)
        },
{
    let mut visited: Vec<bool> = Vec::new();
    let mut c: usize = 0;
    while c < g.vertices.len()
        invariant
            c <= g.vertices@.len(),
            visited@.len() == c,
            forall|x: int| 0 <= x < c ==> !(#[trigger] visited@[x]),
        decreases g.vertices@.len() - c,
    {
        visited.push(false);
        c = c + 1;
    }
    let mut q: VecDeque<usize> = VecDeque::new();
    let mut path: Vec<usize> = Vec::new();

    if !g.contains_vertex(s) {
        return None;
    }
    proof {
        let i = choose|i: int| 0 <= i < g.vertices@.len() && g.vertices@[i] == s;
        assert(g.vertices@[i] == i as usize);
        assert(s < g.size);
    }
    q.push_back(s);
    visited[s] = true;
    proof {
        assert(q@[0] == s);
        assert(q@.contains(s));
        assert forall|x: int|
            0 <= x < g.size implies #[trigger] visited@[x] == (path@.contains(x as usize)
            || q@.contains(x as usize)) by {
            if x != s {
                if q@.contains(x as usize) {
                    let k = choose|k: int| 0 <= k < q@.len() && q@[k] == x as usize;
                    assert(q@[0] == s);
                }
            }
        }
    }

    while q.len() != 0
        invariant
            visited@.len() == g.size,
            forall|k: int| 0 <= k < q@.len() ==> (#[trigger] q@[k]) < g.size,
            forall|k: int| 0 <= k < path@.len() ==> (#[trigger] path@[k]) < g.size,
            path@.no_duplicates(),
            q@.no_duplicates(),
            path@.disjoint(q@),
            forall|x: int|
                0 <= x < g.size ==> #[trigger] visited@[x] == (path@.contains(x as usize)
                    || q@.contains(x as usize)),
            forall|k: int, j: int|
                0 <= k < path@.len() && 0 <= j < g.adj_list@[path@[k] as int]@.len()
                    ==> visited@[(#[trigger] g.adj_list@[path@[k] as int]@[j]) as int],
            forall|x: int|
                0 <= x < g.size && #[trigger] visited@[x] ==> x == s || exists|m: int, j: int|
                    0 <= m < path@.len() && 0 <= j < g.adj_list@[path@[m] as int]@.len()
                        && g.adj_list@[path@[m] as int]@[j] == x as usize,
            path@.len() == 0 ==> q@ =~= seq![s],
            path@.len() > 0 ==> path@[0] == s,
        decreases 2 * (g.size as int) - 2 * path@.len() - q@.len(),
    {
        proof {
            lemma_disjoint_concat_no_duplicates(path@, q@);
            assert(forall|k: int|
                0 <= k < (path@ + q@).len() ==> (#[trigger] (path@ + q@)[k]) < g.size);
            lemma_distinct_bounded_len(path@ + q@, g.size as int);
            assert(path@.len() + q@.len() <= g.size);
        }
        let ghost q0 = q@;
        let ghost path0 = path@;
        let v = q.pop_front().unwrap();
        path.push(v);
        proof {
            assert(v == q0[0]);
            assert(q@ =~= q0.subrange(1, q0.len() as int));
            assert(path@ =~= path0.push(v));
            assert(!path0.contains(v));
            assert forall|x: int|
                0 <= x < g.size implies #[trigger] visited@[x] == (path@.contains(x as usize)
                || q@.contains(x as usize)) by {
                let xu = x as usize;
                if path0.contains(xu) {
                    let k = choose|k: int| 0 <= k < path0.len() && path0[k] == xu;
                    assert(path@[k] == xu);
                } else if q0.contains(xu) {
                    let k = choose|k: int| 0 <= k < q0.len() && q0[k] == xu;
                    if k == 0 {
                        assert(path@[path@.len() - 1] == xu);
                    } else {
                        assert(q@[k - 1] == xu);
                    }
                } else {
                    assert(!path@.contains(xu) && !q@.contains(xu)) by {
                        if path@.contains(xu) {
                            let k = choose|k: int| 0 <= k < path@.len() && path@[k] == xu;
                            if k < path0.len() {
                                assert(path0[k] == xu);
                            } else {
                                assert(q0[0] == xu);
                            }
                        }
                        if q@.contains(xu) {
                            let k = choose|k: int| 0 <= k < q@.len() && q@[k] == xu;
                            assert(q0[k + 1] == xu);
                        }
                    }
                }
            }
            assert forall|x: int|
                0 <= x < g.size && #[trigger] visited@[x] implies x == s || exists|
                m: int,
                j: int,
            |
                0 <= m < path@.len() && 0 <= j < g.adj_list@[path@[m] as int]@.len()
                    && g.adj_list@[path@[m] as int]@[j] == x as usize by {
                if x != s {
                    let (m, j) = choose|m: int, j: int|
                        0 <= m < path0.len() && 0 <= j < g.adj_list@[path0[m] as int]@.len()
                            && g.adj_list@[path0[m] as int]@[j] == x as usize;
                    assert(path@[m] == path0[m]);
                    assert(0 <= m < path@.len() && 0 <= j < g.adj_list@[path@[m] as int]@.len()
                        && g.adj_list@[path@[m] as int]@[j] == x as usize);
                }
            }
        }
        if let Some(neighbor) = g.get_neighbors(v) {
            let mut t: usize = 0;
            while t < neighbor.len()
                invariant
                    neighbor@ == g.adj_list@[v as int]@,
                    t <= neighbor@.len(),
                    q@.len() + 1 >= q0.len(),
                    path@.len() >= 1 && path@[path@.len() - 1] == v,
                    visited@.len() == g.size,
                    forall|k: int| 0 <= k < q@.len() ==> (#[trigger] q@[k]) < g.size,
                    q@.no_duplicates(),
                    path@.disjoint(q@),
                    forall|x: int|
                        0 <= x < g.size ==> #[trigger] visited@[x] == (path@.contains(x as usize)
                            || q@.contains(x as usize)),
                    forall|k: int, j: int|
                        0 <= k < path@.len() - 1 && 0 <= j < g.adj_list@[path@[k] as int]@.len()
                            ==> visited@[(#[trigger] g.adj_list@[path@[k] as int]@[j]) as int],
                    forall|j: int| 0 <= j < t ==> visited@[(#[trigger] neighbor@[j]) as int],
                    forall|x: int|
                        0 <= x < g.size && #[trigger] visited@[x] ==> x == s || exists|
                            m: int,
                            j: int,
                        |
                            0 <= m < path@.len() && 0 <= j < g.adj_list@[path@[m] as int]@.len()
                                && g.adj_list@[path@[m] as int]@[j] == x as usize,
                decreases neighbor@.len() - t,
            {
                let w = neighbor[t];
                proof {
                    assert(g.adj_list@[v as int]@[t as int] == w);
                    assert(w < g.size);
                }
                if !visited[w] {
                    let ghost q1 = q@;
                    visited[w] = true;
                    q.push_back(w);
                    proof {
                        assert(q@ =~= q1.push(w));
                        assert(!q1.contains(w) && !path@.contains(w));
                        assert(q@[q@.len() - 1] == w);
                        assert(q@.contains(w));
                        assert forall|x: int|
                            0 <= x < g.size implies #[trigger] visited@[x] == (path@.contains(
                            x as usize,
                        ) || q@.contains(x as usize)) by {
                            let xu = x as usize;
                            if xu != w {
                                if q1.contains(xu) {
                                    let k = choose|k: int| 0 <= k < q1.len() && q1[k] == xu;
                                    assert(q@[k] == xu);
                                }
                                if q@.contains(xu) {
                                    let k = choose|k: int| 0 <= k < q@.len() && q@[k] == xu;
                                    assert(k < q1.len());
                                    assert(q1[k] == xu);
                                }
                            }
                        }
                        assert(q@.no_duplicates()) by {
                            assert forall|i: int, j: int|
                                0 <= i < q@.len() && 0 <= j < q@.len() && i != j implies q@[i]
                                != q@[j] by {
                                if i < q1.len() && j < q1.len() {
                                } else if i < q1.len() {
                                    assert(q@[j] == w && !q1.contains(w));
                                    assert(q1[i] == q@[i]);
                                } else {
                                    assert(q@[i] == w && !q1.contains(w));
                                    assert(q1[j] == q@[j]);
                                }
                            }
                        }
                        assert(path@.disjoint(q@)) by {
                            assert forall|k1: int, k2: int|
                                0 <= k1 < path@.len() && 0 <= k2 < q@.len() implies path@[k1]
                                != q@[k2] by {
                                if k2 < q1.len() {
                                    assert(q1[k2] == q@[k2]);
                                } else {
                                    assert(q@[k2] == w);
                                }
                            }
                        }
                        assert(path@[path@.len() - 1] == v);
                        assert(exists|m: int, j: int|
                            0 <= m < path@.len() && 0 <= j < g.adj_list@[path@[m] as int]@.len()
                                && g.adj_list@[path@[m] as int]@[j] == w) by {
                            assert(g.adj_list@[path@[path@.len() - 1] as int]@[t as int] == w);
                        }
                    }
                }
                t = t + 1;
            }
        }
        proof {
            lemma_disjoint_concat_no_duplicates(path@, q@);
            assert(forall|k: int|
                0 <= k < (path@ + q@).len() ==> (#[trigger] (path@ + q@)[k]) < g.size);
            lemma_distinct_bounded_len(path@ + q@, g.size as int);
            assert(path@.len() + q@.len() <= g.size);
        }
    }
    proof {
        assert forall|k: int, j: int|
            0 <= k < path@.len() && 0 <= j < g.adj_list@[path@[k] as int]@.len() implies
            path@.contains(#[trigger] g.adj_list@[path@[k] as int]@[j]) by {
            let xu = g.adj_list@[path@[k] as int]@[j];
            assert(visited@[xu as int]);
            assert(!q@.contains(xu));
        }
        assert forall|k: int| 1 <= k < path@.len() implies exists|m: int, j: int|
            0 <= m < path@.len() && 0 <= j < g.adj_list@[path@[m] as int]@.len() && (
            #[trigger] g.adj_list@[path@[m] as int]@[j]) == #[trigger] path@[k] by {
            let xu = path@[k];
            assert(path@.contains(xu));
            assert(visited@[xu as int]);
            assert(xu != s) by {
                assert(path@[0] == s);
            }
            let (m, j) = choose|m: int, j: int|
                0 <= m < path@.len() && 0 <= j < g.adj_list@[path@[m] as int]@.len()
                    && g.adj_list@[path@[m] as int]@[j] == xu;
            assert(0 <= m < path@.len() && 0 <= j < g.adj_list@[path@[m] as int]@.len() && (
            g.adj_list@[path@[m] as int]@[j]) == path@[k]);
        }
    }

    let ghost fmax = usize::MAX as int / g.size as int;
    proof {
        assert(path@.len() >= 1 && path@[0] == s);
        lemma_distinct_bounded_len(path@, g.size as int);
        lemma_fundamental_div_mod(usize::MAX as int, g.size as int);
        lemma_mod_bound(usize::MAX as int, g.size as int);
        assert((g.size as int) * fmax <= usize::MAX as int);
        assert(fmax >= 0) by {
            vstd::arithmetic::div_mod::lemma_div_pos_is_pos(usize::MAX as int, g.size as int);
        }
    }
    let mut total_dist: usize = 0;
    let mut i: usize = 0;
    while i < path.len() - 1
        invariant
            i <= path@.len() - 1,
            total_dist as int == path_distance_upto(g.edges@, path@, i as int),
            total_dist as int <= i * fmax,
        decreases path@.len() - 1 - i,
    {
        let d = g.get_distance(path[i], path[i + 1]);
        proof {
            assert(d as int <= fmax) by {
                let fi = first_edge_index(g.edges@, path@[i as int], path@[i as int + 1]);
                lemma_first_edge_index(g.edges@, path@[i as int], path@[i as int + 1]);
                if fi != -1 {
                    assert(g.edges@[fi].distance as int * (g.size as int) <= usize::MAX as int);
                    lemma_div_is_ordered(
                        d as int * (g.size as int),
                        usize::MAX as int,
                        g.size as int,
                    );
                    lemma_div_multiples_vanish(d as int, g.size as int);
                    assert((g.size as int * d as int) == d as int * g.size as int) by {
                        vstd::arithmetic::mul::lemma_mul_is_commutative(g.size as int, d as int);
                    }
                }
            }
            assert(total_dist as int + d as int <= (i as int + 1) * fmax) by {
                assert((i as int + 1) * fmax == i as int * fmax + fmax) by {
                    vstd::arithmetic::mul::lemma_mul_is_distributive_add_other_way(
                        fmax,
                        i as int,
                        1,
                    );
                }
            }
            assert((i as int + 1) * fmax <= (g.size as int) * fmax) by {
                lemma_mul_inequality(i as int + 1, g.size as int, fmax);
            }
        }
        total_dist = total_dist + d;
        i = i + 1;
    }
    proof {
        assert(total_dist as int == path_distance(g.edges@, path@));
    }

    if total_dist != 0 || !g.weighted {
        return Some((total_dist, path));
    }

    None
}

} // verus!
