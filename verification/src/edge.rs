use vstd::prelude::*;
use core::cmp::Ordering;

verus! {

/// A weighted edge between the vertices `v` and `w`. Edges are compared
/// by `distance` alone: two edges with the same distance are equal even
/// when they join different vertices.
#[derive(Eq, Clone, Copy)]
pub struct Edge {
    pub v: usize,
    pub w: usize,
    pub distance: usize,
}

impl Edge {
    /// A fresh edge with both endpoints and the distance zeroed.
    pub fn new() -> (r: Edge)
        ensures
            r.v == 0,
            r.w == 0,
            r.distance == 0,
    {
        Edge { v: 0, w: 0, distance: 0 }
    }
}

impl PartialEq for Edge {
    fn eq(&self, other: &Edge) -> (r: bool) {
        self.distance == other.distance
    }
}

impl vstd::std_specs::cmp::PartialEqSpecImpl for Edge {
    open spec fn obeys_eq_spec() -> bool {
        true
    }

    open spec fn eq_spec(&self, other: &Edge) -> bool {
        self.distance == other.distance
    }
}

impl PartialOrd for Edge {
    fn partial_cmp(&self, other: &Edge) -> (r: Option<Ordering>) {
        if self.distance < other.distance {
            Some(Ordering::Less)
        } else if self.distance == other.distance {
            Some(Ordering::Equal)
        } else {
            Some(Ordering::Greater)
        }
    }
}

impl vstd::std_specs::cmp::PartialOrdSpecImpl for Edge {
    open spec fn obeys_partial_cmp_spec() -> bool {
        true
    }

    open spec fn partial_cmp_spec(&self, other: &Edge) -> Option<Ordering> {
        if self.distance < other.distance {
            Some(Ordering::Less)
        } else if self.distance == other.distance {
            Some(Ordering::Equal)
        } else {
            Some(Ordering::Greater)
        }
    }
}

} // verus!
