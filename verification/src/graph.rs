//! The graph data model: node positions and the symmetric edge-weight
//! matrix that the force models read during a run.

use vstd::prelude::*;

verus! {

/// A node's position in the plane.
#[derive(Clone, Copy, PartialEq, Debug)]
pub struct Node<S> {
    pub x: S,
    pub y: S,
}

/// One cell of the edge matrix: the weight of the edge between two nodes,
/// where the caller's chosen "no edge" weight marks an absent edge.
#[derive(Clone, Copy, PartialEq, Debug)]
pub struct Edge<S> {
    pub weight: S,
}

/// A square, symmetric edge-weight matrix, built once before a run and
/// treated as immutable afterwards. Viewed as a sequence of rows of weights.
#[derive(Clone)]
pub struct EdgeMatrix<S> {
    edges: Vec<Vec<Edge<S>>>,
}

impl<S> View for EdgeMatrix<S> {
    type V = Seq<Seq<S>>;

    closed spec fn view(&self) -> Seq<Seq<S>> {
        Seq::new(
            self.edges@.len(),
            |i: int| Seq::new(self.edges@[i]@.len(), |j: int| self.edges@[i]@[j].weight),
        )
    }
}

impl<S> EdgeMatrix<S> {
    /// The matrix is square: every row is as long as the list of rows.
    pub open spec fn wf(&self) -> bool {
        forall|i: int| 0 <= i < self@.len() ==> #[trigger] self@[i].len() == self@.len()
    }

    /// Every entry equals its mirror entry.
    pub open spec fn symmetric(&self) -> bool {
        forall|i: int, j: int|
            0 <= i < self@.len() && 0 <= j < self@.len() ==> #[trigger] self@[i][j] == self@[j][i]
    }

    /// The number of nodes the matrix covers.
    pub fn size(&self) -> (n: usize)
        ensures
            n == self@.len(),
    {
        self.edges.len()
    }
}

impl<S: Copy> EdgeMatrix<S> {
    /// The weight of the edge between nodes `i` and `j`.
    pub fn weight(&self, i: usize, j: usize) -> (w: S)
        requires
            self.wf(),
            i < self@.len(),
            j < self@.len(),
        ensures
            w == self@[i as int][j as int],
    {
        proof {
            assert(self@.len() == self.edges@.len());
            assert(self@[i as int].len() == self@.len());
            assert(self@[i as int].len() == self.edges@[i as int]@.len());
        }
        self.edges[i][j].weight
    }
}

/// A matrix of the given size with every entry set to the "no edge" weight.
pub fn new_edge_matrix<S: Copy>(size: usize, no_edge: S) -> (m: EdgeMatrix<S>)
    ensures
        m.wf(),
        m.symmetric(),
        m@.len() == size,
        forall|i: int, j: int| 0 <= i < size && 0 <= j < size ==> #[trigger] m@[i][j] == no_edge,
{
    let mut edges: Vec<Vec<Edge<S>>> = Vec::new();
    let mut i: usize = 0;
    while i < size
        invariant
            i <= size,
            edges@.len() == i,
            forall|r: int| 0 <= r < i ==> #[trigger] edges@[r]@.len() == size,
            forall|r: int, c: int|
                0 <= r < i && 0 <= c < size ==> #[trigger] edges@[r]@[c].weight == no_edge,
        decreases size - i,
    {
        let mut row: Vec<Edge<S>> = Vec::new();
        let mut j: usize = 0;
        while j < size
            invariant
                j <= size,
                row@.len() == j,
                forall|c: int| 0 <= c < j ==> #[trigger] row@[c].weight == no_edge,
            decreases size - j,
        {
            row.push(Edge { weight: no_edge });
            j += 1;
        }
        edges.push(row);
        i += 1;
    }
    EdgeMatrix { edges }
}

/// Sets the weight of the undirected edge between `i` and `j`: both the
/// `(i, j)` and the `(j, i)` entry become `weight`, and every other entry
/// keeps its value.
pub fn add_edge<S: Copy>(matrix: &mut EdgeMatrix<S>, i: usize, j: usize, weight: S)
    requires
        old(matrix).wf(),
        i < old(matrix)@.len(),
        j < old(matrix)@.len(),
    ensures
        final(matrix).wf(),
        final(matrix)@.len() == old(matrix)@.len(),
        final(matrix)@[i as int][j as int] == weight,
        final(matrix)@[j as int][i as int] == weight,
        forall|r: int, c: int|
            0 <= r < old(matrix)@.len() && 0 <= c < old(matrix)@.len() && !((r == i && c == j) || (
            r == j && c == i)) ==> #[trigger] final(matrix)@[r][c] == old(matrix)@[r][c],
        old(matrix).symmetric() ==> final(matrix).symmetric(),
{
    proof {
        assert(old(matrix)@.len() == old(matrix).edges@.len());
        assert(old(matrix)@[i as int].len() == old(matrix)@.len());
        assert(old(matrix)@[j as int].len() == old(matrix)@.len());
        assert(old(matrix)@[i as int].len() == old(matrix).edges@[i as int]@.len());
        assert(old(matrix)@[j as int].len() == old(matrix).edges@[j as int]@.len());
    }
    matrix.edges[i][j] = Edge { weight };
    matrix.edges[j][i] = Edge { weight };
    proof {
        assert forall|r: int| 0 <= r < matrix@.len() implies #[trigger] matrix@[r].len()
            == matrix@.len() by {
            assert(old(matrix)@[r].len() == old(matrix)@.len());
        }
        if old(matrix).symmetric() {
            assert forall|r: int, c: int|
                0 <= r < matrix@.len() && 0 <= c < matrix@.len() implies #[trigger] matrix@[r][c]
                == matrix@[c][r] by {
                if !((r == i && c == j) || (r == j && c == i) || (c == i && r == j) || (c == j && r
                    == i)) {
                    assert(matrix@[r][c] == old(matrix)@[r][c]);
                    assert(matrix@[c][r] == old(matrix)@[c][r]);
                    assert(old(matrix)@[r][c] == old(matrix)@[c][r]);
                }
            }
        }
    }
}

} // verus!
