//! The decisions of solving three linear equations: which rows and columns the
//! elimination goes by, and so what rank the equations have. The arithmetic on
//! the rows is done outside.
use vstd::prelude::*;

use crate::double::Double;
use crate::workbench::edges::{edge_views, Edge, EdgeView};

verus! {

/// What equations come to: a solution, their rank, and a basis of what they
/// leave open.
#[derive(Debug)]
pub struct SolveResult {
    pub solution: [Double; 3],
    pub rank: usize,
    pub nullspace: Vec<[Double; 3]>,
}

// ---------- Elimination ----------

/// The row from `from` to `n` whose entry is largest in size; the first of
/// equals.
pub open spec fn largest(column: Seq<Double>, from: int, n: int) -> int
    decreases n - from,
{
    if n <= from + 1 {
        from
    } else {
        let b = largest(column, from, n - 1);
        if column[b].size().below(column[n - 1].size()) {
            n - 1
        } else {
            b
        }
    }
}

/// What is done with a column.
#[derive(Clone, Copy, Debug, PartialEq, Eq, Structural)]
pub enum Pivot {
    /// Its entries count as zero: the next column is taken.
    Pass,
    /// This row is put in front, and the column is cleared below it.
    Take(usize),
}

/// What is done with a column when `rank` rows are settled.
pub open spec fn pivot_of(column: Seq<Double>, rank: int, tol: Double) -> Pivot {
    let b = largest(column, rank, 3);
    if column[b].size().up_to(tol) {
        Pivot::Pass
    } else {
        Pivot::Take(b as usize)
    }
}

/// An elimination: the next column, and the columns that were cleared. There are
/// as many of them as rows that are settled.
#[derive(Debug)]
pub struct Elimination {
    pub col: usize,
    pub pivots: Vec<usize>,
}

impl Elimination {
    /// The columns that were cleared stand before the next one, in their order.
    pub open spec fn well_formed(self) -> bool {
        &&& self.col <= 3
        &&& self.pivots@.len() <= self.col
        &&& forall|i: int| 0 <= i < self.pivots@.len() ==> (#[trigger] self.pivots@[i]) < self.col
        &&& forall|i: int, j: int|
            0 <= i < j < self.pivots@.len() ==> (#[trigger] self.pivots@[i]) < (
            #[trigger] self.pivots@[j])
    }

    /// Starts an elimination.
    pub fn start() -> (r: Elimination)
        ensures
            r.well_formed(),
            r.col == 0,
            r.pivots@.len() == 0,
    {
        Elimination { col: 0, pivots: Vec::new() }
    }

    /// The rank so far.
    pub fn rank(&self) -> (r: usize)
        ensures
            r == self.pivots@.len(),
            self.well_formed() ==> r <= 3,
    {
        self.pivots.len()
    }

    /// Whether no column is left.
    pub fn is_over(&self) -> (r: bool)
        ensures
            r == (self.col >= 3),
    {
        self.col >= 3
    }

    /// Decides on the next column, by its entries as they are now.
    pub fn step(&mut self, column: &[Double; 3], tol: Double) -> (r: Pivot)
        requires
            old(self).well_formed(),
            old(self).col < 3,
        ensures
            final(self).well_formed(),
            final(self).col == old(self).col + 1,
            r == pivot_of(column@, old(self).pivots@.len() as int, tol),
            r matches Pivot::Take(row) ==> old(self).pivots@.len() <= row < 3,
            final(self).pivots@ == if r is Take {
                old(self).pivots@.push(old(self).col)
            } else {
                old(self).pivots@
            },
    {
        let rank: usize = self.pivots.len();
        let mut best: usize = rank;
        let mut i: usize = rank + 1;
        while i < 3
            invariant
                rank <= best < 3,
                rank < i <= 3,
                best == largest(column@, rank as int, i as int),
            decreases 3 - i,
        {
            if column[best].absolute().is_below(column[i].absolute()) {
                best = i;
            }
            i += 1;
        }
        let col: usize = self.col;
        self.col = col + 1;
        if column[best].absolute().is_up_to(tol) {
            Pivot::Pass
        } else {
            self.pivots.push(col);
            Pivot::Take(best)
        }
    }
}

// ---------- What equations leave open ----------

/// The axis along which a plane is entered that stands across a row: one in
/// which the row is not largest.
pub open spec fn free_axis_of(row: Seq<Double>) -> int {
    let first = if row[0].size().below(row[1].size()) {
        0int
    } else {
        1int
    };
    if row[first].size().below(row[2].size()) {
        first
    } else {
        2
    }
}

/// Finds the axis along which a plane is entered.
pub fn free_axis(row: &[Double; 3]) -> (r: usize)
    ensures
        r == free_axis_of(row@),
        r < 3,
{
    let first: usize = if row[0].absolute().is_below(row[1].absolute()) {
        0
    } else {
        1
    };
    if row[first].absolute().is_below(row[2].absolute()) {
        first
    } else {
        2
    }
}

// ---------- The equations of a set of edges ----------

/// An edge that ends at the reference station: which one, where its other end
/// is, and whether it leads away from the reference.
#[derive(Clone, Copy, Debug, PartialEq, Eq, Structural)]
pub struct Spoke {
    pub edge: usize,
    pub other: usize,
    pub outward: bool,
}

/// The spoke that an edge is, if it ends at the reference station.
pub open spec fn spoke_of(e: EdgeView, at: int, reference: int) -> Option<Spoke> {
    if e.a == reference {
        Some(Spoke { edge: at as usize, other: e.b as usize, outward: true })
    } else if e.b == reference {
        Some(Spoke { edge: at as usize, other: e.a as usize, outward: false })
    } else {
        None
    }
}

/// The spokes among the first `n` edges, in their order.
pub open spec fn spokes_of(edges: Seq<EdgeView>, reference: int, n: int) -> Seq<Spoke>
    decreases n,
{
    if n <= 0 {
        Seq::empty()
    } else {
        let before = spokes_of(edges, reference, n - 1);
        match spoke_of(edges[n - 1], n - 1, reference) {
            Some(s) => before.push(s),
            None => before,
        }
    }
}

/// The edges that end at the reference station: each gives one equation.
pub fn spokes(edges: &Vec<Edge>, reference: usize) -> (r: Vec<Spoke>)
    ensures
        r@ == spokes_of(edge_views(edges@), reference as int, edges@.len() as int),
{
    let ghost all = edge_views(edges@);
    let mut out: Vec<Spoke> = Vec::new();
    let mut i: usize = 0;
    while i < edges.len()
        invariant
            i <= edges@.len(),
            all == edge_views(edges@),
            out@ == spokes_of(all, reference as int, i as int),
        decreases edges@.len() - i,
    {
        assert(all[i as int] == edges@[i as int]@);
        if edges[i].a == reference {
            out.push(Spoke { edge: i, other: edges[i].b, outward: true });
        } else if edges[i].b == reference {
            out.push(Spoke { edge: i, other: edges[i].a, outward: false });
        }
        i += 1;
    }
    out
}

} // verus!
