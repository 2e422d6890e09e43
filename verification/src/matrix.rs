//! A rectangular grid of binary32 values, built from zero vectors.

use crate::error::Error;
use crate::model::zeros;
use crate::vector::Vector;
use vstd::prelude::*;

verus! {

/// Rows of one common dimension; there is at least one row, and each row has
/// at least one entry.
#[derive(Debug)]
pub struct Matrix {
    rows: Vec<Vector>,
}

impl View for Matrix {
    type V = Seq<Seq<u32>>;

    closed spec fn view(&self) -> Seq<Seq<u32>> {
        Seq::new(self.rows.len() as nat, |i: int| self.rows[i]@)
    }
}

/// The grid of `rows` rows of `cols` zeros each.
pub open spec fn zero_grid(rows: nat, cols: nat) -> Seq<Seq<u32>> {
    Seq::new(rows, |i: int| zeros(cols))
}

/// Whether a grid has at least one row, and all its rows one dimension that
/// is not zero.
pub open spec fn rectangular(grid: Seq<Seq<u32>>) -> bool {
    &&& grid.len() > 0
    &&& grid[0].len() > 0
    &&& forall|i: int| 0 <= i < grid.len() ==> (#[trigger] grid[i]).len() == grid[0].len()
}

impl Matrix {
    #[verifier::type_invariant]
    spec fn well_formed(self) -> bool {
        rectangular(self@)
    }

    /// The matrix of `rows` rows of `cols` zeros each; refused when either
    /// count is zero.
    pub fn new(rows: usize, cols: usize) -> (r: Result<Matrix, Error>)
        ensures
            rows == 0 || cols == 0 ==> r is Err && r->Err_0
                == Error::InvalidInitialMatrixDimensions,
            rows > 0 && cols > 0 ==> r is Ok && r->Ok_0@ == zero_grid(rows as nat, cols as nat),
    {
        if rows == 0 || cols == 0 {
            return Err(Error::InvalidInitialMatrixDimensions);
        }
        let mut grid: Vec<Vector> = Vec::new();
        let mut i: usize = 0;
        while i < rows
            invariant
                i <= rows,
                grid.len() == i,
                forall|j: int| 0 <= j < i ==> (#[trigger] grid[j])@ == zeros(cols as nat),
            decreases rows - i,
        {
            grid.push(Vector::new(cols));
            i = i + 1;
        }
        let m = Matrix { rows: grid };
        assert(m@ =~= zero_grid(rows as nat, cols as nat));
        Ok(m)
    }

    /// The number of rows, which is not zero.
    pub fn rows(&self) -> (n: usize)
        ensures
            n == self@.len(),
            rectangular(self@),
    {
        proof {
            use_type_invariant(self);
        }
        self.rows.len()
    }

    /// The number of entries of each row, which is not zero.
    pub fn cols(&self) -> (n: usize)
        ensures
            n == self@[0].len(),
            rectangular(self@),
    {
        proof {
            use_type_invariant(self);
        }
        self.rows[0].dim()
    }

    /// The rows of the matrix, from the first to the last.
    pub fn into_rows(self) -> (rows: Vec<Vector>)
        ensures
            rows.len() == self@.len(),
            forall|i: int| 0 <= i < rows.len() ==> (#[trigger] rows[i])@ == self@[i],
    {
        self.rows
    }
}

} // verus!
