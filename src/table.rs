use vstd::prelude::*;

use crate::bins::{bin_of, find_bin_binary, valid_bounds};

verus! {

/// Why a score table could not be built.
#[derive(Debug, Clone, Copy, PartialEq, Eq, Structural)]
pub enum TableError {
    /// The number of cells is not the number of distance bins times the number
    /// of dot bins.
    TableDimensionMismatch,
}

/// A lookup table of scores, indexed by a distance bin and a dot-product bin.
///
/// Thresholds are order keys (see `find_bin_binary`); the cells are stored row
/// by row, one row per distance bin and one column per dot bin.
pub struct ScoreTable<T> {
    dist_thresholds: Vec<i64>,
    dot_thresholds: Vec<i64>,
    cells: Vec<T>,
}

/// The position in the cell array of a (row, column) pair, for rows of
/// `n_cols` cells.
pub open spec fn cell_index(row: int, col: int, n_cols: int) -> int {
    row * n_cols + col
}

impl<T: Copy> ScoreTable<T> {
    pub closed spec fn dist_bounds(&self) -> Seq<i64> {
        self.dist_thresholds@
    }

    pub closed spec fn dot_bounds(&self) -> Seq<i64> {
        self.dot_thresholds@
    }

    pub closed spec fn cell_values(&self) -> Seq<T> {
        self.cells@
    }

    /// Both threshold lists are usable bounds and there is one cell per
    /// pair of bins.
    pub open spec fn wf(&self) -> bool {
        &&& valid_bounds(self.dist_bounds())
        &&& valid_bounds(self.dot_bounds())
        &&& self.cell_values().len() == self.dist_bounds().len() * self.dot_bounds().len()
    }

    /// The score for a distance key and a dot-product key.
    pub open spec fn score_spec(&self, dist: i64, dot: i64) -> T {
        self.cell_values()[cell_index(
            bin_of(dist, self.dist_bounds()),
            bin_of(dot, self.dot_bounds()),
            self.dot_bounds().len() as int,
        )]
    }

    /// Looks up the score of a (distance, dot product) pair, given as order keys.
    pub fn score(&self, dist: i64, dot: i64) -> (r: T)
        requires
            self.wf(),
        ensures
            r == self.score_spec(dist, dot),
    {
        let col = find_bin_binary(dot, self.dot_thresholds.as_slice());
        let row = find_bin_binary(dist, self.dist_thresholds.as_slice());
        let n_cols = self.dot_thresholds.len();
        let n_rows = self.dist_thresholds.len();
        let n_cells = self.cells.len();
        proof {
            assert(row * n_cols + col < n_rows * n_cols) by (nonlinear_arith)
                requires
                    row < n_rows,
                    col < n_cols,
            ;
            assert(self.cells@.len() == n_rows * n_cols);
        }
        self.cells[row * n_cols + col]
    }
}

/// Builds a score table from ascending distance thresholds, ascending dot
/// thresholds, and the cells in row-major order (one row per distance bin).
/// Fails exactly when the number of cells does not match the two margins.
pub fn table_to_fn<T: Copy>(dist_thresholds: Vec<i64>, dot_thresholds: Vec<i64>, cells: Vec<T>) -> (r:
    Result<ScoreTable<T>, TableError>)
    requires
        valid_bounds(dist_thresholds@),
        valid_bounds(dot_thresholds@),
    ensures
        r is Ok <==> cells@.len() == dist_thresholds@.len() * dot_thresholds@.len(),
        r is Err ==> r->Err_0 == TableError::TableDimensionMismatch,
        r is Ok ==> ({
            let table = r->Ok_0;
            &&& table.wf()
            &&& table.dist_bounds() == dist_thresholds@
            &&& table.dot_bounds() == dot_thresholds@
            &&& table.cell_values() == cells@
        }),
{
    let n_cells = cells.len();
    match dist_thresholds.len().checked_mul(dot_thresholds.len()) {
        Some(n) => {
            if n != n_cells {
                return Err(TableError::TableDimensionMismatch);
            }
        },
        None => {
            return Err(TableError::TableDimensionMismatch);
        },
    }
    Ok(ScoreTable { dist_thresholds, dot_thresholds, cells })
}

} // verus!
