//! A grid of key switches as the keyboard reports it, each on or off.

use vstd::prelude::*;

verus! {

/// A grid of switches, each on or off, by (row, column).
pub struct Matrix {
    rows: usize,
    cols: usize,
    data: Vec<bool>,
}

impl Matrix {
    #[verifier::type_invariant]
    spec fn inv(self) -> bool {
        self.data@.len() == self.rows * self.cols
    }

    /// The number of rows.
    pub closed spec fn spec_rows(self) -> nat {
        self.rows as nat
    }

    /// The number of columns.
    pub closed spec fn spec_cols(self) -> nat {
        self.cols as nat
    }

    /// Whether the switch at (row, col) is on; `None` outside the grid.
    pub closed spec fn cell(self, row: int, col: int) -> Option<bool> {
        if 0 <= row < self.rows && 0 <= col < self.cols {
            Some(self.data@[row * self.cols + col])
        } else {
            None
        }
    }

    /// A grid of `rows` rows and `cols` columns, read row by row from `data`;
    /// `None` where `data` does not hold exactly that many switches.
    pub fn new(rows: usize, cols: usize, data: Vec<bool>) -> (r: Option<Self>)
        ensures
            r is Some <== data@.len() == rows * cols,
            r matches Some(m) ==> {
                &&& data@.len() == rows * cols
                &&& m.spec_rows() == rows
                &&& m.spec_cols() == cols
                &&& forall|row: int, col: int|
                    0 <= row < rows && 0 <= col < cols ==> #[trigger] m.cell(row, col) == Some(
                        data@[row * cols + col],
                    )
            },
    {
        let n = rows.checked_mul(cols);
        match n {
            Some(n) => {
                if data.len() == n {
                    Some(Matrix { rows, cols, data })
                } else {
                    None
                }
            },
            None => {
                let len = data.len();
                assert(len < rows * cols);
                None
            },
        }
    }

    /// The number of rows.
    pub fn rows(&self) -> (n: usize)
        ensures
            n == self.spec_rows(),
    {
        self.rows
    }

    /// The number of columns.
    pub fn cols(&self) -> (n: usize)
        ensures
            n == self.spec_cols(),
    {
        self.cols
    }

    /// Whether the switch at (row, col) is on; `None` outside the grid.
    pub fn get(&self, row: usize, col: usize) -> (r: Option<bool>)
        ensures
            r == self.cell(row as int, col as int),
    {
        proof {
            use_type_invariant(self);
        }
        let len = self.data.len();
        if row < self.rows && col < self.cols {
            proof {
                assert(row * self.cols + col < self.rows * self.cols) by (nonlinear_arith)
                    requires
                        row < self.rows,
                        col < self.cols,
                ;
            }
            let at = row * self.cols + col;
            Some(self.data[at])
        } else {
            None
        }
    }
}

} // verus!
