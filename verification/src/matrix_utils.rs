//! In which order the entries of a matrix are summed up.

use vstd::prelude::*;

verus! {

/// The order of a cumulative sum over a matrix.
#[derive(Debug, Clone, Copy, PartialEq, Eq, Structural)]
pub enum CumsumOrder {
    /// Over the whole matrix, column after column.
    ColumnMajor,
    /// Over the whole matrix, row after row.
    RowMajor,
    /// Down each column by itself.
    ColumnWise,
    /// Along each row by itself.
    RowWise,
}

} // verus!
