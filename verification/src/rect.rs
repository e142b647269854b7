//! Rectangles of cells: a top-left corner and the number of columns and
//! rows, with containment and row-major enumeration.

use crate::location::CellLocation;
use vstd::prelude::*;

verus! {

/// A rectangle of cells, given by its top-left cell and its extents.
#[derive(Clone, Copy, Debug, PartialEq, Eq, Structural)]
pub struct CellRect {
    pub top_left_cell_location: CellLocation,
    pub col_count: usize,
    pub row_count: usize,
}

/// The smaller of two indices.
pub open spec fn lower(a: usize, b: usize) -> usize {
    if a < b {
        a
    } else {
        b
    }
}

/// The distance between two indices, counted in cells with both ends
/// included.
pub open spec fn span(a: usize, b: usize) -> int {
    if a < b {
        b - a + 1
    } else {
        a - b + 1
    }
}

/// Position in a row-major list of the cell `r` rows down and `c` columns
/// right in a block that is `cols` wide.
pub open spec fn row_major(r: int, c: int, cols: int) -> int {
    r * cols + c
}

/// A row-major position splits back into its row and column.
pub proof fn lemma_row_major_split(r: int, c: int, cols: int)
    requires
        0 <= r,
        0 <= c < cols,
    ensures
        row_major(r, c, cols) / cols == r,
        row_major(r, c, cols) % cols == c,
{
    vstd::arithmetic::div_mod::lemma_fundamental_div_mod_converse(r * cols + c, cols, r, c);
}

/// A position below `rows * cols` lies in one of the `rows` rows.
pub proof fn lemma_row_major_bounds(i: int, rows: int, cols: int)
    requires
        0 <= i < rows * cols,
        0 < cols,
    ensures
        0 <= i / cols < rows,
        0 <= i % cols < cols,
        row_major(i / cols, i % cols, cols) == i,
{
    vstd::arithmetic::div_mod::lemma_fundamental_div_mod(i, cols);
    vstd::arithmetic::div_mod::lemma_mod_bound(i, cols);
    let q = i / cols;
    assert(cols * q == q * cols) by (nonlinear_arith);
    assert(q >= 0) by (nonlinear_arith)
        requires
            q * cols + i % cols == i,
            0 <= i % cols < cols,
            0 <= i,
    ;
    assert(q < rows) by (nonlinear_arith)
        requires
            q * cols + i % cols == i,
            0 <= i % cols,
            i < rows * cols,
            0 < cols,
    ;
}

impl Default for CellRect {
    fn default() -> (r: CellRect)
        ensures
            r == (CellRect {
                top_left_cell_location: CellLocation { row: 0, col: 0 },
                col_count: 0,
                row_count: 0,
            }),
    {
        CellRect { top_left_cell_location: CellLocation { row: 0, col: 0 }, col_count: 0, row_count: 0 }
    }
}

impl CellRect {
    /// The rectangle with the given opposite corners, whichever way round
    /// the corners are given.
    pub open spec fn spanning(corner: CellLocation, corner_opposite: CellLocation) -> CellRect {
        CellRect {
            top_left_cell_location: CellLocation {
                row: lower(corner.row, corner_opposite.row),
                col: lower(corner.col, corner_opposite.col),
            },
            col_count: span(corner.col, corner_opposite.col) as usize,
            row_count: span(corner.row, corner_opposite.row) as usize,
        }
    }

    /// Whether a table can be grown to hold the rectangle: the number of
    /// rows and of columns that it then has, and the number of the
    /// rectangle's cells, are representable.
    pub open spec fn fits(self) -> bool {
        &&& self.top_left_cell_location.row + self.row_count <= usize::MAX
        &&& self.row_count > 0 ==> self.top_left_cell_location.col + self.col_count <= usize::MAX
        &&& self.row_count * self.col_count <= usize::MAX
    }

    /// Whether the rectangle can be read: each of its cells has a location,
    /// and the number of its cells is representable.
    pub open spec fn readable(self) -> bool {
        &&& self.row_count > 0 ==> self.top_left_cell_location.row + self.row_count - 1 <= usize::MAX
        &&& self.row_count > 0 && self.col_count > 0 ==> self.top_left_cell_location.col
            + self.col_count - 1 <= usize::MAX
        &&& self.row_count * self.col_count <= usize::MAX
    }

    /// Number of cells in the rectangle.
    pub open spec fn cell_count(self) -> int {
        self.row_count * self.col_count
    }

    /// Location of the `i`-th cell of the rectangle in row-major order.
    pub open spec fn location_at(self, i: int) -> CellLocation {
        CellLocation {
            row: (self.top_left_cell_location.row + i / (self.col_count as int)) as usize,
            col: (self.top_left_cell_location.col + i % (self.col_count as int)) as usize,
        }
    }

    /// Whether `location` lies in the rectangle. A count of zero is read as
    /// one.
    pub open spec fn spec_contains(self, location: CellLocation) -> bool {
        let rows = if self.row_count == 0 { 1 } else { self.row_count as int };
        let cols = if self.col_count == 0 { 1 } else { self.col_count as int };
        &&& self.top_left_cell_location.row <= location.row < self.top_left_cell_location.row + rows
        &&& self.top_left_cell_location.col <= location.col < self.top_left_cell_location.col + cols
    }

    /// Builds the rectangle that has the two locations as opposite corners.
    /// Each extent has to be a representable count.
    pub fn from_opposite_cell_locations(corner: CellLocation, corner_opposite: CellLocation) -> (rect:
        CellRect)
        requires
            span(corner.row, corner_opposite.row) <= usize::MAX,
            span(corner.col, corner_opposite.col) <= usize::MAX,
        ensures
            rect == Self::spanning(corner, corner_opposite),
            rect.row_count >= 1,
            rect.col_count >= 1,
            rect.top_left_cell_location.row + rect.row_count - 1 == (if corner.row < corner_opposite.row {
                corner_opposite.row
            } else {
                corner.row
            }),
            rect.top_left_cell_location.col + rect.col_count - 1 == (if corner.col < corner_opposite.col {
                corner_opposite.col
            } else {
                corner.col
            }),
    {
        let (top_row, bottom_row) = if corner.row < corner_opposite.row {
            (corner.row, corner_opposite.row)
        } else {
            (corner_opposite.row, corner.row)
        };
        let (left_col, right_col) = if corner.col < corner_opposite.col {
            (corner.col, corner_opposite.col)
        } else {
            (corner_opposite.col, corner.col)
        };
        CellRect {
            top_left_cell_location: CellLocation { row: top_row, col: left_col },
            col_count: right_col - left_col + 1,
            row_count: bottom_row - top_row + 1,
        }
    }

    /// Tells whether `location` lies in the rectangle.
    pub fn contains(&self, location: CellLocation) -> (inside: bool)
        ensures
            inside == self.spec_contains(location),
    {
        let top_row: usize = self.top_left_cell_location.row;
        let left_col: usize = self.top_left_cell_location.col;
        let down: usize = self.row_count.saturating_sub(1);
        let right: usize = self.col_count.saturating_sub(1);
        location.row >= top_row && location.row - top_row <= down && location.col >= left_col
            && location.col - left_col <= right
    }
}

impl CellLocation {
    /// Tells whether the location lies in the rectangle that has `corner`
    /// and `corner_opposite` as opposite corners.
    pub fn in_rect(self, corner: CellLocation, corner_opposite: CellLocation) -> (inside: bool)
        ensures
            inside == ({
                &&& lower(corner.row, corner_opposite.row) <= self.row
                &&& self.row < lower(corner.row, corner_opposite.row) + span(corner.row, corner_opposite.row)
                &&& lower(corner.col, corner_opposite.col) <= self.col
                &&& self.col < lower(corner.col, corner_opposite.col) + span(corner.col, corner_opposite.col)
            }),
            span(corner.row, corner_opposite.row) <= usize::MAX && span(corner.col, corner_opposite.col)
                <= usize::MAX ==> inside == CellRect::spanning(corner, corner_opposite).spec_contains(self),
    {
        let (top_row, bottom_row) = if corner.row < corner_opposite.row {
            (corner.row, corner_opposite.row)
        } else {
            (corner_opposite.row, corner.row)
        };
        let (left_col, right_col) = if corner.col < corner_opposite.col {
            (corner.col, corner_opposite.col)
        } else {
            (corner_opposite.col, corner.col)
        };
        top_row <= self.row && self.row <= bottom_row && left_col <= self.col && self.col <= right_col
    }

    /// Lists, row by row, the locations of the rectangle that has `self` and
    /// `opposite` as opposite corners.
    pub fn rect_iter(self, opposite: CellLocation) -> (cells: Vec<CellLocation>)
        requires
            span(self.row, opposite.row) * span(self.col, opposite.col) <= usize::MAX,
        ensures
            cells@.len() == CellRect::spanning(self, opposite).cell_count(),
            forall|i: int|
                0 <= i < cells@.len() ==> #[trigger] cells@[i] == CellRect::spanning(
                    self,
                    opposite,
                ).location_at(i),
    {
        proof {
            lemma_spans_fit(span(self.row, opposite.row), span(self.col, opposite.col));
        }
        let rect = CellRect::from_opposite_cell_locations(self, opposite);
        let top: usize = rect.top_left_cell_location.row;
        let left: usize = rect.top_left_cell_location.col;
        let mut cells: Vec<CellLocation> = Vec::new();
        let mut r: usize = 0;
        while r < rect.row_count
            invariant
                rect == CellRect::spanning(self, opposite),
                top == rect.top_left_cell_location.row,
                left == rect.top_left_cell_location.col,
                top + rect.row_count - 1 <= usize::MAX,
                left + rect.col_count - 1 <= usize::MAX,
                rect.col_count >= 1,
                rect.row_count * rect.col_count <= usize::MAX,
                r <= rect.row_count,
                cells@.len() == r * rect.col_count,
                forall|i: int| 0 <= i < cells@.len() ==> #[trigger] cells@[i] == rect.location_at(i),
            decreases rect.row_count - r,
        {
            let mut c: usize = 0;
            while c < rect.col_count
                invariant
                    top == rect.top_left_cell_location.row,
                    left == rect.top_left_cell_location.col,
                    top + rect.row_count - 1 <= usize::MAX,
                    left + rect.col_count - 1 <= usize::MAX,
                    rect.col_count >= 1,
                    r < rect.row_count,
                    c <= rect.col_count,
                    cells@.len() == r * rect.col_count + c,
                    forall|i: int| 0 <= i < cells@.len() ==> #[trigger] cells@[i] == rect.location_at(i),
                decreases rect.col_count - c,
            {
                proof {
                    lemma_row_major_split(r as int, c as int, rect.col_count as int);
                }
                cells.push(CellLocation { row: top + r, col: left + c });
                c += 1;
            }
            proof {
                assert((r + 1) * rect.col_count == r * rect.col_count + rect.col_count)
                    by (nonlinear_arith);
            }
            r += 1;
        }
        proof {
            assert(cells@.len() == rect.row_count * rect.col_count);
        }
        cells
    }
}

/// Two counts of at least one whose product is representable are
/// representable themselves.
pub proof fn lemma_spans_fit(rows: int, cols: int)
    requires
        rows >= 1,
        cols >= 1,
        rows * cols <= usize::MAX,
    ensures
        rows <= usize::MAX,
        cols <= usize::MAX,
{
    assert(rows <= rows * cols) by (nonlinear_arith)
        requires
            rows >= 1,
            cols >= 1,
    ;
    assert(cols <= rows * cols) by (nonlinear_arith)
        requires
            rows >= 1,
            cols >= 1,
    ;
}

/// The rectangle spanned by two corners does not depend on the order in
/// which the corners are given.
pub proof fn lemma_spanning_symmetric(a: CellLocation, b: CellLocation)
    ensures
        CellRect::spanning(a, b) == CellRect::spanning(b, a),
{
}

} // verus!
