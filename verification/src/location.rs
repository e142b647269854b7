//! Cell coordinates and signed offsets, with arithmetic that saturates at
//! zero and at the largest index.

use vstd::prelude::*;
use vstd::std_specs::ops::AddSpecImpl;
use vstd::std_specs::ops::SubSpecImpl;

verus! {

/// One of the four directions in which a cursor or a viewport moves.
#[derive(Clone, Copy, Debug, PartialEq, Eq, Structural)]
pub enum MoveDirection {
    Left,
    Down,
    Up,
    Right,
}

/// Zero-based position of a cell.
#[derive(Clone, Copy, Debug, PartialEq, Eq, Structural)]
pub struct CellLocation {
    pub row: usize,
    pub col: usize,
}

/// Signed offset between two cells: `x` runs along the columns, `y` along
/// the rows.
#[derive(Clone, Copy, Debug, PartialEq, Eq, Structural)]
pub struct CellLocationDelta {
    pub x: isize,
    pub y: isize,
}

/// `v` brought into the range of `usize`.
pub open spec fn clamp_index(v: int) -> usize {
    if v < 0 {
        0usize
    } else if v > usize::MAX {
        usize::MAX
    } else {
        v as usize
    }
}

/// `v` brought into the range of `isize`.
pub open spec fn clamp_offset(v: int) -> isize {
    if v < isize::MIN {
        isize::MIN
    } else if v > isize::MAX {
        isize::MAX
    } else {
        v as isize
    }
}

/// The index `v + d`, saturated.
fn shift_forward(v: usize, d: isize) -> (r: usize)
    ensures
        r == clamp_index(v + d),
{
    if d < 0 {
        let back: usize = (-(d + 1)) as usize + 1;
        v.saturating_sub(back)
    } else {
        v.saturating_add(d as usize)
    }
}

/// The index `v - d`, saturated.
fn shift_backward(v: usize, d: isize) -> (r: usize)
    ensures
        r == clamp_index(v - d),
{
    if d < 0 {
        let forth: usize = (-(d + 1)) as usize + 1;
        v.saturating_add(forth)
    } else {
        v.saturating_sub(d as usize)
    }
}

/// The offset `a + b`, saturated.
fn offset_sum(a: isize, b: isize) -> (r: isize)
    ensures
        r == clamp_offset(a + b),
{
    if b >= 0 {
        if a > isize::MAX - b {
            isize::MAX
        } else {
            a + b
        }
    } else {
        if a < isize::MIN - b {
            isize::MIN
        } else {
            a + b
        }
    }
}

/// The offset `a - b`, saturated.
fn offset_difference(a: isize, b: isize) -> (r: isize)
    ensures
        r == clamp_offset(a - b),
{
    if b >= 0 {
        if a < isize::MIN + b {
            isize::MIN
        } else {
            a - b
        }
    } else {
        if a > isize::MAX + b {
            isize::MAX
        } else {
            a - b
        }
    }
}

impl Default for CellLocation {
    fn default() -> (r: CellLocation)
        ensures
            r == (CellLocation { row: 0, col: 0 }),
    {
        CellLocation { row: 0, col: 0 }
    }
}

impl Default for CellLocationDelta {
    fn default() -> (r: CellLocationDelta)
        ensures
            r == (CellLocationDelta { x: 0, y: 0 }),
    {
        CellLocationDelta { x: 0, y: 0 }
    }
}

impl CellLocation {
    /// The location moved by `d`, each axis saturated on its own.
    pub open spec fn plus(self, d: CellLocationDelta) -> CellLocation {
        CellLocation { row: clamp_index(self.row + d.y), col: clamp_index(self.col + d.x) }
    }

    /// The location moved against `d`, each axis saturated on its own.
    pub open spec fn minus(self, d: CellLocationDelta) -> CellLocation {
        CellLocation { row: clamp_index(self.row - d.y), col: clamp_index(self.col - d.x) }
    }

    /// Number of columns spanned by `self` and `opposite`, both included.
    pub fn get_column_count(self, opposite: CellLocation) -> (n: usize)
        requires
            vstd::math::abs(self.col - opposite.col) < usize::MAX,
        ensures
            n == vstd::math::abs(self.col - opposite.col) + 1,
    {
        if self.col < opposite.col {
            opposite.col - self.col + 1
        } else {
            self.col - opposite.col + 1
        }
    }

    /// Moves the location by `rhs` in place.
    pub fn add_assign(&mut self, rhs: CellLocationDelta)
        ensures
            *final(self) == old(self).plus(rhs),
    {
        self.col = shift_forward(self.col, rhs.x);
        self.row = shift_forward(self.row, rhs.y);
    }

    /// Moves the location against `rhs` in place.
    pub fn sub_assign(&mut self, rhs: CellLocationDelta)
        ensures
            *final(self) == old(self).minus(rhs),
    {
        self.col = shift_backward(self.col, rhs.x);
        self.row = shift_backward(self.row, rhs.y);
    }
}

impl CellLocationDelta {
    /// The offset of `n` steps in `direction`.
    pub open spec fn spec_from_direction(direction: MoveDirection, n: usize) -> CellLocationDelta {
        match direction {
            MoveDirection::Left => CellLocationDelta { x: (-(n as int)) as isize, y: 0 },
            MoveDirection::Down => CellLocationDelta { x: 0, y: n as isize },
            MoveDirection::Up => CellLocationDelta { x: 0, y: (-(n as int)) as isize },
            MoveDirection::Right => CellLocationDelta { x: n as isize, y: 0 },
        }
    }

    /// The offset of `n` steps in `direction`. The count has to fit in a
    /// signed offset.
    pub fn from_direction(direction: MoveDirection, n: usize) -> (d: CellLocationDelta)
        requires
            n <= isize::MAX,
        ensures
            d == Self::spec_from_direction(direction, n),
    {
        let n: isize = n as isize;
        match direction {
            MoveDirection::Left => CellLocationDelta { x: -n, y: 0 },
            MoveDirection::Down => CellLocationDelta { x: 0, y: n },
            MoveDirection::Up => CellLocationDelta { x: 0, y: -n },
            MoveDirection::Right => CellLocationDelta { x: n, y: 0 },
        }
    }
}

impl core::ops::Add<CellLocation> for CellLocation {
    type Output = CellLocation;

    /// Adds the two locations axis by axis, saturating at the largest index.
    fn add(self, rhs: CellLocation) -> CellLocation {
        CellLocation { row: self.row.saturating_add(rhs.row), col: self.col.saturating_add(rhs.col) }
    }
}

impl AddSpecImpl<CellLocation> for CellLocation {
    open spec fn obeys_add_spec() -> bool {
        true
    }

    open spec fn add_req(self, rhs: CellLocation) -> bool {
        true
    }

    open spec fn add_spec(self, rhs: CellLocation) -> CellLocation {
        CellLocation { row: clamp_index(self.row + rhs.row), col: clamp_index(self.col + rhs.col) }
    }
}

impl core::ops::Sub<CellLocation> for CellLocation {
    type Output = CellLocation;

    /// Subtracts the two locations axis by axis, saturating at zero.
    fn sub(self, rhs: CellLocation) -> CellLocation {
        CellLocation { row: self.row.saturating_sub(rhs.row), col: self.col.saturating_sub(rhs.col) }
    }
}

impl SubSpecImpl<CellLocation> for CellLocation {
    open spec fn obeys_sub_spec() -> bool {
        true
    }

    open spec fn sub_req(self, rhs: CellLocation) -> bool {
        true
    }

    open spec fn sub_spec(self, rhs: CellLocation) -> CellLocation {
        CellLocation { row: clamp_index(self.row - rhs.row), col: clamp_index(self.col - rhs.col) }
    }
}

impl core::ops::Add<CellLocationDelta> for CellLocation {
    type Output = CellLocation;

    /// Moves the location by `rhs`.
    fn add(self, rhs: CellLocationDelta) -> CellLocation {
        CellLocation { row: shift_forward(self.row, rhs.y), col: shift_forward(self.col, rhs.x) }
    }
}

impl AddSpecImpl<CellLocationDelta> for CellLocation {
    open spec fn obeys_add_spec() -> bool {
        true
    }

    open spec fn add_req(self, rhs: CellLocationDelta) -> bool {
        true
    }

    open spec fn add_spec(self, rhs: CellLocationDelta) -> CellLocation {
        self.plus(rhs)
    }
}

impl core::ops::Sub<CellLocationDelta> for CellLocation {
    type Output = CellLocation;

    /// Moves the location against `rhs`.
    fn sub(self, rhs: CellLocationDelta) -> CellLocation {
        CellLocation { row: shift_backward(self.row, rhs.y), col: shift_backward(self.col, rhs.x) }
    }
}

impl SubSpecImpl<CellLocationDelta> for CellLocation {
    open spec fn obeys_sub_spec() -> bool {
        true
    }

    open spec fn sub_req(self, rhs: CellLocationDelta) -> bool {
        true
    }

    open spec fn sub_spec(self, rhs: CellLocationDelta) -> CellLocation {
        self.minus(rhs)
    }
}

impl core::ops::Add<CellLocationDelta> for CellLocationDelta {
    type Output = CellLocationDelta;

    /// Adds the two offsets axis by axis, saturating at both ends.
    fn add(self, rhs: CellLocationDelta) -> CellLocationDelta {
        CellLocationDelta { x: offset_sum(self.x, rhs.x), y: offset_sum(self.y, rhs.y) }
    }
}

impl AddSpecImpl<CellLocationDelta> for CellLocationDelta {
    open spec fn obeys_add_spec() -> bool {
        true
    }

    open spec fn add_req(self, rhs: CellLocationDelta) -> bool {
        true
    }

    open spec fn add_spec(self, rhs: CellLocationDelta) -> CellLocationDelta {
        CellLocationDelta { x: clamp_offset(self.x + rhs.x), y: clamp_offset(self.y + rhs.y) }
    }
}

impl core::ops::Sub<CellLocationDelta> for CellLocationDelta {
    type Output = CellLocationDelta;

    /// Subtracts the two offsets axis by axis, saturating at both ends.
    fn sub(self, rhs: CellLocationDelta) -> CellLocationDelta {
        CellLocationDelta { x: offset_difference(self.x, rhs.x), y: offset_difference(self.y, rhs.y) }
    }
}

impl SubSpecImpl<CellLocationDelta> for CellLocationDelta {
    open spec fn obeys_sub_spec() -> bool {
        true
    }

    open spec fn sub_req(self, rhs: CellLocationDelta) -> bool {
        true
    }

    open spec fn sub_spec(self, rhs: CellLocationDelta) -> CellLocationDelta {
        CellLocationDelta { x: clamp_offset(self.x - rhs.x), y: clamp_offset(self.y - rhs.y) }
    }
}

/// Moving a location by an offset and back again gives the location, as
/// long as the move forward stays inside the range of indices on both axes.
pub proof fn lemma_move_there_and_back(l: CellLocation, d: CellLocationDelta)
    requires
        0 <= l.row + d.y <= usize::MAX,
        0 <= l.col + d.x <= usize::MAX,
    ensures
        l.plus(d).minus(d) == l,
{
}

/// Moving a location against an offset and forth again gives the location,
/// as long as the move back stays inside the range of indices on both axes.
pub proof fn lemma_move_back_and_there(l: CellLocation, d: CellLocationDelta)
    requires
        0 <= l.row - d.y <= usize::MAX,
        0 <= l.col - d.x <= usize::MAX,
    ensures
        l.minus(d).plus(d) == l,
{
}

} // verus!
