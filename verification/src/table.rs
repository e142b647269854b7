//! The sparse table: rows of optional text cells that may differ in length.
//! A cell without text and a cell with empty text are the same thing, and
//! the table stores neither.

use crate::codec::{
    csv_bytes, csv_error_text, csv_records, delimiter_or_default, read_records, record_texts,
    spec_delimiter_or_default, write_records, LoadError, Records, SaveError,
};
use crate::digest::{feed_delimiter, feed_index, feed_text, finish_hasher, new_hasher};
use crate::location::CellLocation;
use crate::rect::{lemma_row_major_split, row_major, CellRect};
use vstd::prelude::*;

verus! {

/// What a cell holds: its text, or nothing.
pub type Text = Option<Seq<char>>;

/// A table as a value: its rows, each a sequence of cells.
pub type Grid = Seq<Seq<Option<Seq<char>>>>;

/// The text of an owned cell value.
pub open spec fn text_of(v: Option<String>) -> Text {
    match v {
        Some(s) => Some(s@),
        None => None,
    }
}

/// The text of a borrowed cell value.
pub open spec fn text_of_str(v: Option<&str>) -> Text {
    match v {
        Some(s) => Some(s@),
        None => None,
    }
}

/// The texts of a list of owned cell values.
pub open spec fn texts_of(cells: Seq<Option<String>>) -> Seq<Text> {
    Seq::new(cells.len(), |i: int| text_of(cells[i]))
}

/// The texts of a list of borrowed cell values.
pub open spec fn texts_of_strs(cells: Seq<Option<&str>>) -> Seq<Text> {
    Seq::new(cells.len(), |i: int| text_of_str(cells[i]))
}

/// The grid that a list of stored rows stands for.
pub open spec fn grid_of(rows: Seq<Vec<Option<String>>>) -> Grid {
    Seq::new(rows.len(), |r: int| texts_of(rows[r]@))
}

/// What is kept of a value that is written to a cell: empty text is kept as
/// no text.
pub open spec fn stored(v: Text) -> Text {
    match v {
        Some(s) => if s.len() == 0 {
            None
        } else {
            Some(s)
        },
        None => None,
    }
}

/// What the grid holds at a location: the cell there, and nothing outside
/// the rows and beyond the end of a row.
pub open spec fn cell_at(g: Grid, row: int, col: int) -> Text {
    if 0 <= row < g.len() && 0 <= col < g[row].len() {
        g[row][col]
    } else {
        None
    }
}

/// The two grids read the same at every location.
pub open spec fn same_cells(a: Grid, b: Grid) -> bool {
    forall|r: int, c: int| cell_at(a, r, c) == cell_at(b, r, c)
}

/// Whether the grid holds text at a location.
pub open spec fn has_text(g: Grid, row: int, col: int) -> bool {
    cell_at(g, row, col) is Some
}

/// The row at an index, or an empty row beyond the last one.
pub open spec fn row_or_empty(g: Grid, row: int) -> Seq<Text> {
    if 0 <= row < g.len() {
        g[row]
    } else {
        Seq::empty()
    }
}

/// No cell of the grid holds empty text.
pub open spec fn no_empty_text(g: Grid) -> bool {
    forall|r: int, c: int|
        0 <= r < g.len() && 0 <= c < g[r].len() ==> (#[trigger] g[r][c]) != Some(Seq::<char>::empty())
}

/// The row, lengthened with cells without text to `width` cells if it was
/// shorter.
pub open spec fn widen(row: Seq<Text>, width: int) -> Seq<Text> {
    if row.len() >= width {
        row
    } else {
        row + Seq::new((width - row.len()) as nat, |i: int| None::<Seq<char>>)
    }
}

/// The grid, lengthened with empty rows to `height` rows if it was shorter.
pub open spec fn heighten(g: Grid, height: int) -> Grid {
    if g.len() >= height {
        g
    } else {
        g + Seq::new((height - g.len()) as nat, |i: int| Seq::<Text>::empty())
    }
}

/// The grid after one cell is written: it grows by just the rows, and the
/// row by just the cells, that make the location exist.
pub open spec fn grid_set(g: Grid, row: int, col: int, v: Text) -> Grid {
    let h = heighten(g, row + 1);
    h.update(row, widen(h[row], col + 1).update(col, stored(v)))
}

/// The cells of a rectangle, row by row; what lies outside the grid reads
/// as no text.
pub open spec fn grid_rect(g: Grid, rect: CellRect) -> Seq<Text> {
    Seq::new(
        rect.cell_count() as nat,
        |i: int|
            cell_at(
                g,
                rect.top_left_cell_location.row + i / (rect.col_count as int),
                rect.top_left_cell_location.col + i % (rect.col_count as int),
            ),
    )
}

/// The grid after a rectangle is written from a row-major list of values.
/// The grid grows to the rectangle's last row, and each row that the
/// rectangle crosses to its last column; rows above the rectangle keep their
/// length.
pub open spec fn grid_set_rect(g: Grid, rect: CellRect, values: Seq<Text>) -> Grid {
    let top = rect.top_left_cell_location.row as int;
    let left = rect.top_left_cell_location.col as int;
    let height = if g.len() >= top + rect.row_count {
        g.len()
    } else {
        (top + rect.row_count) as nat
    };
    Seq::new(
        height,
        |r: int|
            if top <= r < top + rect.row_count {
                let w = widen(row_or_empty(g, r), left + rect.col_count);
                Seq::new(
                    w.len(),
                    |c: int|
                        if left <= c < left + rect.col_count {
                            stored(values[row_major(r - top, c - left, rect.col_count as int)])
                        } else {
                            w[c]
                        },
                )
            } else {
                row_or_empty(g, r)
            },
    )
}

/// A sparse table of text cells, with the delimiter it is read and written
/// with.
#[derive(Clone, Debug)]
pub struct CsvTable {
    pub delimiter: Option<u8>,
    rows: Vec<Vec<Option<String>>>,
}

impl View for CsvTable {
    type V = Grid;

    closed spec fn view(&self) -> Grid {
        grid_of(self.rows@)
    }
}

/// The grid of a list of rows has the shape of the list.
proof fn lemma_grid_shape(rows: Seq<Vec<Option<String>>>)
    ensures
        grid_of(rows).len() == rows.len(),
        forall|r: int| 0 <= r < rows.len() ==> (#[trigger] grid_of(rows)[r]).len() == rows[r]@.len(),
{
}

/// Lengthens the list of rows with empty rows until it has `height` rows.
fn grow_rows(rows: &mut Vec<Vec<Option<String>>>, height: usize)
    ensures
        grid_of(final(rows)@) == heighten(grid_of(old(rows)@), height as int),
{
    while rows.len() < height
        invariant
            rows@.len() >= old(rows)@.len(),
            rows@.len() <= height || rows@.len() == old(rows)@.len(),
            grid_of(rows@) == heighten(grid_of(old(rows)@), rows@.len() as int),
        decreases height - rows.len(),
    {
        let ghost before = grid_of(rows@);
        rows.push(Vec::new());
        assert(grid_of(rows@) =~~= before.push(Seq::<Text>::empty()));
        assert(grid_of(rows@) =~~= heighten(grid_of(old(rows)@), rows@.len() as int));
    }
}

/// Lengthens the row with cells without text until it has `width` cells.
fn grow_row(row: &mut Vec<Option<String>>, width: usize)
    ensures
        texts_of(final(row)@) == widen(texts_of(old(row)@), width as int),
{
    while row.len() < width
        invariant
            row@.len() >= old(row)@.len(),
            row@.len() <= width || row@.len() == old(row)@.len(),
            texts_of(row@) == widen(texts_of(old(row)@), row@.len() as int),
        decreases width - row.len(),
    {
        let ghost before = texts_of(row@);
        row.push(None);
        assert(texts_of(row@) =~= before.push(None));
        assert(texts_of(row@) =~= widen(texts_of(old(row)@), row@.len() as int));
    }
}

/// Lengthens one row of the list to `width` cells.
fn grow_row_at(rows: &mut Vec<Vec<Option<String>>>, r: usize, width: usize)
    requires
        r < old(rows)@.len(),
    ensures
        grid_of(final(rows)@) == grid_of(old(rows)@).update(
            r as int,
            widen(grid_of(old(rows)@)[r as int], width as int),
        ),
{
    let line = &mut rows[r];
    grow_row(line, width);
    assert(grid_of(rows@) =~~= grid_of(old(rows)@).update(
        r as int,
        widen(grid_of(old(rows)@)[r as int], width as int),
    ));
}

/// Writes one cell that exists and hands back what it held.
fn put(rows: &mut Vec<Vec<Option<String>>>, r: usize, c: usize, value: Option<String>) -> (previous:
    Option<String>)
    requires
        r < old(rows)@.len(),
        c < old(rows)@[r as int]@.len(),
    ensures
        grid_of(final(rows)@) == grid_of(old(rows)@).update(
            r as int,
            grid_of(old(rows)@)[r as int].update(c as int, stored(text_of(value))),
        ),
        text_of(previous) == grid_of(old(rows)@)[r as int][c as int],
{
    let kept = match value {
        Some(s) => if s.as_str().is_empty() {
            None
        } else {
            Some(s)
        },
        None => None,
    };
    let line = &mut rows[r];
    let previous = line[c].take();
    line[c] = kept;
    assert(grid_of(rows@) =~~= grid_of(old(rows)@).update(
        r as int,
        grid_of(old(rows)@)[r as int].update(c as int, stored(text_of(value))),
    ));
    previous
}

impl Default for CsvTable {
    fn default() -> (table: CsvTable)
        ensures
            table@ == Seq::<Seq<Text>>::empty(),
            table.spec_delimiter() is None,
            table.wf(),
    {
        let table = CsvTable { delimiter: None, rows: Vec::new() };
        assert(table@ =~~= Seq::<Seq<Text>>::empty());
        table
    }
}

impl CsvTable {
    /// The table holds no cell with empty text.
    pub open spec fn wf(&self) -> bool {
        no_empty_text(self@)
    }

    /// The delimiter that the table is read and written with.
    pub closed spec fn spec_delimiter(&self) -> Option<u8> {
        self.delimiter
    }

    /// The delimiter that the table is read and written with, if one was
    /// chosen.
    pub fn delimiter(&self) -> (d: Option<u8>)
        ensures
            d == self.spec_delimiter(),
    {
        self.delimiter
    }

    /// What the table holds at a location.
    pub open spec fn cell(&self, location: CellLocation) -> Text {
        cell_at(self@, location.row as int, location.col as int)
    }

    /// Reads one cell. A location outside the stored rows reads as no text.
    pub fn get(&self, location: CellLocation) -> (text: Option<&str>)
        ensures
            text_of_str(text) == self.cell(location),
    {
        if location.row < self.rows.len() {
            let line = &self.rows[location.row];
            if location.col < line.len() {
                match &line[location.col] {
                    Some(s) => Some(s.as_str()),
                    None => None,
                }
            } else {
                None
            }
        } else {
            None
        }
    }

    /// Writes one cell and hands back what it held. The table grows as far
    /// as the location asks; empty text is written as no text.
    pub fn set(&mut self, location: CellLocation, value: Option<String>) -> (previous: Option<String>)
        requires
            old(self).wf(),
            location.row < usize::MAX,
            location.col < usize::MAX,
        ensures
            final(self).wf(),
            final(self).spec_delimiter() == old(self).spec_delimiter(),
            final(self)@ == grid_set(
                old(self)@,
                location.row as int,
                location.col as int,
                text_of(value),
            ),
            text_of(previous) == old(self).cell(location),
    {
        grow_rows(&mut self.rows, location.row + 1);
        proof {
            lemma_grid_shape(self.rows@);
        }
        grow_row_at(&mut self.rows, location.row, location.col + 1);
        proof {
            lemma_grid_shape(self.rows@);
            assert(grid_of(self.rows@)[location.row as int].len() > location.col);
        }
        let previous = put(&mut self.rows, location.row, location.col, value);
        previous
    }

    /// Clears one cell and hands back what it held.
    pub fn delete(&mut self, cell_location: CellLocation) -> (previous: Option<String>)
        requires
            old(self).wf(),
            cell_location.row < usize::MAX,
            cell_location.col < usize::MAX,
        ensures
            final(self).wf(),
            final(self).spec_delimiter() == old(self).spec_delimiter(),
            final(self)@ == grid_set(
                old(self)@,
                cell_location.row as int,
                cell_location.col as int,
                None,
            ),
            text_of(previous) == old(self).cell(cell_location),
    {
        self.set(cell_location, None)
    }
}


/// The grid while a rectangle is being written: the rectangle's first
/// `wide_rows` rows are lengthened, its first `done_rows` rows are written,
/// and so are the first `done_cols` cells of the row after those.
spec fn rect_progress(
    g: Grid,
    rect: CellRect,
    values: Seq<Text>,
    done_rows: int,
    done_cols: int,
    wide_rows: int,
) -> Grid {
    let top = rect.top_left_cell_location.row as int;
    let left = rect.top_left_cell_location.col as int;
    let height = if g.len() >= top + rect.row_count {
        g.len()
    } else {
        (top + rect.row_count) as nat
    };
    Seq::new(
        height,
        |r: int|
            if top <= r < top + wide_rows {
                let w = widen(row_or_empty(g, r), left + rect.col_count);
                Seq::new(
                    w.len(),
                    |c: int|
                        if left <= c < left + rect.col_count && (r - top < done_rows || (r - top
                            == done_rows && c - left < done_cols)) {
                            stored(values[row_major(r - top, c - left, rect.col_count as int)])
                        } else {
                            w[c]
                        },
                )
            } else {
                row_or_empty(g, r)
            },
    )
}

/// A copy of a list of cell values.
pub(crate) fn clone_cells(cells: &Vec<Option<String>>) -> (copy: Vec<Option<String>>)
    ensures
        copy@ == cells@,
{
    let mut copy: Vec<Option<String>> = Vec::new();
    let mut i: usize = 0;
    while i < cells.len()
        invariant
            i <= cells@.len(),
            copy@ == cells@.subrange(0, i as int),
        decreases cells@.len() - i,
    {
        copy.push(clone_cell(&cells[i]));
        assert(copy@ =~= cells@.subrange(0, i + 1));
        i += 1;
    }
    assert(copy@ =~= cells@);
    copy
}

/// A copy of a cell value.
pub(crate) fn clone_cell(v: &Option<String>) -> (r: Option<String>)
    ensures
        r == *v,
{
    match v {
        Some(s) => Some(s.clone()),
        None => None,
    }
}

impl CsvTable {
    /// Reads the cells of a rectangle, row by row, without changing the
    /// table.
    pub fn get_rect(&self, rect: CellRect) -> (cells: Vec<Option<&str>>)
        requires
            rect.readable(),
        ensures
            texts_of_strs(cells@) == grid_rect(self@, rect),
    {
        let top: usize = rect.top_left_cell_location.row;
        let left: usize = rect.top_left_cell_location.col;
        let mut cells: Vec<Option<&str>> = Vec::new();
        let mut r: usize = 0;
        while r < rect.row_count
            invariant
                rect.readable(),
                top == rect.top_left_cell_location.row,
                left == rect.top_left_cell_location.col,
                r <= rect.row_count,
                cells@.len() == r * rect.col_count,
                forall|i: int|
                    0 <= i < cells@.len() ==> text_of_str(#[trigger] cells@[i]) == cell_at(
                        self@,
                        top + i / (rect.col_count as int),
                        left + i % (rect.col_count as int),
                    ),
            decreases rect.row_count - r,
        {
            let mut c: usize = 0;
            while c < rect.col_count
                invariant
                    rect.readable(),
                    top == rect.top_left_cell_location.row,
                    left == rect.top_left_cell_location.col,
                    r < rect.row_count,
                    c <= rect.col_count,
                    cells@.len() == r * rect.col_count + c,
                    forall|i: int|
                        0 <= i < cells@.len() ==> text_of_str(#[trigger] cells@[i]) == cell_at(
                            self@,
                            top + i / (rect.col_count as int),
                            left + i % (rect.col_count as int),
                        ),
                decreases rect.col_count - c,
            {
                proof {
                    lemma_row_major_split(r as int, c as int, rect.col_count as int);
                }
                let value = self.get(CellLocation { row: top + r, col: left + c });
                cells.push(value);
                c += 1;
            }
            proof {
                assert((r + 1) * rect.col_count == r * rect.col_count + rect.col_count)
                    by (nonlinear_arith);
            }
            r += 1;
        }
        assert(texts_of_strs(cells@) =~= grid_rect(self@, rect));
        cells
    }

    /// Copies the cells of a rectangle, row by row, without changing the
    /// table.
    pub fn get_rect_cloned(&self, rect: CellRect) -> (cells: Vec<Option<String>>)
        requires
            rect.readable(),
        ensures
            texts_of(cells@) == grid_rect(self@, rect),
    {
        let top: usize = rect.top_left_cell_location.row;
        let left: usize = rect.top_left_cell_location.col;
        let mut cells: Vec<Option<String>> = Vec::new();
        let mut r: usize = 0;
        while r < rect.row_count
            invariant
                rect.readable(),
                top == rect.top_left_cell_location.row,
                left == rect.top_left_cell_location.col,
                r <= rect.row_count,
                cells@.len() == r * rect.col_count,
                forall|i: int|
                    0 <= i < cells@.len() ==> text_of(#[trigger] cells@[i]) == cell_at(
                        self@,
                        top + i / (rect.col_count as int),
                        left + i % (rect.col_count as int),
                    ),
            decreases rect.row_count - r,
        {
            let mut c: usize = 0;
            while c < rect.col_count
                invariant
                    rect.readable(),
                    top == rect.top_left_cell_location.row,
                    left == rect.top_left_cell_location.col,
                    r < rect.row_count,
                    c <= rect.col_count,
                    cells@.len() == r * rect.col_count + c,
                    forall|i: int|
                        0 <= i < cells@.len() ==> text_of(#[trigger] cells@[i]) == cell_at(
                            self@,
                            top + i / (rect.col_count as int),
                            left + i % (rect.col_count as int),
                        ),
                decreases rect.col_count - c,
            {
                proof {
                    lemma_row_major_split(r as int, c as int, rect.col_count as int);
                }
                let value = match self.get(CellLocation { row: top + r, col: left + c }) {
                    Some(s) => Some(s.to_owned()),
                    None => None,
                };
                cells.push(value);
                c += 1;
            }
            proof {
                assert((r + 1) * rect.col_count == r * rect.col_count + rect.col_count)
                    by (nonlinear_arith);
            }
            r += 1;
        }
        assert(texts_of(cells@) =~= grid_rect(self@, rect));
        cells
    }

    /// Writes a rectangle from a row-major list of values and hands back
    /// what its cells held, in the same order. The table grows once, before
    /// the first cell is written; values beyond the rectangle's cell count
    /// are not used.
    pub fn set_rect(&mut self, rect: CellRect, new_values: Vec<Option<String>>) -> (previous: Vec<
        Option<String>,
    >)
        requires
            old(self).wf(),
            rect.fits(),
            new_values@.len() >= rect.cell_count(),
        ensures
            final(self).wf(),
            final(self).spec_delimiter() == old(self).spec_delimiter(),
            final(self)@ == grid_set_rect(old(self)@, rect, texts_of(new_values@)),
            texts_of(previous@) == grid_rect(old(self)@, rect),
    {
        let top: usize = rect.top_left_cell_location.row;
        let left: usize = rect.top_left_cell_location.col;
        let ghost g = self@;
        let ghost values = texts_of(new_values@);
        let ghost cols = rect.col_count as int;
        let mut pending = new_values;
        let mut previous: Vec<Option<String>> = Vec::new();
        grow_rows(&mut self.rows, top + rect.row_count);
        assert(grid_of(self.rows@) =~~= rect_progress(g, rect, values, 0, 0, 0));
        let mut k: usize = 0;
        let mut r: usize = 0;
        while r < rect.row_count
            invariant
                rect.fits(),
                top == rect.top_left_cell_location.row,
                left == rect.top_left_cell_location.col,
                cols == rect.col_count,
                r <= rect.row_count,
                no_empty_text(g),
                grid_of(self.rows@) == rect_progress(g, rect, values, r as int, 0, r as int),
                self.delimiter == old(self).delimiter,
                k == r * rect.col_count,
                pending@.len() == new_values@.len(),
                pending@.len() >= rect.row_count * rect.col_count,
                values == texts_of(new_values@),
                forall|i: int| k <= i < pending@.len() ==> pending@[i] == new_values@[i],
                previous@.len() == k,
                forall|i: int|
                    0 <= i < previous@.len() ==> text_of(#[trigger] previous@[i]) == cell_at(
                        g,
                        top + i / cols,
                        left + i % cols,
                    ),
            decreases rect.row_count - r,
        {
            proof {
                lemma_grid_shape(self.rows@);
            }
            grow_row_at(&mut self.rows, top + r, left + rect.col_count);
            assert(grid_of(self.rows@) =~~= rect_progress(g, rect, values, r as int, 0, r + 1));
            let mut c: usize = 0;
            while c < rect.col_count
                invariant
                    rect.fits(),
                    top == rect.top_left_cell_location.row,
                    left == rect.top_left_cell_location.col,
                    cols == rect.col_count,
                    r < rect.row_count,
                    c <= rect.col_count,
                    grid_of(self.rows@) == rect_progress(g, rect, values, r as int, c as int, r + 1),
                    self.delimiter == old(self).delimiter,
                    k == r * rect.col_count + c,
                    pending@.len() == new_values@.len(),
                    pending@.len() >= rect.row_count * rect.col_count,
                    values == texts_of(new_values@),
                    forall|i: int| k <= i < pending@.len() ==> pending@[i] == new_values@[i],
                    previous@.len() == k,
                    forall|i: int|
                        0 <= i < previous@.len() ==> text_of(#[trigger] previous@[i]) == cell_at(
                            g,
                            top + i / cols,
                            left + i % cols,
                        ),
                decreases rect.col_count - c,
            {
                proof {
                    lemma_row_major_split(r as int, c as int, cols);
                    lemma_grid_shape(self.rows@);
                    assert(r * rect.col_count + c < rect.row_count * rect.col_count)
                        by (nonlinear_arith)
                        requires
                            r < rect.row_count,
                            c < rect.col_count,
                    ;
                    assert(grid_of(self.rows@)[top + r].len() > left + c);
                }
                let value = pending[k].take();
                let ghost before = grid_of(self.rows@);
                let held = put(&mut self.rows, top + r, left + c, value);
                proof {
                    assert(text_of(value) == values[row_major(r as int, c as int, cols)]);
                    assert(text_of(held) == cell_at(g, top + r, left + c));
                    assert(grid_of(self.rows@) =~~= rect_progress(
                        g,
                        rect,
                        values,
                        r as int,
                        c + 1,
                        r + 1,
                    ));
                }
                previous.push(held);
                k += 1;
                c += 1;
            }
            proof {
                assert((r + 1) * rect.col_count == r * rect.col_count + rect.col_count)
                    by (nonlinear_arith);
                assert(rect_progress(g, rect, values, r as int, cols, r + 1) =~~= rect_progress(
                    g,
                    rect,
                    values,
                    r + 1,
                    0,
                    r + 1,
                ));
            }
            r += 1;
        }
        proof {
            assert(rect_progress(
                g,
                rect,
                values,
                rect.row_count as int,
                0,
                rect.row_count as int,
            ) =~~= grid_set_rect(g, rect, values));
            assert(texts_of(previous@) =~= grid_rect(g, rect));
        }
        previous
    }

    /// Writes one value to every cell of a rectangle and hands back what the
    /// cells held, row by row.
    pub fn fill_rect(&mut self, rect: CellRect, value: Option<String>) -> (previous: Vec<Option<String>>)
        requires
            old(self).wf(),
            rect.fits(),
        ensures
            final(self).wf(),
            final(self).spec_delimiter() == old(self).spec_delimiter(),
            final(self)@ == grid_set_rect(
                old(self)@,
                rect,
                Seq::new(rect.cell_count() as nat, |i: int| text_of(value)),
            ),
            texts_of(previous@) == grid_rect(old(self)@, rect),
    {
        let count: usize = rect.row_count * rect.col_count;
        let mut values: Vec<Option<String>> = Vec::new();
        while values.len() < count
            invariant
                values@.len() <= count,
                forall|i: int| 0 <= i < values@.len() ==> values@[i] == value,
            decreases count - values.len(),
        {
            values.push(clone_cell(&value));
        }
        assert(texts_of(values@) =~= Seq::new(rect.cell_count() as nat, |i: int| text_of(value)));
        self.set_rect(rect, values)
    }

    /// Clears every cell of a rectangle and hands back what the cells held,
    /// row by row.
    pub fn delete_rect(&mut self, rect: CellRect) -> (previous: Vec<Option<String>>)
        requires
            old(self).wf(),
            rect.fits(),
        ensures
            final(self).wf(),
            final(self).spec_delimiter() == old(self).spec_delimiter(),
            final(self)@ == grid_set_rect(
                old(self)@,
                rect,
                Seq::new(rect.cell_count() as nat, |i: int| None::<Seq<char>>),
            ),
            texts_of(previous@) == grid_rect(old(self)@, rect),
    {
        self.fill_rect(rect, None)
    }

    /// Tells whether no cell of the table holds text.
    pub fn is_empty(&self) -> (empty: bool)
        ensures
            empty == (forall|r: int, c: int| !has_text(self@, r, c)),
    {
        let mut r: usize = 0;
        while r < self.rows.len()
            invariant
                r <= self.rows@.len(),
                forall|i: int, c: int| 0 <= i < r ==> !has_text(self@, i, c),
            decreases self.rows@.len() - r,
        {
            let line = &self.rows[r];
            let mut c: usize = 0;
            while c < line.len()
                invariant
                    r < self.rows@.len(),
                    line == self.rows@[r as int],
                    c <= line@.len(),
                    forall|j: int| 0 <= j < c ==> !has_text(self@, r as int, j),
                decreases line@.len() - c,
            {
                if line[c].is_some() {
                    assert(has_text(self@, r as int, c as int));
                    return false;
                }
                c += 1;
            }
            r += 1;
        }
        true
    }
}


/// `last` is the index of the last row that holds text, or zero where no
/// row does.
pub open spec fn is_last_row(g: Grid, last: int) -> bool {
    &&& 0 <= last
    &&& forall|r: int, c: int| #[trigger] has_text(g, r, c) ==> r <= last
    &&& (last > 0 ==> exists|c: int| has_text(g, last, c))
}

/// `last` is the index of the last column that holds text, or zero where no
/// column does.
pub open spec fn is_last_col(g: Grid, last: int) -> bool {
    &&& 0 <= last
    &&& forall|r: int, c: int| #[trigger] has_text(g, r, c) ==> c <= last
    &&& (last > 0 ==> exists|r: int| has_text(g, r, last))
}

/// Index of the last row that holds text, or zero.
pub open spec fn last_row(g: Grid) -> int {
    choose|last: int| is_last_row(g, last)
}

/// Index of the last column that holds text, or zero.
pub open spec fn last_col(g: Grid) -> int {
    choose|last: int| is_last_col(g, last)
}

/// The row cut or lengthened to exactly `width` cells.
pub open spec fn fitted(row: Seq<Text>, width: int) -> Seq<Text> {
    Seq::new(
        width as nat,
        |c: int|
            if c < row.len() {
                row[c]
            } else {
                None
            },
    )
}

/// The grid cut down to the rows up to the last one with text, each row cut
/// or lengthened to the last column with text.
pub open spec fn normalized(g: Grid) -> Grid {
    let height = if g.len() <= last_row(g) + 1 {
        g.len()
    } else {
        (last_row(g) + 1) as nat
    };
    Seq::new(height, |r: int| fitted(g[r], last_col(g) + 1))
}

/// A grid has at most one last row with text.
pub proof fn lemma_last_row_unique(g: Grid, a: int, b: int)
    requires
        is_last_row(g, a),
        is_last_row(g, b),
    ensures
        a == b,
{
    if a < b {
        let c = choose|c: int| has_text(g, b, c);
        assert(has_text(g, b, c));
    }
    if b < a {
        let c = choose|c: int| has_text(g, a, c);
        assert(has_text(g, a, c));
    }
}

/// A grid has at most one last column with text.
pub proof fn lemma_last_col_unique(g: Grid, a: int, b: int)
    requires
        is_last_col(g, a),
        is_last_col(g, b),
    ensures
        a == b,
{
    if a < b {
        let r = choose|r: int| has_text(g, r, b);
        assert(has_text(g, r, b));
    }
    if b < a {
        let r = choose|r: int| has_text(g, r, a);
        assert(has_text(g, r, a));
    }
}

/// Cuts or lengthens one row of the list to exactly `width` cells.
fn fit_row_at(rows: &mut Vec<Vec<Option<String>>>, r: usize, width: usize)
    requires
        r < old(rows)@.len(),
    ensures
        grid_of(final(rows)@) == grid_of(old(rows)@).update(
            r as int,
            fitted(grid_of(old(rows)@)[r as int], width as int),
        ),
{
    let line = &mut rows[r];
    let ghost before = texts_of(line@);
    line.truncate(width);
    assert(texts_of(line@) =~= if width <= before.len() {
        before.subrange(0, width as int)
    } else {
        before
    });
    grow_row(line, width);
    assert(texts_of(line@) =~= fitted(before, width as int));
    assert(grid_of(rows@) =~~= grid_of(old(rows)@).update(
        r as int,
        fitted(grid_of(old(rows)@)[r as int], width as int),
    ));
}

impl CsvTable {
    /// Trims the table to the rectangle that holds its text: rows after the
    /// last one with text go, and every row left is cut or lengthened to the
    /// last column with text. No location reads differently afterwards.
    pub fn normalize(&mut self)
        requires
            old(self).wf(),
        ensures
            final(self).wf(),
            final(self).spec_delimiter() == old(self).spec_delimiter(),
            final(self)@ == normalized(old(self)@),
            forall|r: int, c: int| cell_at(final(self)@, r, c) == cell_at(old(self)@, r, c),
    {
        let ghost g = self@;
        let mut bottom: usize = 0;
        let mut right: usize = 0;
        let mut r: usize = 0;
        while r < self.rows.len()
            invariant
                r <= self.rows@.len(),
                grid_of(self.rows@) == g,
                self.delimiter == old(self).delimiter,
                bottom == 0 || bottom < self.rows@.len(),
                right < usize::MAX,
                forall|i: int, c: int|
                    0 <= i < r && #[trigger] has_text(g, i, c) ==> i <= bottom && c <= right,
                bottom > 0 ==> exists|c: int| has_text(g, bottom as int, c),
                right > 0 ==> exists|i: int| has_text(g, i, right as int),
            decreases self.rows@.len() - r,
        {
            let line = &self.rows[r];
            let mut c: usize = 0;
            while c < line.len()
                invariant
                    r < self.rows@.len(),
                    grid_of(self.rows@) == g,
                    line == self.rows@[r as int],
                    c <= line@.len(),
                    bottom == 0 || bottom < self.rows@.len(),
                    right < usize::MAX,
                    forall|i: int, c: int|
                        0 <= i < r && #[trigger] has_text(g, i, c) ==> i <= bottom && c <= right,
                    forall|j: int|
                        0 <= j < c && #[trigger] has_text(g, r as int, j) ==> r <= bottom && j <= right,
                    bottom > 0 ==> exists|c: int| has_text(g, bottom as int, c),
                    right > 0 ==> exists|i: int| has_text(g, i, right as int),
                decreases line@.len() - c,
            {
                if line[c].is_some() {
                    assert(has_text(g, r as int, c as int));
                    if r > bottom {
                        bottom = r;
                    }
                    if c > right {
                        right = c;
                    }
                }
                c += 1;
            }
            r += 1;
        }
        proof {
            assert(is_last_row(g, bottom as int));
            assert(is_last_col(g, right as int));
            lemma_last_row_unique(g, bottom as int, last_row(g));
            lemma_last_col_unique(g, right as int, last_col(g));
        }
        self.rows.truncate(bottom + 1);
        let ghost cut = grid_of(self.rows@);
        assert(cut =~~= if bottom + 1 <= g.len() {
            g.subrange(0, bottom + 1)
        } else {
            g
        });
        let mut r: usize = 0;
        while r < self.rows.len()
            invariant
                r <= self.rows@.len(),
                right < usize::MAX,
                self.delimiter == old(self).delimiter,
                self.rows@.len() == cut.len(),
                grid_of(self.rows@).len() == cut.len(),
                forall|i: int| 0 <= i < r ==> (#[trigger] grid_of(self.rows@)[i]) == fitted(cut[i], right + 1),
                forall|i: int| r <= i < cut.len() ==> (#[trigger] grid_of(self.rows@)[i]) == cut[i],
            decreases self.rows@.len() - r,
        {
            fit_row_at(&mut self.rows, r, right + 1);
            proof {
                lemma_grid_shape(self.rows@);
            }
            r += 1;
        }
        proof {
            assert(grid_of(self.rows@) =~~= normalized(g));
            assert forall|r: int, c: int| cell_at(self@, r, c) == cell_at(g, r, c) by {
                if has_text(g, r, c) {
                    assert(r <= bottom && c <= right);
                }
            }
        }
    }
}

/// A cell that was written reads as what was kept of the value: no text
/// after a write of no text or of empty text.
pub proof fn lemma_set_then_get(g: Grid, row: int, col: int, v: Text)
    requires
        0 <= row,
        0 <= col,
    ensures
        cell_at(grid_set(g, row, col, v), row, col) == stored(v),
        stored(None) is None,
        stored(Some(Seq::<char>::empty())) is None,
{
}

/// Writing empty text to a cell is the same as clearing it.
pub proof fn lemma_set_empty_clears(g: Grid, row: int, col: int)
    requires
        0 <= row,
        0 <= col,
    ensures
        grid_set(g, row, col, Some(Seq::<char>::empty())) == grid_set(g, row, col, None),
{
}

/// A write to one cell leaves every other location as it read before.
pub proof fn lemma_set_keeps_others(g: Grid, row: int, col: int, v: Text, r: int, c: int)
    requires
        0 <= row,
        0 <= col,
        r != row || c != col,
    ensures
        cell_at(grid_set(g, row, col, v), r, c) == cell_at(g, r, c),
{
}

/// After a rectangle is written, a location inside it reads as what was
/// kept of its value, and a location outside it as before.
pub proof fn lemma_set_rect_cells(g: Grid, rect: CellRect, values: Seq<Text>, r: int, c: int)
    ensures
        cell_at(grid_set_rect(g, rect, values), r, c) == (if rect.top_left_cell_location.row <= r
            < rect.top_left_cell_location.row + rect.row_count && rect.top_left_cell_location.col <= c
            < rect.top_left_cell_location.col + rect.col_count {
            stored(
                values[row_major(
                    r - rect.top_left_cell_location.row,
                    c - rect.top_left_cell_location.col,
                    rect.col_count as int,
                )],
            )
        } else {
            cell_at(g, r, c)
        }),
{
}


/// The cells with text among the cells of row `r`, in their order: the row,
/// the column and the text of each.
pub open spec fn row_entries(row: Seq<Text>, r: int) -> Seq<(int, int, Seq<char>)>
    decreases row.len(),
{
    if row.len() == 0 {
        Seq::empty()
    } else {
        let before = row_entries(row.drop_last(), r);
        match row.last() {
            Some(text) => before.push((r, row.len() - 1, text)),
            None => before,
        }
    }
}

/// The cells with text of a grid, row by row: the row, the column and the
/// text of each.
pub open spec fn grid_entries(g: Grid) -> Seq<(int, int, Seq<char>)>
    decreases g.len(),
{
    if g.len() == 0 {
        Seq::empty()
    } else {
        grid_entries(g.drop_last()) + row_entries(g.last(), g.len() - 1)
    }
}

/// A list of cells with text as values.
pub open spec fn entries_of(list: Seq<(usize, usize, &str)>) -> Seq<(int, int, Seq<char>)> {
    Seq::new(list.len(), |i: int| (list[i].0 as int, list[i].1 as int, list[i].2@))
}

/// The grid that a list of records stands for: each record a row, each
/// field a cell, an empty field a cell without text.
pub open spec fn grid_of_records(records: Records) -> Grid {
    Seq::new(
        records.len(),
        |r: int| Seq::new(records[r].len(), |c: int| stored(Some(records[r][c]))),
    )
}

/// The records that a grid is written as: each row a record, each cell a
/// field, a cell without text an empty field.
pub open spec fn records_of_grid(g: Grid) -> Records {
    Seq::new(
        g.len(),
        |r: int|
            Seq::new(
                g[r].len(),
                |c: int|
                    match g[r][c] {
                        Some(s) => s,
                        None => Seq::<char>::empty(),
                    },
            ),
    )
}

impl CsvTable {
    /// The grid that loading `bytes` gives, or nothing where the text is
    /// rejected.
    pub open spec fn load_outcome(bytes: Seq<u8>, delimiter: Option<u8>) -> Option<Grid> {
        match csv_records(bytes, spec_delimiter_or_default(delimiter)) {
            Some(records) => Some(grid_of_records(records)),
            None => None,
        }
    }

    /// The bytes that a grid is saved as, or nothing where it cannot be
    /// encoded.
    pub open spec fn save_outcome(g: Grid, delimiter: Option<u8>) -> Option<Seq<u8>> {
        csv_bytes(records_of_grid(g), spec_delimiter_or_default(delimiter))
    }

    /// Builds the table that holds the given records.
    pub fn from_records(records: Vec<Vec<String>>, delimiter: Option<u8>) -> (table: CsvTable)
        ensures
            table.wf(),
            table.spec_delimiter() == delimiter,
            table@ == grid_of_records(record_texts(records@)),
    {
        let ghost given = record_texts(records@);
        let mut rows: Vec<Vec<Option<String>>> = Vec::new();
        let mut r: usize = 0;
        while r < records.len()
            invariant
                r <= records@.len(),
                rows@.len() == r,
                given == record_texts(records@),
                forall|i: int|
                    0 <= i < r ==> (#[trigger] grid_of(rows@)[i]) == grid_of_records(given)[i],
            decreases records@.len() - r,
        {
            let record = &records[r];
            let mut line: Vec<Option<String>> = Vec::new();
            let mut c: usize = 0;
            while c < record.len()
                invariant
                    c <= record@.len(),
                    line@.len() == c,
                    forall|j: int|
                        0 <= j < c ==> text_of(#[trigger] line@[j]) == stored(Some(record@[j]@)),
                decreases record@.len() - c,
            {
                let field = &record[c];
                if field.as_str().is_empty() {
                    line.push(None);
                } else {
                    line.push(Some(field.clone()));
                }
                c += 1;
            }
            assert(texts_of(line@) =~= grid_of_records(given)[r as int]);
            let ghost before = grid_of(rows@);
            rows.push(line);
            assert forall|i: int| 0 <= i < r + 1 implies (#[trigger] grid_of(rows@)[i])
                == grid_of_records(given)[i] by {
                if i < r {
                    assert(grid_of(rows@)[i] == before[i]);
                }
            }
            r += 1;
        }
        let table = CsvTable { delimiter, rows };
        assert(table@ =~= grid_of_records(given));
        table
    }

    /// Lists the rows as records: a cell without text becomes an empty
    /// field.
    pub fn to_records(&self) -> (records: Vec<Vec<String>>)
        ensures
            record_texts(records@) == records_of_grid(self@),
    {
        let mut records: Vec<Vec<String>> = Vec::new();
        let mut r: usize = 0;
        while r < self.rows.len()
            invariant
                r <= self.rows@.len(),
                records@.len() == r,
                forall|i: int|
                    0 <= i < r ==> (#[trigger] record_texts(records@)[i]) == records_of_grid(self@)[i],
            decreases self.rows@.len() - r,
        {
            let line = &self.rows[r];
            let mut record: Vec<String> = Vec::new();
            let mut c: usize = 0;
            while c < line.len()
                invariant
                    r < self.rows@.len(),
                    line == self.rows@[r as int],
                    c <= line@.len(),
                    record@.len() == c,
                    forall|j: int|
                        0 <= j < c ==> (#[trigger] record@[j])@ == records_of_grid(self@)[r as int][j],
                decreases line@.len() - c,
            {
                let field = match &line[c] {
                    Some(s) => s.clone(),
                    None => String::new(),
                };
                record.push(field);
                c += 1;
            }
            let ghost before = record_texts(records@);
            records.push(record);
            assert(record_texts(records@)[r as int] =~= records_of_grid(self@)[r as int]);
            assert forall|i: int| 0 <= i < r + 1 implies (#[trigger] record_texts(records@)[i])
                == records_of_grid(self@)[i] by {
                if i < r {
                    assert(record_texts(records@)[i] =~= before[i]);
                }
            }
            r += 1;
        }
        assert(record_texts(records@) =~= records_of_grid(self@));
        records
    }

    /// Reads a table from delimited text. Every record becomes a row and
    /// every empty field a cell without text. The text is rejected exactly
    /// where the reader of the `csv` crate rejects it.
    pub fn load(bytes: &[u8], delimiter: Option<u8>) -> (result: Result<CsvTable, LoadError>)
        ensures
            match result {
                Ok(table) => {
                    &&& table.wf()
                    &&& table.spec_delimiter() == delimiter
                    &&& Self::load_outcome(bytes@, delimiter) == Some(table@)
                },
                Err(e) => e is MalformedRecord && Self::load_outcome(bytes@, delimiter) is None,
            },
    {
        match read_records(bytes, delimiter_or_default(delimiter)) {
            Ok(records) => Ok(CsvTable::from_records(records, delimiter)),
            Err(e) => Err(LoadError::MalformedRecord(csv_error_text(&e))),
        }
    }

    /// Normalizes the table, then encodes it as delimited text. The table is
    /// normalized whether or not the encoding succeeds; the encoding fails
    /// exactly where the writer of the `csv` crate fails.
    pub fn normalize_and_save(&mut self) -> (result: Result<Vec<u8>, SaveError>)
        requires
            old(self).wf(),
        ensures
            final(self).wf(),
            final(self).spec_delimiter() == old(self).spec_delimiter(),
            final(self)@ == normalized(old(self)@),
            match result {
                Ok(bytes) => Self::save_outcome(final(self)@, final(self).spec_delimiter()) == Some(
                    bytes@,
                ),
                Err(e) => e is Write && Self::save_outcome(
                    final(self)@,
                    final(self).spec_delimiter(),
                ) is None,
            },
    {
        self.normalize();
        let records = self.to_records();
        match write_records(&records, delimiter_or_default(self.delimiter)) {
            Ok(bytes) => Ok(bytes),
            Err(e) => Err(SaveError::Write(csv_error_text(&e))),
        }
    }

    /// Lists the cells with text, row by row: the row, the column and the
    /// text of each.
    pub fn entries(&self) -> (list: Vec<(usize, usize, &str)>)
        ensures
            entries_of(list@) == grid_entries(self@),
    {
        let mut list: Vec<(usize, usize, &str)> = Vec::new();
        let mut r: usize = 0;
        assert(self@.subrange(0, 0) =~= Seq::<Seq<Text>>::empty());
        while r < self.rows.len()
            invariant
                r <= self.rows@.len(),
                entries_of(list@) == grid_entries(self@.subrange(0, r as int)),
            decreases self.rows@.len() - r,
        {
            let line = &self.rows[r];
            let ghost done = entries_of(list@);
            let ghost cells = self@[r as int];
            let mut c: usize = 0;
            assert(cells.subrange(0, 0) =~= Seq::<Text>::empty());
            while c < line.len()
                invariant
                    r < self.rows@.len(),
                    line == self.rows@[r as int],
                    cells == self@[r as int],
                    c <= line@.len(),
                    entries_of(list@) == done + row_entries(cells.subrange(0, c as int), r as int),
                decreases line@.len() - c,
            {
                let ghost before = entries_of(list@);
                assert(cells.subrange(0, c + 1).drop_last() =~= cells.subrange(0, c as int));
                match &line[c] {
                    Some(value) => {
                        list.push((r, c, value.as_str()));
                        assert(entries_of(list@) =~= before.push((r as int, c as int, value@)));
                        assert(entries_of(list@) =~= done + row_entries(
                            cells.subrange(0, c + 1),
                            r as int,
                        ));
                    },
                    None => {},
                }
                c += 1;
            }
            assert(cells.subrange(0, c as int) =~= cells);
            assert(self@.subrange(0, r + 1).drop_last() =~= self@.subrange(0, r as int));
            r += 1;
        }
        assert(self@.subrange(0, r as int) =~= self@);
        list
    }

    /// Hashes the delimiter and then, for every cell with text as `entries`
    /// lists them, its row, its column and its text. The value serves to
    /// compare two states of a table within one run; nothing else is known of
    /// it.
    pub fn content_hash(&self) -> (hash: u64) {
        let mut hasher = new_hasher();
        feed_delimiter(&mut hasher, &self.delimiter);
        let list = self.entries();
        let mut i: usize = 0;
        while i < list.len()
            invariant
                i <= list@.len(),
            decreases list@.len() - i,
        {
            let (row, col, value) = list[i];
            feed_index(&mut hasher, row);
            feed_index(&mut hasher, col);
            feed_text(&mut hasher, value);
            i += 1;
        }
        finish_hasher(&hasher)
    }
}


/// Among the first `n` rows there is a last one with text, or none of them
/// has text.
proof fn lemma_last_row_below(g: Grid, n: int) -> (last: int)
    requires
        0 <= n <= g.len(),
    ensures
        0 <= last,
        last > 0 ==> exists|c: int| has_text(g, last, c),
        forall|r: int, c: int| r < n && #[trigger] has_text(g, r, c) ==> r <= last,
    decreases n,
{
    if n == 0 {
        0
    } else {
        let m = n - 1;
        let before = lemma_last_row_below(g, m);
        if exists|c: int| has_text(g, m, c) {
            m
        } else {
            before
        }
    }
}

/// Among the first `n` cells of a row there is a last one with text, or none
/// of them has text.
proof fn lemma_last_text_in_row(row: Seq<Text>, n: int) -> (last: int)
    requires
        0 <= n <= row.len(),
    ensures
        0 <= last,
        last > 0 ==> last < n && row[last] is Some,
        forall|c: int| 0 <= c < n && (#[trigger] row[c]) is Some ==> c <= last,
    decreases n,
{
    if n == 0 {
        0
    } else {
        let before = lemma_last_text_in_row(row, n - 1);
        if row[n - 1] is Some {
            n - 1
        } else {
            before
        }
    }
}

/// Among the cells of the first `n` rows there is a last column with text,
/// or none of them has text.
proof fn lemma_last_col_below(g: Grid, n: int) -> (last: int)
    requires
        0 <= n <= g.len(),
    ensures
        0 <= last,
        last > 0 ==> exists|r: int| has_text(g, r, last),
        forall|r: int, c: int| r < n && #[trigger] has_text(g, r, c) ==> c <= last,
    decreases n,
{
    if n == 0 {
        0
    } else {
        let before = lemma_last_col_below(g, n - 1);
        let here = lemma_last_text_in_row(g[n - 1], g[n - 1].len() as int);
        if here > before {
            assert(has_text(g, n - 1, here));
            here
        } else {
            before
        }
    }
}

/// Every grid has a last row with text, or no text at all.
pub proof fn lemma_last_row_exists(g: Grid)
    ensures
        is_last_row(g, last_row(g)),
{
    let last = lemma_last_row_below(g, g.len() as int);
    assert(is_last_row(g, last));
}

/// Every grid has a last column with text, or no text at all.
pub proof fn lemma_last_col_exists(g: Grid)
    ensures
        is_last_col(g, last_col(g)),
{
    let last = lemma_last_col_below(g, g.len() as int);
    assert(is_last_col(g, last));
}

/// A normalized grid is as high as the last row with text asks and as wide
/// as the last column with text asks, and reads as the grid at every
/// location.
pub proof fn lemma_normalized_keeps_cells(g: Grid)
    ensures
        normalized(g).len() <= last_row(g) + 1,
        forall|r: int| 0 <= r < normalized(g).len() ==> (#[trigger] normalized(g)[r]).len() == last_col(g) + 1,
        forall|r: int, c: int| cell_at(normalized(g), r, c) == cell_at(g, r, c),
{
    lemma_last_row_exists(g);
    lemma_last_col_exists(g);
    assert forall|r: int, c: int| cell_at(normalized(g), r, c) == cell_at(g, r, c) by {
        if has_text(g, r, c) {
            assert(r <= last_row(g) && c <= last_col(g));
        }
    }
}

/// Normalizing twice gives what normalizing once gives: a normalized grid
/// is left as it is.
pub proof fn lemma_normalized_idempotent(g: Grid)
    ensures
        normalized(normalized(g)) == normalized(g),
{
    let h = normalized(g);
    lemma_last_row_exists(g);
    lemma_last_col_exists(g);
    lemma_last_row_exists(h);
    lemma_last_col_exists(h);
    lemma_normalized_keeps_cells(g);
    assert(is_last_row(h, last_row(g))) by {
        assert forall|r: int, c: int| #[trigger] has_text(h, r, c) implies r <= last_row(g) by {
            assert(has_text(g, r, c));
        }
        if last_row(g) > 0 {
            let c = choose|c: int| has_text(g, last_row(g), c);
            assert(has_text(h, last_row(g), c));
        }
    }
    assert(is_last_col(h, last_col(g))) by {
        assert forall|r: int, c: int| #[trigger] has_text(h, r, c) implies c <= last_col(g) by {
            assert(has_text(g, r, c));
        }
        if last_col(g) > 0 {
            let r = choose|r: int| has_text(g, r, last_col(g));
            assert(has_text(h, r, last_col(g)));
        }
    }
    lemma_last_row_unique(h, last_row(g), last_row(h));
    lemma_last_col_unique(h, last_col(g), last_col(h));
    assert(normalized(h) =~~= h);
}

/// Writing a grid without empty text as records and reading the records
/// back gives the grid.
pub proof fn lemma_records_round_trip(g: Grid)
    requires
        no_empty_text(g),
    ensures
        grid_of_records(records_of_grid(g)) == g,
{
    assert forall|r: int, c: int| 0 <= r < g.len() && 0 <= c < g[r].len() implies stored(
        Some(#[trigger] records_of_grid(g)[r][c]),
    ) == g[r][c] by {
        assert(g[r][c] != Some(Seq::<char>::empty()));
        match g[r][c] {
            Some(s) => {
                if s.len() == 0 {
                    assert(s =~= Seq::<char>::empty());
                }
            },
            None => {},
        }
    }
    assert(grid_of_records(records_of_grid(g)) =~~= g);
}


/// Normalizing a grid without empty text gives such a grid.
pub proof fn lemma_normalized_keeps_form(g: Grid)
    requires
        no_empty_text(g),
    ensures
        no_empty_text(normalized(g)),
{
    let h = normalized(g);
    lemma_last_row_exists(g);
    lemma_last_col_exists(g);
    assert forall|r: int, c: int| 0 <= r < h.len() && 0 <= c < h[r].len() implies (#[trigger] h[r][c])
        != Some(Seq::<char>::empty()) by {
        assert(r < g.len());
        assert(h[r] == fitted(g[r], last_col(g) + 1));
        if c < g[r].len() {
            assert(g[r][c] != Some(Seq::<char>::empty()));
        }
    }
}

/// Normalize, save, load: where the `csv` reader finds in the saved bytes
/// the records that the writer was given, the loaded table reads as the
/// table did before it was normalized, at every location.
pub proof fn lemma_save_then_load(g: Grid, delimiter: Option<u8>, bytes: Seq<u8>)
    requires
        no_empty_text(g),
        CsvTable::save_outcome(normalized(g), delimiter) == Some(bytes),
        csv_records(bytes, spec_delimiter_or_default(delimiter)) == Some(
            records_of_grid(normalized(g)),
        ),
    ensures
        CsvTable::load_outcome(bytes, delimiter) == Some(normalized(g)),
        forall|r: int, c: int|
            cell_at(CsvTable::load_outcome(bytes, delimiter).unwrap(), r, c) == cell_at(g, r, c),
{
    lemma_normalized_keeps_form(g);
    lemma_records_round_trip(normalized(g));
    lemma_normalized_keeps_cells(g);
}


/// What a row holds at a column: the cell there, and nothing beyond its
/// end.
pub open spec fn cell_in(row: Seq<Text>, col: int) -> Text {
    if 0 <= col < row.len() {
        row[col]
    } else {
        None
    }
}

/// Rows that read the same at every column have the same cells with text.
proof fn lemma_row_entries_same(a: Seq<Text>, b: Seq<Text>, r: int)
    requires
        forall|c: int| cell_in(a, c) == cell_in(b, c),
    ensures
        row_entries(a, r) == row_entries(b, r),
    decreases a.len() + b.len(),
{
    if a.len() == 0 && b.len() == 0 {
    } else if a.len() > b.len() {
        let last = a.len() - 1;
        assert(cell_in(a, last) == cell_in(b, last));
        assert forall|c: int| cell_in(a.drop_last(), c) == cell_in(b, c) by {
            assert(cell_in(a, c) == cell_in(b, c));
        }
        lemma_row_entries_same(a.drop_last(), b, r);
    } else if b.len() > a.len() {
        let last = b.len() - 1;
        assert(cell_in(a, last) == cell_in(b, last));
        assert forall|c: int| cell_in(a, c) == cell_in(b.drop_last(), c) by {
            assert(cell_in(a, c) == cell_in(b, c));
        }
        lemma_row_entries_same(a, b.drop_last(), r);
    } else {
        let last = a.len() - 1;
        assert(cell_in(a, last) == cell_in(b, last));
        assert forall|c: int| cell_in(a.drop_last(), c) == cell_in(b.drop_last(), c) by {
            assert(cell_in(a, c) == cell_in(b, c));
        }
        lemma_row_entries_same(a.drop_last(), b.drop_last(), r);
    }
}

/// Grids that read the same at every location have the same cells with
/// text, whatever their shapes: rows and cells without text add nothing to
/// what is hashed.
pub proof fn lemma_entries_follow_cells(a: Grid, b: Grid)
    requires
        same_cells(a, b),
    ensures
        grid_entries(a) == grid_entries(b),
    decreases a.len() + b.len(),
{
    if a.len() == 0 && b.len() == 0 {
    } else if a.len() > b.len() {
        let last = a.len() - 1;
        assert forall|c: int| cell_in(a.last(), c) == cell_in(Seq::<Text>::empty(), c) by {
            assert(cell_at(a, last, c) == cell_at(b, last, c));
        }
        lemma_row_entries_same(a.last(), Seq::<Text>::empty(), last);
        assert forall|r: int, c: int| cell_at(a.drop_last(), r, c) == cell_at(b, r, c) by {
            assert(cell_at(a, r, c) == cell_at(b, r, c));
        }
        lemma_entries_follow_cells(a.drop_last(), b);
        assert(grid_entries(a) =~= grid_entries(a.drop_last()));
    } else if b.len() > a.len() {
        let last = b.len() - 1;
        assert forall|c: int| cell_in(b.last(), c) == cell_in(Seq::<Text>::empty(), c) by {
            assert(cell_at(a, last, c) == cell_at(b, last, c));
        }
        lemma_row_entries_same(b.last(), Seq::<Text>::empty(), last);
        assert forall|r: int, c: int| cell_at(a, r, c) == cell_at(b.drop_last(), r, c) by {
            assert(cell_at(a, r, c) == cell_at(b, r, c));
        }
        lemma_entries_follow_cells(a, b.drop_last());
        assert(grid_entries(b) =~= grid_entries(b.drop_last()));
    } else {
        let last = a.len() - 1;
        assert forall|c: int| cell_in(a.last(), c) == cell_in(b.last(), c) by {
            assert(cell_at(a, last, c) == cell_at(b, last, c));
        }
        lemma_row_entries_same(a.last(), b.last(), last);
        assert forall|r: int, c: int| cell_at(a.drop_last(), r, c) == cell_at(b.drop_last(), r, c) by {
            assert(cell_at(a, r, c) == cell_at(b, r, c));
        }
        lemma_entries_follow_cells(a.drop_last(), b.drop_last());
    }
}

} // verus!
