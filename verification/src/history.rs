//! Undo and redo of table edits: what an action records, how the table
//! applies it, and the action that it hands back.

use crate::location::CellLocation;
use crate::rect::{lemma_row_major_bounds, lemma_row_major_split, row_major, CellRect};
use crate::table::{
    cell_at, grid_rect, grid_set, grid_set_rect, lemma_set_keeps_others, lemma_set_rect_cells,
    lemma_set_then_get, no_empty_text, same_cells, stored, text_of, texts_of, CsvTable, Grid, Text,
};
use crate::undo::{UndoStack, Undoee};
use vstd::prelude::*;

verus! {

/// Whether the change that an undo action takes back was an edit or a
/// deletion.
#[derive(Clone, Copy, Debug, PartialEq, Eq, Structural)]
pub enum UndoChangeCellMode {
    Edit,
    Delete,
}

/// A change that can be taken back: the cells it touched and what they held
/// before.
#[derive(Debug, Clone)]
pub enum UndoAction {
    ChangeCells { mode: UndoChangeCellMode, rect: CellRect, from_values: Vec<Option<String>> },
    ChangeCell { mode: UndoChangeCellMode, cell_location: CellLocation, from_value: Option<String> },
}

/// A change that can be made again.
#[derive(Debug, Clone)]
pub enum RedoAction {
    EditCells { rect: CellRect, to_values: Vec<Option<String>> },
    EditCell { cell_location: CellLocation, to_value: Option<String> },
    DeleteCells { rect: CellRect },
    DeleteCell { cell_location: CellLocation },
}

/// An undo action as a value.
pub enum UndoStep {
    Cells { mode: UndoChangeCellMode, rect: CellRect, values: Seq<Text> },
    Cell { mode: UndoChangeCellMode, location: CellLocation, value: Text },
}

/// A redo action as a value.
pub enum RedoStep {
    EditCells { rect: CellRect, values: Seq<Text> },
    EditCell { location: CellLocation, value: Text },
    DeleteCells { rect: CellRect },
    DeleteCell { location: CellLocation },
}

impl View for UndoAction {
    type V = UndoStep;

    open spec fn view(&self) -> UndoStep {
        match *self {
            UndoAction::ChangeCells { mode, rect, from_values } => UndoStep::Cells {
                mode,
                rect,
                values: texts_of(from_values@),
            },
            UndoAction::ChangeCell { mode, cell_location, from_value } => UndoStep::Cell {
                mode,
                location: cell_location,
                value: text_of(from_value),
            },
        }
    }
}

impl View for RedoAction {
    type V = RedoStep;

    open spec fn view(&self) -> RedoStep {
        match *self {
            RedoAction::EditCells { rect, to_values } => RedoStep::EditCells {
                rect,
                values: texts_of(to_values@),
            },
            RedoAction::EditCell { cell_location, to_value } => RedoStep::EditCell {
                location: cell_location,
                value: text_of(to_value),
            },
            RedoAction::DeleteCells { rect } => RedoStep::DeleteCells { rect },
            RedoAction::DeleteCell { cell_location } => RedoStep::DeleteCell { location: cell_location },
        }
    }
}

/// A list of `n` cells without text.
pub open spec fn blanks(n: int) -> Seq<Text> {
    Seq::new(n as nat, |i: int| None::<Seq<char>>)
}

/// The undo action names cells that a table can hold, and brings a value
/// for each.
pub open spec fn undo_step_valid(a: UndoStep) -> bool {
    match a {
        UndoStep::Cells { mode, rect, values } => rect.fits() && values.len() >= rect.cell_count(),
        UndoStep::Cell { mode, location, value } => location.row < usize::MAX && location.col
            < usize::MAX,
    }
}

/// The redo action names cells that a table can hold, and brings a value
/// for each.
pub open spec fn redo_step_valid(a: RedoStep) -> bool {
    match a {
        RedoStep::EditCells { rect, values } => rect.fits() && values.len() >= rect.cell_count(),
        RedoStep::EditCell { location, value } => location.row < usize::MAX && location.col
            < usize::MAX,
        RedoStep::DeleteCells { rect } => rect.fits(),
        RedoStep::DeleteCell { location } => location.row < usize::MAX && location.col < usize::MAX,
    }
}

/// The grid after an undo action, and the redo action that it hands back.
/// The cells get the recorded values. Redo restores what they held, or
/// clears them where the change taken back was a deletion.
pub open spec fn undo_step(g: Grid, a: UndoStep) -> (Grid, RedoStep) {
    match a {
        UndoStep::Cells { mode, rect, values } => (
            grid_set_rect(g, rect, values),
            if mode == UndoChangeCellMode::Delete {
                RedoStep::DeleteCells { rect }
            } else {
                RedoStep::EditCells { rect, values: grid_rect(g, rect) }
            },
        ),
        UndoStep::Cell { mode, location, value } => (
            grid_set(g, location.row as int, location.col as int, value),
            if mode == UndoChangeCellMode::Delete {
                RedoStep::DeleteCell { location }
            } else {
                RedoStep::EditCell {
                    location,
                    value: cell_at(g, location.row as int, location.col as int),
                }
            },
        ),
    }
}

/// The grid after a redo action, and the undo action that it hands back:
/// it restores what the cells held, and records whether the change made
/// again was an edit or a deletion.
pub open spec fn redo_step(g: Grid, a: RedoStep) -> (Grid, UndoStep) {
    match a {
        RedoStep::EditCells { rect, values } => (
            grid_set_rect(g, rect, values),
            UndoStep::Cells { mode: UndoChangeCellMode::Edit, rect, values: grid_rect(g, rect) },
        ),
        RedoStep::EditCell { location, value } => (
            grid_set(g, location.row as int, location.col as int, value),
            UndoStep::Cell {
                mode: UndoChangeCellMode::Edit,
                location,
                value: cell_at(g, location.row as int, location.col as int),
            },
        ),
        RedoStep::DeleteCells { rect } => (
            grid_set_rect(g, rect, blanks(rect.cell_count())),
            UndoStep::Cells { mode: UndoChangeCellMode::Delete, rect, values: grid_rect(g, rect) },
        ),
        RedoStep::DeleteCell { location } => (
            grid_set(g, location.row as int, location.col as int, None),
            UndoStep::Cell {
                mode: UndoChangeCellMode::Delete,
                location,
                value: cell_at(g, location.row as int, location.col as int),
            },
        ),
    }
}

impl Undoee for CsvTable {
    type UndoAction = UndoAction;

    type RedoAction = RedoAction;

    open spec fn valid(&self) -> bool {
        self.wf()
    }

    open spec fn undo_valid(action: UndoAction) -> bool {
        undo_step_valid(action@)
    }

    open spec fn redo_valid(action: RedoAction) -> bool {
        redo_step_valid(action@)
    }

    open spec fn undone(&self, action: UndoAction, after: &Self, redo: RedoAction) -> bool {
        &&& (after@, redo@) == undo_step(self@, action@)
        &&& after.spec_delimiter() == self.spec_delimiter()
    }

    open spec fn redone(&self, action: RedoAction, after: &Self, undo: UndoAction) -> bool {
        &&& (after@, undo@) == redo_step(self@, action@)
        &&& after.spec_delimiter() == self.spec_delimiter()
    }

    fn undo(&mut self, action: UndoAction) -> (redo: RedoAction) {
        match action {
            UndoAction::ChangeCells { mode, rect, from_values } => {
                let to_values = self.set_rect(rect, from_values);
                match mode {
                    UndoChangeCellMode::Delete => RedoAction::DeleteCells { rect },
                    UndoChangeCellMode::Edit => RedoAction::EditCells { rect, to_values },
                }
            },
            UndoAction::ChangeCell { mode, cell_location, from_value } => {
                let to_value = self.set(cell_location, from_value);
                match mode {
                    UndoChangeCellMode::Delete => RedoAction::DeleteCell { cell_location },
                    UndoChangeCellMode::Edit => RedoAction::EditCell { cell_location, to_value },
                }
            },
        }
    }

    fn redo(&mut self, action: RedoAction) -> (undo: UndoAction) {
        match action {
            RedoAction::EditCells { to_values, rect } => {
                let from_values = self.set_rect(rect, to_values);
                UndoAction::ChangeCells { mode: UndoChangeCellMode::Edit, rect, from_values }
            },
            RedoAction::EditCell { cell_location, to_value } => {
                let from_value = self.set(cell_location, to_value);
                UndoAction::ChangeCell { mode: UndoChangeCellMode::Edit, cell_location, from_value }
            },
            RedoAction::DeleteCells { rect } => {
                let from_values = self.delete_rect(rect);
                UndoAction::ChangeCells { mode: UndoChangeCellMode::Delete, rect, from_values }
            },
            RedoAction::DeleteCell { cell_location } => {
                let from_value = self.delete(cell_location);
                UndoAction::ChangeCell { mode: UndoChangeCellMode::Delete, cell_location, from_value }
            },
        }
    }
}


/// Whether `(r, c)` is one of the rectangle's cells.
pub open spec fn within(rect: CellRect, r: int, c: int) -> bool {
    &&& rect.top_left_cell_location.row <= r < rect.top_left_cell_location.row + rect.row_count
    &&& rect.top_left_cell_location.col <= c < rect.top_left_cell_location.col + rect.col_count
}

/// The undo action fits the grid it is applied to: where it takes back a
/// deletion, the cells that it names hold no text there.
pub open spec fn recorded_in(g: Grid, a: UndoStep) -> bool {
    match a {
        UndoStep::Cells { mode, rect, values } => mode == UndoChangeCellMode::Delete ==> forall|
            r: int,
            c: int,
        | within(rect, r, c) ==> cell_at(g, r, c) is None,
        UndoStep::Cell { mode, location, value } => mode == UndoChangeCellMode::Delete ==> cell_at(
            g,
            location.row as int,
            location.col as int,
        ) is None,
    }
}

/// The list of a rectangle's cells holds, at the row-major position of a
/// location in the rectangle, what the grid holds there.
pub proof fn lemma_rect_value(g: Grid, rect: CellRect, r: int, c: int)
    requires
        within(rect, r, c),
    ensures
        0 <= row_major(
            r - rect.top_left_cell_location.row,
            c - rect.top_left_cell_location.col,
            rect.col_count as int,
        ) < rect.cell_count(),
        grid_rect(g, rect)[row_major(
            r - rect.top_left_cell_location.row,
            c - rect.top_left_cell_location.col,
            rect.col_count as int,
        )] == cell_at(g, r, c),
{
    let dr = r - rect.top_left_cell_location.row;
    let dc = c - rect.top_left_cell_location.col;
    let cols = rect.col_count as int;
    let rows = rect.row_count as int;
    lemma_row_major_split(dr, dc, cols);
    assert(0 <= dr * cols + dc < rows * cols) by (nonlinear_arith)
        requires
            0 <= dr < rows,
            0 <= dc < cols,
    ;
}

/// In a grid without empty text, what a location holds is kept unchanged
/// when it is written back.
pub proof fn lemma_stored_cell(g: Grid, r: int, c: int)
    requires
        no_empty_text(g),
    ensures
        stored(cell_at(g, r, c)) == cell_at(g, r, c),
{
    if 0 <= r < g.len() && 0 <= c < g[r].len() {
        assert(g[r][c] != Some(Seq::<char>::empty()));
        match g[r][c] {
            Some(s) => {
                if s.len() == 0 {
                    assert(s =~= Seq::<char>::empty());
                }
            },
            None => {},
        }
    }
}

/// An undo step on a grid without empty text gives such a grid.
pub proof fn lemma_undo_step_keeps_form(g: Grid, a: UndoStep)
    requires
        no_empty_text(g),
        undo_step_valid(a),
    ensures
        no_empty_text(undo_step(g, a).0),
{
    let h = undo_step(g, a).0;
    assert forall|r: int, c: int| 0 <= r < h.len() && 0 <= c < h[r].len() implies (#[trigger] h[r][c])
        != Some(Seq::<char>::empty()) by {
        match a {
            UndoStep::Cells { mode, rect, values } => {
                if !within(rect, r, c) {
                    if 0 <= r < g.len() && 0 <= c < g[r].len() {
                        assert(g[r][c] != Some(Seq::<char>::empty()));
                    }
                }
            },
            UndoStep::Cell { mode, location, value } => {
                if 0 <= r < g.len() && 0 <= c < g[r].len() {
                    assert(g[r][c] != Some(Seq::<char>::empty()));
                }
            },
        }
    }
}

/// One undo followed by one redo: after an action that fits the grid is
/// undone and the action handed back is redone, every location reads as it
/// did before. The redo may run on any grid that reads as the one that the
/// undo gave.
pub proof fn lemma_undo_redo_restores(g: Grid, a: UndoStep, h: Grid)
    requires
        no_empty_text(g),
        undo_step_valid(a),
        recorded_in(g, a),
        same_cells(h, undo_step(g, a).0),
    ensures
        same_cells(redo_step(h, undo_step(g, a).1).0, g),
{
    let back = redo_step(h, undo_step(g, a).1).0;
    assert forall|r: int, c: int| cell_at(back, r, c) == cell_at(g, r, c) by {
        lemma_stored_cell(g, r, c);
        assert(cell_at(h, r, c) == cell_at(undo_step(g, a).0, r, c));
        match a {
            UndoStep::Cells { mode, rect, values } => {
                lemma_set_rect_cells(g, rect, values, r, c);
                lemma_set_rect_cells(h, rect, grid_rect(g, rect), r, c);
                lemma_set_rect_cells(h, rect, blanks(rect.cell_count()), r, c);
                if within(rect, r, c) {
                    lemma_rect_value(g, rect, r, c);
                }
            },
            UndoStep::Cell { mode, location, value } => {},
        }
    }
}

/// One redo followed by one undo: after an action is redone and the action
/// handed back is undone, every location reads as it did before.
pub proof fn lemma_redo_undo_restores(g: Grid, a: RedoStep, h: Grid)
    requires
        no_empty_text(g),
        redo_step_valid(a),
        same_cells(h, redo_step(g, a).0),
    ensures
        same_cells(undo_step(h, redo_step(g, a).1).0, g),
{
    let back = undo_step(h, redo_step(g, a).1).0;
    assert forall|r: int, c: int| cell_at(back, r, c) == cell_at(g, r, c) by {
        lemma_stored_cell(g, r, c);
        assert(cell_at(h, r, c) == cell_at(redo_step(g, a).0, r, c));
        match a {
            RedoStep::EditCells { rect, values } => {
                lemma_set_rect_cells(g, rect, values, r, c);
                lemma_set_rect_cells(h, rect, grid_rect(g, rect), r, c);
                if within(rect, r, c) {
                    lemma_rect_value(g, rect, r, c);
                }
            },
            RedoStep::DeleteCells { rect } => {
                lemma_set_rect_cells(g, rect, blanks(rect.cell_count()), r, c);
                lemma_set_rect_cells(h, rect, grid_rect(g, rect), r, c);
                if within(rect, r, c) {
                    lemma_rect_value(g, rect, r, c);
                }
            },
            _ => {},
        }
    }
}

/// An undo action as redo hands it back after the action was undone: the
/// same mode and the same cells, with what a table keeps of each value.
pub open spec fn kept_undo(a: UndoStep) -> UndoStep {
    match a {
        UndoStep::Cells { mode, rect, values } => UndoStep::Cells {
            mode,
            rect,
            values: Seq::new(rect.cell_count() as nat, |i: int| stored(values[i])),
        },
        UndoStep::Cell { mode, location, value } => UndoStep::Cell {
            mode,
            location,
            value: stored(value),
        },
    }
}

/// A redo action as undo hands it back after the action was redone: the
/// same kind and the same cells, with what a table keeps of each value.
pub open spec fn kept_redo(a: RedoStep) -> RedoStep {
    match a {
        RedoStep::EditCells { rect, values } => RedoStep::EditCells {
            rect,
            values: Seq::new(rect.cell_count() as nat, |i: int| stored(values[i])),
        },
        RedoStep::EditCell { location, value } => RedoStep::EditCell {
            location,
            value: stored(value),
        },
        RedoStep::DeleteCells { rect } => RedoStep::DeleteCells { rect },
        RedoStep::DeleteCell { location } => RedoStep::DeleteCell { location },
    }
}

/// No action is lost by undo: the action that redo hands back after an
/// undo is the action that was undone, an edit for an edit and a deletion
/// for a deletion, with the values as a table keeps them.
pub proof fn lemma_undo_then_redo_returns_action(g: Grid, a: UndoStep)
    requires
        undo_step_valid(a),
    ensures
        redo_step(undo_step(g, a).0, undo_step(g, a).1).1 == kept_undo(a),
{
    let after = undo_step(g, a).0;
    match a {
        UndoStep::Cells { mode, rect, values } => {
            let kept = Seq::new(rect.cell_count() as nat, |i: int| stored(values[i]));
            assert forall|i: int| 0 <= i < rect.cell_count() implies grid_rect(after, rect)[i]
                == kept[i] by {
                lemma_rect_position(rect, i);
                let r = rect.top_left_cell_location.row + i / (rect.col_count as int);
                let c = rect.top_left_cell_location.col + i % (rect.col_count as int);
                lemma_set_rect_cells(g, rect, values, r, c);
            }
            assert(grid_rect(after, rect) =~= kept);
        },
        UndoStep::Cell { mode, location, value } => {},
    }
}

/// No action is lost by redo: the action that undo hands back after a redo
/// is the action that was redone, an edit for an edit and a deletion for a
/// deletion, with the values as a table keeps them.
pub proof fn lemma_redo_then_undo_returns_action(g: Grid, a: RedoStep)
    requires
        redo_step_valid(a),
    ensures
        undo_step(redo_step(g, a).0, redo_step(g, a).1).1 == kept_redo(a),
{
    let after = redo_step(g, a).0;
    match a {
        RedoStep::EditCells { rect, values } => {
            let kept = Seq::new(rect.cell_count() as nat, |i: int| stored(values[i]));
            assert forall|i: int| 0 <= i < rect.cell_count() implies grid_rect(after, rect)[i]
                == kept[i] by {
                lemma_rect_position(rect, i);
                let r = rect.top_left_cell_location.row + i / (rect.col_count as int);
                let c = rect.top_left_cell_location.col + i % (rect.col_count as int);
                lemma_set_rect_cells(g, rect, values, r, c);
            }
            assert(grid_rect(after, rect) =~= kept);
        },
        _ => {},
    }
}

/// The action that redo hands back fits the grid that redo gives: after a
/// deletion is made again, its cells hold no text.
pub proof fn lemma_redo_hands_back_fitting_action(g: Grid, a: RedoStep)
    ensures
        recorded_in(redo_step(g, a).0, redo_step(g, a).1),
{
    match a {
        RedoStep::DeleteCells { rect } => {
            assert forall|r: int, c: int| within(rect, r, c) implies cell_at(
                redo_step(g, a).0,
                r,
                c,
            ) is None by {
                lemma_set_rect_cells(g, rect, blanks(rect.cell_count()), r, c);
                lemma_rect_value(g, rect, r, c);
            }
        },
        _ => {},
    }
}

/// The `i`-th cell of a rectangle, in row-major order, lies in the
/// rectangle, at the row-major position `i`.
pub proof fn lemma_rect_position(rect: CellRect, i: int)
    requires
        0 <= i < rect.cell_count(),
    ensures
        within(
            rect,
            rect.top_left_cell_location.row + i / (rect.col_count as int),
            rect.top_left_cell_location.col + i % (rect.col_count as int),
        ),
        row_major(i / (rect.col_count as int), i % (rect.col_count as int), rect.col_count as int)
            == i,
{
    assert(rect.col_count > 0) by (nonlinear_arith)
        requires
            0 <= i < rect.row_count * rect.col_count,
            rect.col_count >= 0,
    ;
    lemma_row_major_bounds(i, rect.row_count as int, rect.col_count as int);
}

/// The grid and the two stacks after `k` undo steps, or after as many as
/// there are actions to undo.
pub open spec fn undo_many(g: Grid, undo: Seq<UndoStep>, redo: Seq<RedoStep>, k: nat) -> (
    Grid,
    Seq<UndoStep>,
    Seq<RedoStep>,
)
    decreases k,
{
    if k == 0 || undo.len() == 0 {
        (g, undo, redo)
    } else {
        let step = undo_step(g, undo.last());
        undo_many(step.0, undo.drop_last(), redo.push(step.1), (k - 1) as nat)
    }
}

/// The grid and the two stacks after `k` redo steps, or after as many as
/// there are actions to redo.
pub open spec fn redo_many(g: Grid, undo: Seq<UndoStep>, redo: Seq<RedoStep>, k: nat) -> (
    Grid,
    Seq<UndoStep>,
    Seq<RedoStep>,
)
    decreases k,
{
    if k == 0 || redo.len() == 0 {
        (g, undo, redo)
    } else {
        let step = redo_step(g, redo.last());
        redo_many(step.0, undo.push(step.1), redo.drop_last(), (k - 1) as nat)
    }
}

/// Each of the newest `k` undo actions fits the grid that it is applied to
/// when the actions are undone one after the other.
pub open spec fn recorded_chain(g: Grid, undo: Seq<UndoStep>, k: nat) -> bool
    decreases k,
{
    k == 0 || undo.len() == 0 || (recorded_in(g, undo.last()) && recorded_chain(
        undo_step(g, undo.last()).0,
        undo.drop_last(),
        (k - 1) as nat,
    ))
}

/// Every action of the list may be applied.
pub open spec fn all_undo_valid(undo: Seq<UndoStep>) -> bool {
    forall|i: int| 0 <= i < undo.len() ==> undo_step_valid(#[trigger] undo[i])
}

/// `a + b` redo steps are `a` redo steps followed by `b` redo steps.
pub proof fn lemma_redo_many_split(g: Grid, undo: Seq<UndoStep>, redo: Seq<RedoStep>, a: nat, b: nat)
    ensures
        redo_many(g, undo, redo, a + b) == ({
            let m = redo_many(g, undo, redo, a);
            redo_many(m.0, m.1, m.2, b)
        }),
    decreases a,
{
    if a == 0 {
    } else if redo.len() == 0 {
        assert(redo_many(g, undo, redo, b) == (g, undo, redo));
    } else {
        let step = redo_step(g, redo.last());
        lemma_redo_many_split(step.0, undo.push(step.1), redo.drop_last(), (a - 1) as nat, b);
        assert((a + b - 1) as nat == (a - 1) as nat + b);
    }
}

/// Undo `k` times, then redo `k` times: every location of the table reads
/// as it did before, the redo stack is as it was, and the undo stack holds
/// as many actions as before. This holds for `k` up to the depth of the undo
/// stack, of a table without empty text, where each action fits the table
/// that it is undone in.
pub proof fn lemma_undo_redo_many(g: Grid, undo: Seq<UndoStep>, redo: Seq<RedoStep>, k: nat)
    requires
        no_empty_text(g),
        k <= undo.len(),
        all_undo_valid(undo),
        recorded_chain(g, undo, k),
    ensures
        ({
            let a = undo_many(g, undo, redo, k);
            let b = redo_many(a.0, a.1, a.2, k);
            &&& same_cells(b.0, g)
            &&& b.1.len() == undo.len()
            &&& b.2 == redo
        }),
    decreases k,
{
    if k == 0 {
    } else {
        let step = undo_step(g, undo.last());
        let rest = undo.drop_last();
        let kept = redo.push(step.1);
        let j = (k - 1) as nat;
        lemma_undo_step_keeps_form(g, undo.last());
        lemma_undo_redo_many(step.0, rest, kept, j);
        let a = undo_many(g, undo, redo, k);
        assert(a == undo_many(step.0, rest, kept, j));
        let m = redo_many(a.0, a.1, a.2, j);
        lemma_redo_many_split(a.0, a.1, a.2, j, 1);
        assert(j + 1 == k);
        let b = redo_many(m.0, m.1, m.2, 1);
        assert(m.2 == kept);
        assert(kept.last() == step.1);
        let last = redo_step(m.0, step.1);
        assert(redo_many(last.0, m.1.push(last.1), kept.drop_last(), 0) == (
            last.0,
            m.1.push(last.1),
            kept.drop_last(),
        ));
        assert(b == (last.0, m.1.push(last.1), kept.drop_last()));
        assert(kept.drop_last() =~= redo);
        lemma_undo_redo_restores(g, undo.last(), m.0);
    }
}


/// `a + b` undo steps are `a` undo steps followed by `b` undo steps.
pub proof fn lemma_undo_many_split(g: Grid, undo: Seq<UndoStep>, redo: Seq<RedoStep>, a: nat, b: nat)
    ensures
        undo_many(g, undo, redo, a + b) == ({
            let m = undo_many(g, undo, redo, a);
            undo_many(m.0, m.1, m.2, b)
        }),
    decreases a,
{
    if a == 0 {
    } else if undo.len() == 0 {
        assert(undo_many(g, undo, redo, b) == (g, undo, redo));
    } else {
        let step = undo_step(g, undo.last());
        lemma_undo_many_split(step.0, undo.drop_last(), redo.push(step.1), (a - 1) as nat, b);
        assert((a + b - 1) as nat == (a - 1) as nat + b);
    }
}

/// The undo actions of a list as values.
pub open spec fn undo_steps(actions: Seq<UndoAction>) -> Seq<UndoStep> {
    Seq::new(actions.len(), |i: int| actions[i]@)
}

/// The redo actions of a list as values.
pub open spec fn redo_steps(actions: Seq<RedoAction>) -> Seq<RedoStep> {
    Seq::new(actions.len(), |i: int| actions[i]@)
}

/// A table and its engine as values: the grid, what can be undone and what
/// can be redone.
pub open spec fn engine_view(table: CsvTable, stack: UndoStack<CsvTable>) -> (
    Grid,
    Seq<UndoStep>,
    Seq<RedoStep>,
) {
    (table@, undo_steps(stack.undo_actions()), redo_steps(stack.redo_actions()))
}

/// One call of the engine's `undo` on a table is one undo step.
pub proof fn lemma_undo_call_is_step(
    stack: UndoStack<CsvTable>,
    table: CsvTable,
    after: UndoStack<CsvTable>,
    table_after: CsvTable,
)
    requires
        stack.undo_gives(&table, &after, &table_after),
    ensures
        engine_view(table_after, after) == undo_many(
            table@,
            undo_steps(stack.undo_actions()),
            redo_steps(stack.redo_actions()),
            1,
        ),
{
    let undo = undo_steps(stack.undo_actions());
    let redo = redo_steps(stack.redo_actions());
    if stack.undo_actions().len() == 0 {
        assert(undo_many(table@, undo, redo, 1) == (table@, undo, redo));
    } else {
        let step = undo_step(table@, undo.last());
        assert(undo_many(step.0, undo.drop_last(), redo.push(step.1), 0) == (
            step.0,
            undo.drop_last(),
            redo.push(step.1),
        ));
        assert(undo.last() == stack.undo_actions().last()@);
        assert(undo_steps(after.undo_actions()) =~= undo.drop_last());
        assert forall|i: int| 0 <= i < redo.len() implies redo_steps(after.redo_actions())[i]
            == redo[i] by {
            assert(after.redo_actions().drop_last()[i] == after.redo_actions()[i]);
        }
        assert(redo_steps(after.redo_actions()) =~= redo.push(step.1));
    }
}

/// One call of the engine's `redo` on a table is one redo step.
pub proof fn lemma_redo_call_is_step(
    stack: UndoStack<CsvTable>,
    table: CsvTable,
    after: UndoStack<CsvTable>,
    table_after: CsvTable,
)
    requires
        stack.redo_gives(&table, &after, &table_after),
    ensures
        engine_view(table_after, after) == redo_many(
            table@,
            undo_steps(stack.undo_actions()),
            redo_steps(stack.redo_actions()),
            1,
        ),
{
    let undo = undo_steps(stack.undo_actions());
    let redo = redo_steps(stack.redo_actions());
    if stack.redo_actions().len() == 0 {
        assert(redo_many(table@, undo, redo, 1) == (table@, undo, redo));
    } else {
        let step = redo_step(table@, redo.last());
        assert(redo_many(step.0, undo.push(step.1), redo.drop_last(), 0) == (
            step.0,
            undo.push(step.1),
            redo.drop_last(),
        ));
        assert(redo.last() == stack.redo_actions().last()@);
        assert(redo_steps(after.redo_actions()) =~= redo.drop_last());
        assert forall|i: int| 0 <= i < undo.len() implies undo_steps(after.undo_actions())[i]
            == undo[i] by {
            assert(after.undo_actions().drop_last()[i] == after.undo_actions()[i]);
        }
        assert(undo_steps(after.undo_actions()) =~= undo.push(step.1));
    }
}

/// Call `i` of a run is an undo: it leads from table and engine `i` to
/// table and engine `i + 1`.
pub open spec fn is_undo_call(
    tables: Seq<CsvTable>,
    stacks: Seq<UndoStack<CsvTable>>,
    i: int,
) -> bool {
    stacks[i].undo_gives(&tables[i], &stacks[i + 1], &tables[i + 1])
}

/// Call `i` of a run is a redo: it leads from table and engine `i` to
/// table and engine `i + 1`.
pub open spec fn is_redo_call(
    tables: Seq<CsvTable>,
    stacks: Seq<UndoStack<CsvTable>>,
    i: int,
) -> bool {
    stacks[i].redo_gives(&tables[i], &stacks[i + 1], &tables[i + 1])
}

/// After `j` calls of `undo`, table and engine are what `j` undo steps make
/// of them.
proof fn lemma_undo_calls(tables: Seq<CsvTable>, stacks: Seq<UndoStack<CsvTable>>, j: nat)
    requires
        j < tables.len(),
        tables.len() == stacks.len(),
        forall|i: int| 0 <= i < j ==> #[trigger] is_undo_call(tables, stacks, i),
    ensures
        engine_view(tables[j as int], stacks[j as int]) == undo_many(
            tables[0]@,
            undo_steps(stacks[0].undo_actions()),
            redo_steps(stacks[0].redo_actions()),
            j,
        ),
    decreases j,
{
    if j > 0 {
        let i = (j - 1) as nat;
        lemma_undo_calls(tables, stacks, i);
        assert(is_undo_call(tables, stacks, i as int));
        lemma_undo_call_is_step(stacks[i as int], tables[i as int], stacks[j as int], tables[j as int]);
        lemma_undo_many_split(
            tables[0]@,
            undo_steps(stacks[0].undo_actions()),
            redo_steps(stacks[0].redo_actions()),
            i,
            1,
        );
    }
}

/// After `j` calls of `redo` that follow call `from`, table and engine are
/// what `j` redo steps make of table and engine `from`.
proof fn lemma_redo_calls(
    tables: Seq<CsvTable>,
    stacks: Seq<UndoStack<CsvTable>>,
    from: nat,
    j: nat,
)
    requires
        from + j < tables.len(),
        tables.len() == stacks.len(),
        forall|i: int| from <= i < from + j ==> #[trigger] is_redo_call(tables, stacks, i),
    ensures
        engine_view(tables[(from + j) as int], stacks[(from + j) as int]) == redo_many(
            tables[from as int]@,
            undo_steps(stacks[from as int].undo_actions()),
            redo_steps(stacks[from as int].redo_actions()),
            j,
        ),
    decreases j,
{
    if j > 0 {
        let i = (j - 1) as nat;
        lemma_redo_calls(tables, stacks, from, i);
        assert(is_redo_call(tables, stacks, (from + i) as int));
        lemma_redo_call_is_step(
            stacks[(from + i) as int],
            tables[(from + i) as int],
            stacks[(from + j) as int],
            tables[(from + j) as int],
        );
        lemma_redo_many_split(
            tables[from as int]@,
            undo_steps(stacks[from as int].undo_actions()),
            redo_steps(stacks[from as int].redo_actions()),
            i,
            1,
        );
    }
}

/// Undo called `k` times, then redo called `k` times, on a table and its
/// engine: afterwards every location of the table reads as before the
/// first call, the engine holds as many undo actions as before, and what it
/// can redo is what it could redo before. `tables` and `stacks` are the
/// table and the engine before the first call and after each call. This
/// holds for `k` up to the depth of the undo stack, where each action fits
/// the table that it is undone in.
pub proof fn lemma_engine_undo_redo(
    tables: Seq<CsvTable>,
    stacks: Seq<UndoStack<CsvTable>>,
    k: nat,
)
    requires
        tables.len() == 2 * k + 1,
        stacks.len() == 2 * k + 1,
        tables[0].wf(),
        stacks[0].wf(),
        k <= stacks[0].undo_actions().len(),
        recorded_chain(tables[0]@, undo_steps(stacks[0].undo_actions()), k),
        forall|i: int| 0 <= i < k ==> #[trigger] is_undo_call(tables, stacks, i),
        forall|i: int| k <= i < 2 * k ==> #[trigger] is_redo_call(tables, stacks, i),
    ensures
        same_cells(tables[(2 * k) as int]@, tables[0]@),
        forall|r: int, c: int| cell_at(tables[(2 * k) as int]@, r, c) == cell_at(tables[0]@, r, c),
        stacks[(2 * k) as int].undo_actions().len() == stacks[0].undo_actions().len(),
        stacks[(2 * k) as int].redo_actions().len() == stacks[0].redo_actions().len(),
        redo_steps(stacks[(2 * k) as int].redo_actions()) == redo_steps(stacks[0].redo_actions()),
{
    let g = tables[0]@;
    let undo = undo_steps(stacks[0].undo_actions());
    let redo = redo_steps(stacks[0].redo_actions());
    lemma_undo_calls(tables, stacks, k);
    lemma_redo_calls(tables, stacks, k, k);
    assert(all_undo_valid(undo)) by {
        assert forall|i: int| 0 <= i < undo.len() implies undo_step_valid(#[trigger] undo[i]) by {
            assert(CsvTable::undo_valid(stacks[0].undo_actions()[i]));
        }
    }
    lemma_undo_redo_many(g, undo, redo, k);
    let last = engine_view(tables[(2 * k) as int], stacks[(2 * k) as int]);
    assert(last.1.len() == stacks[(2 * k) as int].undo_actions().len());
    assert(last.2.len() == stacks[(2 * k) as int].redo_actions().len());
    assert(redo.len() == stacks[0].redo_actions().len());
}


/// An undo step on grids that read the same gives grids that read the same.
pub proof fn lemma_undo_step_follows_cells(g: Grid, h: Grid, a: UndoStep)
    requires
        same_cells(g, h),
    ensures
        same_cells(undo_step(g, a).0, undo_step(h, a).0),
        recorded_in(g, a) == recorded_in(h, a),
{
    assert forall|r: int, c: int| cell_at(undo_step(g, a).0, r, c) == cell_at(
        undo_step(h, a).0,
        r,
        c,
    ) by {
        assert(cell_at(g, r, c) == cell_at(h, r, c));
        match a {
            UndoStep::Cells { mode, rect, values } => {
                lemma_set_rect_cells(g, rect, values, r, c);
                lemma_set_rect_cells(h, rect, values, r, c);
            },
            UndoStep::Cell { mode, location, value } => {
                if r == location.row && c == location.col {
                    lemma_set_then_get(g, r, c, value);
                    lemma_set_then_get(h, r, c, value);
                } else {
                    lemma_set_keeps_others(g, location.row as int, location.col as int, value, r, c);
                    lemma_set_keeps_others(h, location.row as int, location.col as int, value, r, c);
                }
            },
        }
    }
    match a {
        UndoStep::Cells { mode, rect, values } => {
            assert forall|r: int, c: int| cell_at(g, r, c) == cell_at(h, r, c) by {}
        },
        UndoStep::Cell { mode, location, value } => {
            assert(cell_at(g, location.row as int, location.col as int) == cell_at(
                h,
                location.row as int,
                location.col as int,
            ));
        },
    }
}

/// Action `i` is the record of the edit that led from grid `i` to grid
/// `i + 1`: undone in grid `i + 1` it gives a grid that reads as grid `i`,
/// and it is marked a deletion only where the edit left its cells without
/// text.
pub open spec fn records_edit(states: Seq<Grid>, undo: Seq<UndoStep>, i: int) -> bool {
    &&& recorded_in(states[i + 1], undo[i])
    &&& same_cells(undo_step(states[i + 1], undo[i]).0, states[i])
}

/// The undo actions are the record of the edits that led from each grid of
/// `states` to the next.
pub open spec fn records_edits(states: Seq<Grid>, undo: Seq<UndoStep>) -> bool {
    &&& states.len() == undo.len() + 1
    &&& forall|i: int| 0 <= i < undo.len() ==> #[trigger] records_edit(states, undo, i)
}

/// Actions that are the record of the edits made, undone one after the
/// other from a grid that reads as the last one, each fit the grid that
/// they are undone in.
pub proof fn lemma_recorded_edits_fit(states: Seq<Grid>, undo: Seq<UndoStep>, g: Grid, k: nat)
    requires
        records_edits(states, undo),
        same_cells(g, states.last()),
        k <= undo.len(),
    ensures
        recorded_chain(g, undo, k),
    decreases k,
{
    if k > 0 {
        let n = undo.len() as int;
        let a = undo.last();
        assert(records_edit(states, undo, n - 1));
        lemma_undo_step_follows_cells(g, states[n], a);
        let before = undo_step(g, a).0;
        assert forall|r: int, c: int| cell_at(before, r, c) == cell_at(states[n - 1], r, c) by {
            assert(cell_at(before, r, c) == cell_at(undo_step(states[n], a).0, r, c));
        }
        assert forall|i: int| 0 <= i < n - 1 implies #[trigger] records_edit(
            states.drop_last(),
            undo.drop_last(),
            i,
        ) by {
            assert(records_edit(states, undo, i));
        }
        lemma_recorded_edits_fit(states.drop_last(), undo.drop_last(), before, (k - 1) as nat);
    }
}

} // verus!
