//! One open table with its cursor, its viewport and its history: moving the
//! selection, keeping it in view, copying and pasting cells, and telling
//! whether there is anything to save.

use crate::codec::{LoadError, SaveError};
use crate::location::{clamp_index, CellLocation, CellLocationDelta, MoveDirection};
use crate::rect::{lemma_row_major_bounds, lemma_spans_fit, span, CellRect};
use crate::table::{
    clone_cell, clone_cells, grid_rect, grid_set, grid_set_rect, has_text, normalized,
    text_of, texts_of, CsvTable, Grid, Text,
};
use crate::undo::UndoStack;
use std::path::PathBuf;
use vstd::prelude::*;

verus! {

/// The path type of std, carried through unread.
#[verifier::external_type_specification]
#[verifier::external_body]
pub struct ExPathBuf(std::path::PathBuf);

/// `PathBuf::clone`: a path equal to the one given.
#[verifier::external_body]
fn clone_path(path: &PathBuf) -> (copy: PathBuf)
    ensures
        copy == *path,
{
    path.clone()
}

/// The cursor, and the opposite corner of the selected rectangle where more
/// than one cell is selected.
#[derive(Debug, Copy, Clone, PartialEq, Eq, Structural)]
pub struct Selection {
    pub primary: CellLocation,
    pub opposite: Option<CellLocation>,
}

impl Default for Selection {
    fn default() -> (s: Selection)
        ensures
            s == (Selection { primary: CellLocation { row: 0, col: 0 }, opposite: None }),
    {
        Selection { primary: CellLocation { row: 0, col: 0 }, opposite: None }
    }
}

/// What was copied or cut last: one cell, or a rectangle of cells in
/// row-major order with its number of columns.
#[derive(Debug, Clone)]
pub enum Yank {
    Single(Option<String>),
    Rectangle { cols: usize, content: Vec<Option<String>> },
}

impl Yank {
    /// A rectangle has at least one column and holds whole rows, at least
    /// one.
    pub open spec fn wf(&self) -> bool {
        match *self {
            Yank::Single(_) => true,
            Yank::Rectangle { cols, content } => {
                &&& cols >= 1
                &&& content@.len() >= cols
                &&& (content@.len() as int) % (cols as int) == 0
            },
        }
    }
}

/// Distance that the cursor keeps from the edges of the viewport: a tenth
/// of the visible cells, rounded, and at least one.
pub open spec fn margin(visible: usize) -> int {
    if (visible + 5) / 10 < 1 {
        1
    } else {
        (visible + 5) / 10
    }
}

/// Where the viewport starts on one axis after it followed the cursor. It
/// moves only if the cursor is closer than `margin` to one of its edges, or
/// outside, and then just far enough, never before the first cell.
pub open spec fn scrolled(origin: int, cursor: int, visible: int, margin: int) -> int {
    if cursor < origin + margin {
        if cursor < margin {
            0
        } else {
            cursor - margin
        }
    } else if cursor >= origin + visible - margin {
        cursor + margin - visible + 1
    } else {
        origin
    }
}

/// Number of cells shown on one axis: as many as fit whole, one if not even
/// one fits, none if there is no space.
pub open spec fn visible_count(available: u16, wanted: u16) -> usize {
    if available / wanted == 0 {
        if available == 0 {
            0usize
        } else {
            1usize
        }
    } else {
        (available / wanted) as usize
    }
}

/// Size of a shown cell on one axis: the wanted size and what is left over,
/// or all the space where less than the wanted size is there.
pub open spec fn shown_size(available: u16, wanted: u16) -> u16 {
    if available / wanted == 0 {
        available
    } else {
        (wanted + available % wanted) as u16
    }
}

/// Where at least one cell of the wanted size fits, the wanted size and the
/// space left over are no more than the space that is there.
proof fn lemma_leftover_fits(available: u16, wanted: u16)
    requires
        wanted >= 1,
    ensures
        available / wanted >= 1 ==> wanted + available % wanted <= available,
{
    vstd::arithmetic::div_mod::lemma_fundamental_div_mod(available as int, wanted as int);
    let q = available as int / wanted as int;
    if q >= 1 {
        assert(wanted * q >= wanted) by (nonlinear_arith)
            requires
                q >= 1,
                wanted >= 1,
        ;
    }
}

/// Hashes a table's content, for comparison within one run.
pub fn hash_table(table: &CsvTable) -> (hash: u64) {
    table.content_hash()
}

fn margin_of(visible: usize) -> (m: usize)
    ensures
        m == margin(visible),
{
    let tenth: usize = visible / 10 + (if visible % 10 >= 5 {
        1
    } else {
        0
    });
    if tenth < 1 {
        1
    } else {
        tenth
    }
}

fn scroll_axis(origin: usize, cursor: usize, visible: usize) -> (to: usize)
    ensures
        to == clamp_index(scrolled(origin as int, cursor as int, visible as int, margin(visible))),
{
    let m: i128 = margin_of(visible) as i128;
    let origin: i128 = origin as i128;
    let cursor: i128 = cursor as i128;
    let visible: i128 = visible as i128;
    let to: i128 = if cursor < origin + m {
        if cursor < m {
            0
        } else {
            cursor - m
        }
    } else if cursor >= origin + visible - m {
        cursor + m - visible + 1
    } else {
        origin
    };
    if to < 0 {
        0
    } else if to > usize::MAX as i128 {
        usize::MAX
    } else {
        to as usize
    }
}

/// One open table and all that belongs to its editing.
#[derive(Debug, Clone)]
pub struct CsvBuffer {
    pub visible_cols: usize,
    pub visible_rows: usize,
    pub cell_height_wanted: u16,
    pub cell_width_wanted: u16,
    pub cell_height: u16,
    pub cell_width: u16,
    pub top_left_cell_location: CellLocation,
    pub csv_table: CsvTable,
    pub selection: Selection,
    pub selection_yanked: Option<Selection>,
    pub file: Option<PathBuf>,
    pub undo_stack: UndoStack<CsvTable>,
    pub saved_hash: Option<u64>,
}

impl Default for CsvBuffer {
    fn default() -> (buffer: CsvBuffer)
        ensures
            buffer.wf(),
            buffer.visible_cols == 5,
            buffer.visible_rows == 20,
            buffer.cell_height_wanted == 1,
            buffer.cell_width_wanted == 25,
            buffer.cell_height == 0,
            buffer.cell_width == 0,
            buffer.top_left_cell_location == (CellLocation { row: 0, col: 0 }),
            buffer.csv_table@ == Seq::<Seq<Text>>::empty(),
            buffer.csv_table.spec_delimiter() is None,
            buffer.selection == (Selection { primary: CellLocation { row: 0, col: 0 }, opposite: None }),
            buffer.selection_yanked is None,
            buffer.file is None,
            buffer.saved_hash is None,
            buffer.undo_stack.undo_actions().len() == 0,
            buffer.undo_stack.redo_actions().len() == 0,
    {
        CsvBuffer::around(CsvTable::default(), None, None)
    }
}

impl CsvBuffer {
    /// The table and the history are well-formed, and the wanted cell sizes
    /// are not zero.
    pub open spec fn wf(&self) -> bool {
        &&& self.csv_table.wf()
        &&& self.undo_stack.wf()
        &&& self.cell_height_wanted >= 1
        &&& self.cell_width_wanted >= 1
    }

    /// The selected rectangle, where more than one cell is selected.
    pub open spec fn active_rect(&self) -> Option<CellRect> {
        match self.selection.opposite {
            Some(opposite) => Some(CellRect::spanning(self.selection.primary, opposite)),
            None => None,
        }
    }

    /// A buffer with the usual settings around a table.
    fn around(csv_table: CsvTable, file: Option<PathBuf>, saved_hash: Option<u64>) -> (buffer:
        CsvBuffer)
        requires
            csv_table.wf(),
        ensures
            buffer.wf(),
            buffer.visible_cols == 5,
            buffer.visible_rows == 20,
            buffer.cell_height_wanted == 1,
            buffer.cell_width_wanted == 25,
            buffer.cell_height == 0,
            buffer.cell_width == 0,
            buffer.top_left_cell_location == (CellLocation { row: 0, col: 0 }),
            buffer.csv_table == csv_table,
            buffer.selection == (Selection { primary: CellLocation { row: 0, col: 0 }, opposite: None }),
            buffer.selection_yanked is None,
            buffer.file == file,
            buffer.saved_hash == saved_hash,
            buffer.undo_stack.undo_actions().len() == 0,
            buffer.undo_stack.redo_actions().len() == 0,
    {
        CsvBuffer {
            visible_cols: 5,
            visible_rows: 20,
            cell_height_wanted: 1,
            cell_width_wanted: 25,
            cell_height: 0,
            cell_width: 0,
            top_left_cell_location: CellLocation { row: 0, col: 0 },
            saved_hash,
            csv_table,
            selection: Selection { primary: CellLocation { row: 0, col: 0 }, opposite: None },
            selection_yanked: None,
            file,
            undo_stack: UndoStack::new(),
        }
    }

    /// Opens the table that `bytes` holds. `file` is the path that the bytes
    /// were read from, if they came from a file: the buffer remembers it, and
    /// counts as saved. Without a path nothing counts as saved.
    pub fn load(bytes: &[u8], file: Option<PathBuf>, delimiter: Option<u8>) -> (result: Result<
        CsvBuffer,
        LoadError,
    >)
        ensures
            match result {
                Ok(buffer) => {
                    &&& buffer.wf()
                    &&& CsvTable::load_outcome(bytes@, delimiter) is Some
                    &&& buffer.csv_table@ == CsvTable::load_outcome(bytes@, delimiter).unwrap()
                    &&& buffer.csv_table.spec_delimiter() == delimiter
                    &&& buffer.file == file
                    &&& buffer.saved_hash is Some == file is Some
                    &&& buffer.selection == (Selection {
                        primary: CellLocation { row: 0, col: 0 },
                        opposite: None,
                    })
                    &&& buffer.top_left_cell_location == (CellLocation { row: 0, col: 0 })
                    &&& buffer.undo_stack.undo_actions().len() == 0
                    &&& buffer.undo_stack.redo_actions().len() == 0
                },
                Err(e) => e is MalformedRecord && CsvTable::load_outcome(bytes@, delimiter) is None,
            },
    {
        match CsvTable::load(bytes, delimiter) {
            Ok(csv_table) => {
                let saved_hash = match &file {
                    Some(_) => Some(hash_table(&csv_table)),
                    None => None,
                };
                Ok(CsvBuffer::around(csv_table, file, saved_hash))
            },
            Err(e) => Err(e),
        }
    }

    /// The path to save to: the one given, else the one remembered.
    pub fn save_destination(&self, file_name: Option<PathBuf>) -> (result: Result<PathBuf, SaveError>)
        ensures
            result == (match file_name {
                Some(name) => Ok::<PathBuf, SaveError>(name),
                None => match self.file {
                    Some(name) => Ok(name),
                    None => Err(SaveError::NoDestination),
                },
            }),
    {
        match file_name {
            Some(name) => Ok(name),
            None => match &self.file {
                Some(name) => Ok(clone_path(name)),
                None => Err(SaveError::NoDestination),
            },
        }
    }

    /// Decides what a save does about its destination: `Ok(false)` to write
    /// to the file that exists, `Ok(true)` to create the parent directories
    /// first, or the reason not to save.
    pub fn check_destination(exists: bool, create_new_file: bool, has_parent: bool) -> (result:
        Result<bool, SaveError>)
        ensures
            result == (if exists {
                Ok::<bool, SaveError>(false)
            } else if !create_new_file {
                Err(SaveError::DestinationMissingAndCreationNotRequested)
            } else if has_parent {
                Ok(true)
            } else {
                Err(SaveError::InvalidParentPath)
            }),
    {
        if exists {
            Ok(false)
        } else if !create_new_file {
            Err(SaveError::DestinationMissingAndCreationNotRequested)
        } else if has_parent {
            Ok(true)
        } else {
            Err(SaveError::InvalidParentPath)
        }
    }

    /// Normalizes the table and encodes it for writing. Nothing but the
    /// table's shape changes.
    pub fn encode(&mut self) -> (result: Result<Vec<u8>, SaveError>)
        requires
            old(self).csv_table.wf(),
        ensures
            final(self).csv_table.wf(),
            old(self).wf() ==> final(self).wf(),
            final(self).csv_table@ == normalized(old(self).csv_table@),
            final(self).csv_table.spec_delimiter() == old(self).csv_table.spec_delimiter(),
            CsvTable::save_outcome(final(self).csv_table@, final(self).csv_table.spec_delimiter())
                == (match result {
                Ok(bytes) => Some(bytes@),
                Err(_) => None,
            }),
            result is Err ==> result->Err_0 is Write,
            *final(self) == (CsvBuffer { csv_table: final(self).csv_table, ..*old(self) }),
    {
        self.csv_table.normalize_and_save()
    }

    /// Remembers that the table was written to `path` as it is now.
    pub fn mark_saved(&mut self, path: PathBuf)
        ensures
            final(self).saved_hash is Some,
            *final(self) == (CsvBuffer {
                file: Some(path),
                saved_hash: final(self).saved_hash,
                ..*old(self)
            }),
    {
        self.saved_hash = Some(hash_table(&self.csv_table));
        self.file = Some(path);
    }

    /// Whether a hash taken now differs from the one taken at the last load
    /// or save.
    pub fn hash_changed(saved: u64, current: u64) -> (changed: bool)
        ensures
            changed == (saved != current),
    {
        current != saved
    }

    /// Tells whether there is anything to save. A buffer that was never
    /// loaded or saved is dirty as soon as a cell holds text. Otherwise it is
    /// dirty where the content's hash differs from the one taken at the last
    /// load or save.
    pub fn is_dirty(&self) -> (dirty: bool)
        ensures
            self.saved_hash is None ==> dirty == !(forall|r: int, c: int|
                !has_text(self.csv_table@, r, c)),
    {
        match self.saved_hash {
            None => !self.is_empty(),
            Some(saved) => Self::hash_changed(saved, hash_table(&self.csv_table)),
        }
    }

    /// Tells whether no cell of the table holds text.
    pub fn is_empty(&self) -> (empty: bool)
        ensures
            empty == (forall|r: int, c: int| !has_text(self.csv_table@, r, c)),
    {
        self.csv_table.is_empty()
    }

    /// Where the viewport starts after it followed the cursor.
    pub open spec fn view_following(&self, cursor: CellLocation) -> CellLocation {
        CellLocation {
            row: clamp_index(
                scrolled(
                    self.top_left_cell_location.row as int,
                    cursor.row as int,
                    self.visible_rows as int,
                    margin(self.visible_rows),
                ),
            ),
            col: clamp_index(
                scrolled(
                    self.top_left_cell_location.col as int,
                    cursor.col as int,
                    self.visible_cols as int,
                    margin(self.visible_cols),
                ),
            ),
        }
    }

    /// Moves the cursor `n` cells in `direction`, stopping at the first and
    /// at the last index, and scrolls it into view.
    pub fn move_selection(&mut self, direction: MoveDirection, n: usize)
        requires
            n <= isize::MAX,
        ensures
            final(self).selection.primary == old(self).selection.primary.plus(
                CellLocationDelta::spec_from_direction(direction, n),
            ),
            *final(self) == (CsvBuffer {
                selection: Selection {
                    primary: final(self).selection.primary,
                    opposite: old(self).selection.opposite,
                },
                top_left_cell_location: old(self).view_following(final(self).selection.primary),
                ..*old(self)
            }),
    {
        self.selection.primary.add_assign(CellLocationDelta::from_direction(direction, n));
        self.ensure_selection_in_view();
    }

    /// Puts the cursor on `location` and scrolls it into view.
    pub fn move_selection_to(&mut self, location: CellLocation)
        ensures
            *final(self) == (CsvBuffer {
                selection: Selection { primary: location, opposite: old(self).selection.opposite },
                top_left_cell_location: old(self).view_following(location),
                ..*old(self)
            }),
    {
        self.selection.primary = location;
        self.ensure_selection_in_view();
    }

    /// Moves the viewport `n` cells in `direction` without moving the
    /// cursor.
    pub fn move_view(&mut self, direction: MoveDirection, n: usize)
        requires
            n <= isize::MAX,
        ensures
            *final(self) == (CsvBuffer {
                top_left_cell_location: old(self).top_left_cell_location.plus(
                    CellLocationDelta::spec_from_direction(direction, n),
                ),
                ..*old(self)
            }),
    {
        self.top_left_cell_location.add_assign(CellLocationDelta::from_direction(direction, n));
    }

    /// Puts the viewport's first cell on `location`.
    pub fn move_view_to(&mut self, location: CellLocation)
        ensures
            *final(self) == (CsvBuffer { top_left_cell_location: location, ..*old(self) }),
    {
        self.top_left_cell_location = location;
    }

    /// Scrolls the viewport so that the cursor keeps its margin from the
    /// edges.
    pub fn ensure_selection_in_view(&mut self)
        ensures
            *final(self) == (CsvBuffer {
                top_left_cell_location: old(self).view_following(old(self).selection.primary),
                ..*old(self)
            }),
    {
        let cursor = self.selection.primary;
        self.top_left_cell_location.col = scroll_axis(
            self.top_left_cell_location.col,
            cursor.col,
            self.visible_cols,
        );
        self.top_left_cell_location.row = scroll_axis(
            self.top_left_cell_location.row,
            cursor.row,
            self.visible_rows,
        );
    }

    /// Puts the cursor in the middle of the viewport, as far as the first
    /// row and column allow.
    pub fn center_primary_selection(&mut self)
        ensures
            *final(self) == (CsvBuffer {
                top_left_cell_location: old(self).selection.primary.minus(
                    CellLocationDelta {
                        x: (old(self).visible_cols / 2) as isize,
                        y: (old(self).visible_rows / 2) as isize,
                    },
                ),
                ..*old(self)
            }),
    {
        let half = CellLocationDelta {
            x: (self.visible_cols / 2) as isize,
            y: (self.visible_rows / 2) as isize,
        };
        let mut origin = self.selection.primary;
        origin.sub_assign(half);
        self.top_left_cell_location = origin;
    }

    /// Works out how many cells are shown, and how large, in the space that
    /// is there.
    pub fn recalculate_dimensions(&mut self, available_cols: u16, available_rows: u16)
        requires
            old(self).cell_height_wanted >= 1,
            old(self).cell_width_wanted >= 1,
        ensures
            *final(self) == (CsvBuffer {
                visible_rows: visible_count(available_rows, old(self).cell_height_wanted),
                cell_height: shown_size(available_rows, old(self).cell_height_wanted),
                visible_cols: visible_count(available_cols, old(self).cell_width_wanted),
                cell_width: shown_size(available_cols, old(self).cell_width_wanted),
                ..*old(self)
            }),
    {
        proof {
            lemma_leftover_fits(available_rows, self.cell_height_wanted);
            lemma_leftover_fits(available_cols, self.cell_width_wanted);
        }
        self.visible_rows = (available_rows / self.cell_height_wanted) as usize;
        if self.visible_rows == 0 {
            self.visible_rows = if available_rows == 0 {
                0
            } else {
                1
            };
            self.cell_height = available_rows;
        } else {
            self.cell_height = self.cell_height_wanted + available_rows % self.cell_height_wanted;
        }
        self.visible_cols = (available_cols / self.cell_width_wanted) as usize;
        if self.visible_cols == 0 {
            self.visible_cols = if available_cols == 0 {
                0
            } else {
                1
            };
            self.cell_width = available_cols;
        } else {
            self.cell_width = self.cell_width_wanted + available_cols % self.cell_width_wanted;
        }
    }

    /// Takes back the newest recorded change, if there is one: one undo of
    /// the engine on the table.
    pub fn undo(&mut self)
        requires
            old(self).csv_table.wf(),
            old(self).undo_stack.wf(),
        ensures
            final(self).csv_table.wf(),
            final(self).undo_stack.wf(),
            old(self).wf() ==> final(self).wf(),
            old(self).undo_stack.undo_gives(
                &old(self).csv_table,
                &final(self).undo_stack,
                &final(self).csv_table,
            ),
            *final(self) == (CsvBuffer {
                csv_table: final(self).csv_table,
                undo_stack: final(self).undo_stack,
                ..*old(self)
            }),
    {
        self.undo_stack.undo(&mut self.csv_table);
    }

    /// Makes the change undone most recently again, if there is one: one
    /// redo of the engine on the table.
    pub fn redo(&mut self)
        requires
            old(self).csv_table.wf(),
            old(self).undo_stack.wf(),
        ensures
            final(self).csv_table.wf(),
            final(self).undo_stack.wf(),
            old(self).wf() ==> final(self).wf(),
            old(self).undo_stack.redo_gives(
                &old(self).csv_table,
                &final(self).undo_stack,
                &final(self).csv_table,
            ),
            *final(self) == (CsvBuffer {
                csv_table: final(self).csv_table,
                undo_stack: final(self).undo_stack,
                ..*old(self)
            }),
    {
        self.undo_stack.redo(&mut self.csv_table);
    }
}


/// The rectangle that a paste writes: the selected one for a single value
/// where more than one cell is selected; for a copied rectangle the one of
/// its own shape with the cursor as its top-left cell, whatever is selected.
pub open spec fn paste_rect(selection: Selection, yank: Yank) -> Option<CellRect> {
    match yank {
        Yank::Single(_) => match selection.opposite {
            Some(opposite) => Some(CellRect::spanning(selection.primary, opposite)),
            None => None,
        },
        Yank::Rectangle { cols, content } => Some(
            CellRect {
                top_left_cell_location: selection.primary,
                col_count: cols,
                row_count: (content@.len() as int / cols as int) as usize,
            },
        ),
    }
}

/// The values that a paste writes to its rectangle, row by row.
pub open spec fn paste_values(selection: Selection, yank: Yank) -> Seq<Text> {
    match yank {
        Yank::Single(value) => Seq::new(
            paste_rect(selection, yank).unwrap().cell_count() as nat,
            |i: int| text_of(value),
        ),
        Yank::Rectangle { cols, content } => texts_of(content@),
    }
}

/// The grid after a paste.
pub open spec fn pasted(g: Grid, selection: Selection, yank: Yank) -> Grid {
    match paste_rect(selection, yank) {
        Some(rect) => grid_set_rect(g, rect, paste_values(selection, yank)),
        None => grid_set(
            g,
            selection.primary.row as int,
            selection.primary.col as int,
            match yank {
                Yank::Single(value) => text_of(value),
                Yank::Rectangle { cols, content } => None,
            },
        ),
    }
}

/// The selected cells can all be held by a table.
pub open spec fn selection_fits(selection: Selection) -> bool {
    match selection.opposite {
        Some(opposite) => CellRect::spanning(selection.primary, opposite).fits() && span(
            selection.primary.row,
            opposite.row,
        ) <= usize::MAX && span(selection.primary.col, opposite.col) <= usize::MAX,
        None => selection.primary.row < usize::MAX && selection.primary.col < usize::MAX,
    }
}

/// The cells that a paste writes can all be held by a table.
pub open spec fn paste_fits(selection: Selection, yank: Yank) -> bool {
    match yank {
        Yank::Single(_) => selection_fits(selection),
        Yank::Rectangle { cols, content } => paste_rect(selection, yank).unwrap().fits(),
    }
}

impl CsvBuffer {
    /// Copies the selection: the cell under the cursor, or the selected
    /// rectangle row by row with its number of columns. The selection is
    /// remembered as the copied one and shrinks to the cursor.
    pub fn yank(&mut self) -> (yank: Yank)
        requires
            old(self).selection.opposite is Some ==> span(
                old(self).selection.primary.row,
                old(self).selection.opposite.unwrap().row,
            ) * span(old(self).selection.primary.col, old(self).selection.opposite.unwrap().col)
                <= usize::MAX,
        ensures
            yank.wf(),
            match old(self).active_rect() {
                Some(rect) => yank matches Yank::Rectangle { cols, content } && cols == rect.col_count
                    && texts_of(content@) == grid_rect(old(self).csv_table@, rect),
                None => yank matches Yank::Single(value) && text_of(value) == old(
                    self,
                ).csv_table.cell(old(self).selection.primary),
            },
            *final(self) == (CsvBuffer {
                selection_yanked: Some(old(self).selection),
                selection: Selection { primary: old(self).selection.primary, opposite: None },
                ..*old(self)
            }),
    {
        let primary = self.selection.primary;
        let yank = match self.selection.opposite {
            Some(opposite) => {
                proof {
                    lemma_spans_fit(
                        span(primary.row, opposite.row),
                        span(primary.col, opposite.col),
                    );
                }
                let ghost rect = CellRect::spanning(primary, opposite);
                let cells = primary.rect_iter(opposite);
                let mut content: Vec<Option<String>> = Vec::new();
                let mut i: usize = 0;
                while i < cells.len()
                    invariant
                        i <= cells@.len(),
                        rect == CellRect::spanning(primary, opposite),
                        rect.col_count >= 1,
                        rect.top_left_cell_location.row + rect.row_count - 1 <= usize::MAX,
                        rect.top_left_cell_location.col + rect.col_count - 1 <= usize::MAX,
                        cells@.len() == rect.cell_count(),
                        forall|j: int| 0 <= j < cells@.len() ==> #[trigger] cells@[j] == rect.location_at(j),
                        content@.len() == i,
                        forall|j: int|
                            0 <= j < i ==> text_of(#[trigger] content@[j]) == grid_rect(
                                self.csv_table@,
                                rect,
                            )[j],
                    decreases cells@.len() - i,
                {
                    proof {
                        lemma_row_major_bounds(i as int, rect.row_count as int, rect.col_count as int);
                    }
                    let value = match self.csv_table.get(cells[i]) {
                        Some(s) => Some(s.to_owned()),
                        None => None,
                    };
                    content.push(value);
                    i += 1;
                }
                assert(texts_of(content@) =~= grid_rect(self.csv_table@, rect));
                let cols = primary.get_column_count(opposite);
                proof {
                    assert(rect.row_count >= 1);
                    assert(rect.row_count * rect.col_count >= rect.col_count) by (nonlinear_arith)
                        requires
                            rect.row_count >= 1,
                            rect.col_count >= 1,
                    ;
                    vstd::arithmetic::div_mod::lemma_mod_multiples_basic(
                        rect.row_count as int,
                        rect.col_count as int,
                    );
                }
                Yank::Rectangle { cols, content }
            },
            None => {
                let value = match self.csv_table.get(primary) {
                    Some(s) => Some(s.to_owned()),
                    None => None,
                };
                Yank::Single(value)
            },
        };
        self.selection_yanked = Some(self.selection);
        self.selection.opposite = None;
        yank
    }

    /// Cuts the selection: copies it as `yank` does and clears its cells.
    /// Nothing is remembered as copied, and the selection shrinks to the
    /// cursor.
    pub fn cut(&mut self) -> (yank: Yank)
        requires
            old(self).csv_table.wf(),
            selection_fits(old(self).selection),
        ensures
            final(self).csv_table.wf(),
            old(self).wf() ==> final(self).wf(),
            yank.wf(),
            match old(self).active_rect() {
                Some(rect) => {
                    &&& yank matches Yank::Rectangle { cols, content } && cols == rect.col_count
                        && texts_of(content@) == grid_rect(old(self).csv_table@, rect)
                    &&& final(self).csv_table@ == grid_set_rect(
                        old(self).csv_table@,
                        rect,
                        Seq::new(rect.cell_count() as nat, |i: int| None::<Seq<char>>),
                    )
                },
                None => {
                    &&& yank matches Yank::Single(value) && text_of(value) == old(
                        self,
                    ).csv_table.cell(old(self).selection.primary)
                    &&& final(self).csv_table@ == grid_set(
                        old(self).csv_table@,
                        old(self).selection.primary.row as int,
                        old(self).selection.primary.col as int,
                        None,
                    )
                },
            },
            final(self).csv_table.spec_delimiter() == old(self).csv_table.spec_delimiter(),
            *final(self) == (CsvBuffer {
                csv_table: final(self).csv_table,
                selection: Selection { primary: old(self).selection.primary, opposite: None },
                selection_yanked: None,
                ..*old(self)
            }),
    {
        let primary = self.selection.primary;
        let yank = match self.selection.opposite {
            Some(opposite) => {
                let rect = CellRect::from_opposite_cell_locations(primary, opposite);
                let content = self.csv_table.delete_rect(rect);
                proof {
                    assert(rect.row_count * rect.col_count >= rect.col_count) by (nonlinear_arith)
                        requires
                            rect.row_count >= 1,
                            rect.col_count >= 1,
                    ;
                    vstd::arithmetic::div_mod::lemma_mod_multiples_basic(
                        rect.row_count as int,
                        rect.col_count as int,
                    );
                    assert(texts_of(content@).len() == content@.len());
                }
                Yank::Rectangle { cols: rect.col_count, content }
            },
            None => Yank::Single(self.csv_table.delete(primary)),
        };
        self.selection_yanked = None;
        self.selection.opposite = None;
        yank
    }

    /// Pastes what was copied. A single value goes to the cell under the
    /// cursor, or to every cell of the selected rectangle. A copied rectangle
    /// is written in its own shape with the cursor as its top-left cell,
    /// whatever is selected.
    pub fn paste(&mut self, yank: &Yank)
        requires
            old(self).csv_table.wf(),
            yank.wf(),
            paste_fits(old(self).selection, *yank),
        ensures
            final(self).csv_table.wf(),
            old(self).wf() ==> final(self).wf(),
            final(self).csv_table@ == pasted(old(self).csv_table@, old(self).selection, *yank),
            final(self).csv_table.spec_delimiter() == old(self).csv_table.spec_delimiter(),
            *final(self) == (CsvBuffer { csv_table: final(self).csv_table, ..*old(self) }),
    {
        let primary = self.selection.primary;
        match yank {
            Yank::Single(single) => {
                match self.selection.opposite {
                    Some(opposite) => {
                        let rect = CellRect::from_opposite_cell_locations(primary, opposite);
                        let _ = self.csv_table.fill_rect(rect, clone_cell(single));
                    },
                    None => {
                        let _ = self.csv_table.set(primary, clone_cell(single));
                    },
                }
            },
            Yank::Rectangle { cols, content } => {
                let rect = CellRect {
                    top_left_cell_location: primary,
                    col_count: *cols,
                    row_count: content.len() / *cols,
                };
                proof {
                    vstd::arithmetic::div_mod::lemma_fundamental_div_mod(
                        content@.len() as int,
                        *cols as int,
                    );
                    assert(rect.row_count * rect.col_count == rect.col_count * rect.row_count)
                        by (nonlinear_arith);
                }
                let _ = self.csv_table.set_rect(rect, clone_cells(content));
            },
        }
    }
}


/// Number of cells from `a` to `b`, both included, where it is a
/// representable count.
fn span_of(a: usize, b: usize) -> (n: Option<usize>)
    ensures
        n is Some == (span(a, b) <= usize::MAX),
        n is Some ==> n.unwrap() == span(a, b),
{
    let between: usize = if a < b {
        b - a
    } else {
        a - b
    };
    if between < usize::MAX {
        Some(between + 1)
    } else {
        None
    }
}

/// Tells whether the rectangle between two corners can be listed cell by
/// cell.
fn corners_countable(a: CellLocation, b: CellLocation) -> (ok: bool)
    ensures
        ok == (span(a.row, b.row) * span(a.col, b.col) <= usize::MAX),
{
    match (span_of(a.row, b.row), span_of(a.col, b.col)) {
        (Some(rows), Some(cols)) => rows.checked_mul(cols).is_some(),
        (Some(rows), None) => {
            assert(span(a.row, b.row) * span(a.col, b.col) > usize::MAX) by (nonlinear_arith)
                requires
                    span(a.row, b.row) >= 1,
                    span(a.col, b.col) > usize::MAX,
            ;
            false
        },
        (None, _) => {
            assert(span(a.row, b.row) * span(a.col, b.col) > usize::MAX) by (nonlinear_arith)
                requires
                    span(a.col, b.col) >= 1,
                    span(a.row, b.row) > usize::MAX,
            ;
            false
        },
    }
}

impl CsvBuffer {
    /// Tells whether the selection can be copied: whether its cells can be
    /// counted.
    pub fn can_yank(&self) -> (ok: bool)
        ensures
            ok == (self.selection.opposite is Some ==> span(
                self.selection.primary.row,
                self.selection.opposite.unwrap().row,
            ) * span(self.selection.primary.col, self.selection.opposite.unwrap().col)
                <= usize::MAX),
    {
        match self.selection.opposite {
            Some(opposite) => corners_countable(self.selection.primary, opposite),
            None => true,
        }
    }

    /// Tells whether the selection can be cut or filled: whether a table can
    /// hold every selected cell.
    pub fn can_cut(&self) -> (ok: bool)
        ensures
            ok == selection_fits(self.selection),
    {
        let primary = self.selection.primary;
        match self.selection.opposite {
            Some(opposite) => {
                let bottom: usize = if primary.row < opposite.row {
                    opposite.row
                } else {
                    primary.row
                };
                let right: usize = if primary.col < opposite.col {
                    opposite.col
                } else {
                    primary.col
                };
                bottom < usize::MAX && right < usize::MAX && corners_countable(primary, opposite)
            },
            None => primary.row < usize::MAX && primary.col < usize::MAX,
        }
    }

    /// Tells whether `yank` can be pasted at the selection: whether it is
    /// well-formed and a table can hold every cell that the paste writes.
    pub fn can_paste(&self, yank: &Yank) -> (ok: bool)
        ensures
            ok == (yank.wf() && paste_fits(self.selection, *yank)),
    {
        match yank {
            Yank::Single(_) => self.can_cut(),
            Yank::Rectangle { cols, content } => {
                if *cols >= 1 && content.len() >= *cols && content.len() % *cols == 0 {
                    let rows: usize = content.len() / *cols;
                    proof {
                        vstd::arithmetic::div_mod::lemma_fundamental_div_mod(
                            content@.len() as int,
                            *cols as int,
                        );
                        assert(rows * *cols == *cols * rows) by (nonlinear_arith);
                        assert(rows >= 1) by (nonlinear_arith)
                            requires
                                *cols * rows == content@.len(),
                                content@.len() >= *cols,
                                *cols >= 1,
                                rows >= 0,
                        ;
                    }
                    self.selection.primary.row.checked_add(rows).is_some()
                        && self.selection.primary.col.checked_add(*cols).is_some()
                } else {
                    false
                }
            },
        }
    }
}

} // verus!
