use csvedit::history::{RedoAction, UndoAction, UndoChangeCellMode};
use csvedit::location::CellLocation;
use csvedit::rect::CellRect;
use csvedit::table::CsvTable;
use csvedit::undo::{UndoStack, Undoee, MAX_UNDO_COUNT};

fn at(row: usize, col: usize) -> CellLocation {
    CellLocation { row, col }
}

fn text(s: &str) -> Option<String> {
    Some(String::from(s))
}

fn edit(table: &mut CsvTable, stack: &mut UndoStack<CsvTable>, location: CellLocation, value: &str) {
    let from_value = table.set(location, text(value));
    stack.push(UndoAction::ChangeCell {
        mode: UndoChangeCellMode::Edit,
        cell_location: location,
        from_value,
    });
}

fn snapshot(table: &CsvTable) -> Vec<Option<String>> {
    table.get_rect_cloned(CellRect { top_left_cell_location: at(0, 0), col_count: 6, row_count: 6 })
}

#[test]
fn undo_of_an_edit_restores_the_prior_value() {
    let mut table = CsvTable::default();
    let _ = table.set(at(0, 0), text("new"));
    let redo = table.undo(UndoAction::ChangeCell {
        mode: UndoChangeCellMode::Edit,
        cell_location: at(0, 0),
        from_value: text("old"),
    });
    assert_eq!(table.get(at(0, 0)), Some("old"));
    match redo {
        RedoAction::EditCell { cell_location, to_value } => {
            assert_eq!(cell_location, at(0, 0));
            assert_eq!(to_value, text("new"));
        }
        _ => panic!("an edit is redone by an edit"),
    }
}

#[test]
fn undo_of_a_deletion_is_redone_by_a_deletion() {
    let mut table = CsvTable::default();
    let redo = table.undo(UndoAction::ChangeCell {
        mode: UndoChangeCellMode::Delete,
        cell_location: at(1, 1),
        from_value: text("was here"),
    });
    assert_eq!(table.get(at(1, 1)), Some("was here"));
    assert!(matches!(redo, RedoAction::DeleteCell { cell_location } if cell_location == at(1, 1)));
    let undo = table.redo(redo);
    assert_eq!(table.get(at(1, 1)), None);
    match undo {
        UndoAction::ChangeCell { mode, cell_location, from_value } => {
            assert_eq!(mode, UndoChangeCellMode::Delete);
            assert_eq!(cell_location, at(1, 1));
            assert_eq!(from_value, text("was here"));
        }
        _ => panic!("a cell is undone by a cell"),
    }
}

#[test]
fn redo_of_a_deletion_hands_back_a_deletion_to_undo() {
    let mut table = CsvTable::default();
    let _ = table.set(at(1, 2), text("x"));
    let undo = table.redo(RedoAction::DeleteCell { cell_location: at(1, 2) });
    assert_eq!(table.get(at(1, 2)), None);
    match undo {
        UndoAction::ChangeCell { mode, cell_location, from_value } => {
            assert_eq!(mode, UndoChangeCellMode::Delete);
            assert_eq!(cell_location, at(1, 2));
            assert_eq!(from_value, text("x"));
        }
        _ => panic!("a cell is undone by a cell"),
    }
}

#[test]
fn a_deletion_stays_a_deletion_through_undo_and_redo() {
    let mut table = CsvTable::default();
    let _ = table.set(at(0, 0), text("x"));
    let mut action = table.redo(RedoAction::DeleteCell { cell_location: at(0, 0) });
    for _ in 0..3 {
        let redo = table.undo(action);
        assert_eq!(table.get(at(0, 0)), Some("x"));
        assert!(matches!(redo, RedoAction::DeleteCell { cell_location } if cell_location == at(0, 0)));
        action = table.redo(redo);
        assert_eq!(table.get(at(0, 0)), None);
        assert!(matches!(
            action,
            UndoAction::ChangeCell { mode: UndoChangeCellMode::Delete, .. }
        ));
    }
}

#[test]
fn an_edit_stays_an_edit_through_undo_and_redo() {
    let mut table = CsvTable::default();
    let _ = table.set(at(0, 0), text("old"));
    let mut action = table.redo(RedoAction::EditCell {
        cell_location: at(0, 0),
        to_value: text("new"),
    });
    for _ in 0..3 {
        assert!(matches!(
            action,
            UndoAction::ChangeCell { mode: UndoChangeCellMode::Edit, .. }
        ));
        let redo = table.undo(action);
        assert_eq!(table.get(at(0, 0)), Some("old"));
        match &redo {
            RedoAction::EditCell { cell_location, to_value } => {
                assert_eq!(*cell_location, at(0, 0));
                assert_eq!(*to_value, text("new"));
            }
            _ => panic!("an edit is redone by an edit"),
        }
        action = table.redo(redo);
        assert_eq!(table.get(at(0, 0)), Some("new"));
    }
}

#[test]
fn undo_and_redo_of_a_rectangle() {
    let rect = CellRect { top_left_cell_location: at(0, 0), col_count: 2, row_count: 2 };
    let mut table = CsvTable::default();
    let from_values = table.set_rect(rect, vec![text("a"), text("b"), text("c"), text("d")]);
    let redo = table.undo(UndoAction::ChangeCells {
        mode: UndoChangeCellMode::Edit,
        rect,
        from_values,
    });
    assert!(table.is_empty());
    let undo = table.redo(redo);
    assert_eq!(
        table.get_rect(rect),
        vec![Some("a"), Some("b"), Some("c"), Some("d")]
    );
    match undo {
        UndoAction::ChangeCells { mode, rect: r, from_values } => {
            assert_eq!(mode, UndoChangeCellMode::Edit);
            assert_eq!(r, rect);
            assert_eq!(from_values, vec![None, None, None, None]);
        }
        _ => panic!("cells are undone by cells"),
    }
}

#[test]
fn undo_of_a_rectangle_deletion_is_redone_by_a_deletion() {
    let rect = CellRect { top_left_cell_location: at(1, 0), col_count: 2, row_count: 1 };
    let mut table = CsvTable::default();
    let _ = table.set_rect(rect, vec![text("a"), text("b")]);
    let from_values = table.delete_rect(rect);
    let redo = table.undo(UndoAction::ChangeCells {
        mode: UndoChangeCellMode::Delete,
        rect,
        from_values,
    });
    assert_eq!(table.get_rect(rect), vec![Some("a"), Some("b")]);
    assert!(matches!(redo, RedoAction::DeleteCells { rect: r } if r == rect));
    let undo = table.redo(redo);
    assert!(table.is_empty());
    match undo {
        UndoAction::ChangeCells { mode, rect: r, from_values } => {
            assert_eq!(mode, UndoChangeCellMode::Delete);
            assert_eq!(r, rect);
            assert_eq!(from_values, vec![text("a"), text("b")]);
        }
        _ => panic!("cells are undone by cells"),
    }
}

#[test]
fn empty_stacks_do_nothing() {
    let mut table = CsvTable::default();
    let _ = table.set(at(0, 0), text("x"));
    let mut stack: UndoStack<CsvTable> = UndoStack::new();
    stack.undo(&mut table);
    stack.redo(&mut table);
    assert_eq!(table.get(at(0, 0)), Some("x"));
}

#[test]
fn undo_k_times_then_redo_k_times_restores_the_table() {
    let mut table = CsvTable::default();
    let mut stack: UndoStack<CsvTable> = UndoStack::new();
    edit(&mut table, &mut stack, at(0, 0), "a");
    edit(&mut table, &mut stack, at(1, 1), "b");
    edit(&mut table, &mut stack, at(0, 0), "c");
    edit(&mut table, &mut stack, at(2, 3), "d");
    let from_value = table.delete(at(1, 1));
    stack.push(UndoAction::ChangeCell {
        mode: UndoChangeCellMode::Delete,
        cell_location: at(1, 1),
        from_value,
    });
    let now = snapshot(&table);
    for k in 1..=5 {
        for _ in 0..k {
            stack.undo(&mut table);
        }
        if k == 5 {
            assert!(table.is_empty());
        }
        for _ in 0..k {
            stack.redo(&mut table);
        }
        assert_eq!(snapshot(&table), now);
    }
}

#[test]
fn undo_steps_back_one_action_at_a_time() {
    let mut table = CsvTable::default();
    let mut stack: UndoStack<CsvTable> = UndoStack::new();
    edit(&mut table, &mut stack, at(0, 0), "a");
    edit(&mut table, &mut stack, at(0, 0), "b");
    stack.undo(&mut table);
    assert_eq!(table.get(at(0, 0)), Some("a"));
    stack.undo(&mut table);
    assert_eq!(table.get(at(0, 0)), None);
    stack.undo(&mut table);
    assert_eq!(table.get(at(0, 0)), None);
    stack.redo(&mut table);
    assert_eq!(table.get(at(0, 0)), Some("a"));
    stack.redo(&mut table);
    assert_eq!(table.get(at(0, 0)), Some("b"));
    stack.redo(&mut table);
    assert_eq!(table.get(at(0, 0)), Some("b"));
}

#[test]
fn push_clears_what_could_be_redone() {
    let mut table = CsvTable::default();
    let mut stack: UndoStack<CsvTable> = UndoStack::new();
    edit(&mut table, &mut stack, at(0, 0), "a");
    stack.undo(&mut table);
    assert_eq!(table.get(at(0, 0)), None);
    edit(&mut table, &mut stack, at(1, 0), "b");
    stack.redo(&mut table);
    assert_eq!(table.get(at(0, 0)), None);
    assert_eq!(table.get(at(1, 0)), Some("b"));
}

#[test]
fn push_beyond_the_bound_drops_the_oldest_action() {
    assert_eq!(MAX_UNDO_COUNT, 512);
    let mut table = CsvTable::default();
    let mut stack: UndoStack<CsvTable> = UndoStack::new();
    for row in 0..MAX_UNDO_COUNT + 1 {
        edit(&mut table, &mut stack, at(row, 0), "x");
    }
    for _ in 0..MAX_UNDO_COUNT + 10 {
        stack.undo(&mut table);
    }
    assert_eq!(table.get(at(0, 0)), Some("x"));
    for row in 1..MAX_UNDO_COUNT + 1 {
        assert_eq!(table.get(at(row, 0)), None);
    }
    for _ in 0..MAX_UNDO_COUNT + 10 {
        stack.redo(&mut table);
    }
    for row in 0..MAX_UNDO_COUNT + 1 {
        assert_eq!(table.get(at(row, 0)), Some("x"));
    }
}

#[test]
fn a_deletion_that_was_not_recorded_from_the_table_is_not_restored() {
    let mut table = CsvTable::default();
    let _ = table.set(at(0, 0), text("y"));
    let mut stack: UndoStack<CsvTable> = UndoStack::new();
    stack.push(UndoAction::ChangeCell {
        mode: UndoChangeCellMode::Delete,
        cell_location: at(0, 0),
        from_value: text("x"),
    });
    stack.undo(&mut table);
    assert_eq!(table.get(at(0, 0)), Some("x"));
    stack.redo(&mut table);
    assert_eq!(table.get(at(0, 0)), None);
}
