use csvedit::buffer::{hash_table, CsvBuffer, Selection, Yank};
use csvedit::codec::{LoadError, SaveError};
use csvedit::history::{UndoAction, UndoChangeCellMode};
use csvedit::location::{CellLocation, MoveDirection};
use csvedit::table::CsvTable;
use std::path::PathBuf;

fn at(row: usize, col: usize) -> CellLocation {
    CellLocation { row, col }
}

fn text(s: &str) -> Option<String> {
    Some(String::from(s))
}

#[test]
fn default_buffer_has_the_usual_settings() {
    let buffer = CsvBuffer::default();
    assert_eq!(buffer.visible_cols, 5);
    assert_eq!(buffer.visible_rows, 20);
    assert_eq!(buffer.cell_height_wanted, 1);
    assert_eq!(buffer.cell_width_wanted, 25);
    assert_eq!(buffer.cell_height, 0);
    assert_eq!(buffer.cell_width, 0);
    assert_eq!(buffer.top_left_cell_location, at(0, 0));
    assert_eq!(buffer.selection, Selection::default());
    assert_eq!(buffer.selection.primary, at(0, 0));
    assert_eq!(buffer.selection.opposite, None);
    assert_eq!(buffer.selection_yanked, None);
    assert_eq!(buffer.file, None);
    assert_eq!(buffer.saved_hash, None);
    assert!(buffer.is_empty());
    assert!(!buffer.is_dirty());
}

#[test]
fn moving_inside_the_margins_does_not_scroll() {
    let mut buffer = CsvBuffer::default();
    buffer.move_selection_to(at(5, 2));
    buffer.top_left_cell_location = at(0, 0);
    buffer.move_selection(MoveDirection::Down, 3);
    assert_eq!(buffer.selection.primary, at(8, 2));
    assert_eq!(buffer.top_left_cell_location, at(0, 0));
}

#[test]
fn moving_down_scrolls_to_keep_the_margin() {
    let mut buffer = CsvBuffer::default();
    buffer.move_selection(MoveDirection::Down, 18);
    assert_eq!(buffer.selection.primary, at(18, 0));
    assert_eq!(buffer.top_left_cell_location, at(1, 0));
    buffer.move_selection(MoveDirection::Down, 30);
    assert_eq!(buffer.selection.primary, at(48, 0));
    assert_eq!(buffer.top_left_cell_location, at(31, 0));
}

#[test]
fn moving_right_scrolls_to_keep_the_margin() {
    let mut buffer = CsvBuffer::default();
    buffer.move_selection(MoveDirection::Right, 3);
    assert_eq!(buffer.top_left_cell_location, at(0, 0));
    buffer.move_selection(MoveDirection::Right, 1);
    assert_eq!(buffer.selection.primary, at(0, 4));
    assert_eq!(buffer.top_left_cell_location, at(0, 1));
}

#[test]
fn moving_back_scrolls_back_and_stops_at_the_origin() {
    let mut buffer = CsvBuffer::default();
    buffer.move_selection_to(at(100, 50));
    assert_eq!(buffer.top_left_cell_location, at(83, 47));
    buffer.move_selection(MoveDirection::Up, 20);
    assert_eq!(buffer.selection.primary, at(80, 50));
    assert_eq!(buffer.top_left_cell_location, at(78, 47));
    buffer.move_selection(MoveDirection::Left, 4);
    assert_eq!(buffer.selection.primary, at(80, 46));
    assert_eq!(buffer.top_left_cell_location, at(78, 45));
    buffer.move_selection(MoveDirection::Up, 500);
    buffer.move_selection(MoveDirection::Left, 500);
    assert_eq!(buffer.selection.primary, at(0, 0));
    assert_eq!(buffer.top_left_cell_location, at(0, 0));
}

#[test]
fn margin_is_a_rounded_tenth_and_at_least_one() {
    let mut buffer = CsvBuffer::default();
    buffer.visible_rows = 15;
    buffer.visible_cols = 4;
    buffer.move_selection_to(at(13, 3));
    assert_eq!(buffer.top_left_cell_location, at(1, 1));
    buffer.visible_rows = 14;
    buffer.top_left_cell_location = at(0, 0);
    buffer.move_selection_to(at(13, 0));
    assert_eq!(buffer.top_left_cell_location, at(1, 0));
    buffer.visible_rows = 100;
    buffer.top_left_cell_location = at(0, 0);
    buffer.move_selection_to(at(90, 0));
    assert_eq!(buffer.top_left_cell_location, at(1, 0));
    buffer.move_selection_to(at(9, 0));
    assert_eq!(buffer.top_left_cell_location, at(0, 0));
}

#[test]
fn move_view_leaves_the_cursor() {
    let mut buffer = CsvBuffer::default();
    buffer.move_selection_to(at(3, 3));
    buffer.move_view(MoveDirection::Down, 7);
    buffer.move_view(MoveDirection::Right, 2);
    assert_eq!(buffer.top_left_cell_location, at(7, 2));
    assert_eq!(buffer.selection.primary, at(3, 3));
    buffer.move_view(MoveDirection::Up, 100);
    assert_eq!(buffer.top_left_cell_location, at(0, 2));
    buffer.move_view_to(at(9, 9));
    assert_eq!(buffer.top_left_cell_location, at(9, 9));
}

#[test]
fn center_puts_the_cursor_in_the_middle() {
    let mut buffer = CsvBuffer::default();
    buffer.selection.primary = at(50, 10);
    buffer.center_primary_selection();
    assert_eq!(buffer.top_left_cell_location, at(40, 8));
    buffer.selection.primary = at(3, 1);
    buffer.center_primary_selection();
    assert_eq!(buffer.top_left_cell_location, at(0, 0));
}

#[test]
fn dimensions_follow_the_space() {
    let mut buffer = CsvBuffer::default();
    buffer.recalculate_dimensions(80, 24);
    assert_eq!(buffer.visible_cols, 3);
    assert_eq!(buffer.cell_width, 30);
    assert_eq!(buffer.visible_rows, 24);
    assert_eq!(buffer.cell_height, 1);
}

#[test]
fn dimensions_with_too_little_space() {
    let mut buffer = CsvBuffer::default();
    buffer.recalculate_dimensions(10, 0);
    assert_eq!(buffer.visible_cols, 1);
    assert_eq!(buffer.cell_width, 10);
    assert_eq!(buffer.visible_rows, 0);
    assert_eq!(buffer.cell_height, 0);
    buffer.recalculate_dimensions(0, 5);
    assert_eq!(buffer.visible_cols, 0);
    assert_eq!(buffer.cell_width, 0);
    assert_eq!(buffer.visible_rows, 5);
}

#[test]
fn yank_of_one_cell() {
    let mut buffer = CsvBuffer::default();
    let _ = buffer.csv_table.set(at(1, 1), text("x"));
    buffer.selection.primary = at(1, 1);
    match buffer.yank() {
        Yank::Single(value) => assert_eq!(value, text("x")),
        _ => panic!("one cell is copied as one value"),
    }
    assert_eq!(
        buffer.selection_yanked,
        Some(Selection { primary: at(1, 1), opposite: None })
    );
    assert_eq!(buffer.csv_table.get(at(1, 1)), Some("x"));
}

#[test]
fn yank_rectangle_then_paste_elsewhere() {
    let mut buffer = CsvBuffer::default();
    let _ = buffer.csv_table.set(at(0, 0), text("a"));
    let _ = buffer.csv_table.set(at(0, 1), text("b"));
    let _ = buffer.csv_table.set(at(1, 0), text("c"));
    let _ = buffer.csv_table.set(at(1, 1), text("d"));
    buffer.selection = Selection { primary: at(1, 1), opposite: Some(at(0, 0)) };
    let yank = buffer.yank();
    match &yank {
        Yank::Rectangle { cols, content } => {
            assert_eq!(*cols, 2);
            assert_eq!(content, &vec![text("a"), text("b"), text("c"), text("d")]);
        }
        _ => panic!("a rectangle is copied as a rectangle"),
    }
    assert_eq!(
        buffer.selection_yanked,
        Some(Selection { primary: at(1, 1), opposite: Some(at(0, 0)) })
    );
    assert_eq!(buffer.selection, Selection { primary: at(1, 1), opposite: None });
    buffer.move_selection_to(at(10, 10));
    buffer.paste(&yank);
    assert_eq!(buffer.csv_table.get(at(10, 10)), Some("a"));
    assert_eq!(buffer.csv_table.get(at(10, 11)), Some("b"));
    assert_eq!(buffer.csv_table.get(at(11, 10)), Some("c"));
    assert_eq!(buffer.csv_table.get(at(11, 11)), Some("d"));
    let mut count = 0;
    for row in 0..20 {
        for col in 0..20 {
            if buffer.csv_table.get(at(row, col)).is_some() {
                count += 1;
            }
        }
    }
    assert_eq!(count, 8);
}

#[test]
fn paste_of_a_rectangle_ignores_the_selected_shape() {
    let mut buffer = CsvBuffer::default();
    let yank = Yank::Rectangle { cols: 2, content: vec![text("a"), text("b"), None, text("d")] };
    let _ = buffer.csv_table.set(at(3, 3), text("old"));
    buffer.selection = Selection { primary: at(2, 2), opposite: Some(at(2, 5)) };
    buffer.paste(&yank);
    assert_eq!(buffer.csv_table.get(at(2, 2)), Some("a"));
    assert_eq!(buffer.csv_table.get(at(2, 3)), Some("b"));
    assert_eq!(buffer.csv_table.get(at(3, 2)), None);
    assert_eq!(buffer.csv_table.get(at(3, 3)), Some("d"));
    assert_eq!(buffer.csv_table.get(at(2, 4)), None);
    assert_eq!(buffer.csv_table.get(at(2, 5)), None);
    assert_eq!(buffer.selection, Selection { primary: at(2, 2), opposite: Some(at(2, 5)) });
}

#[test]
fn paste_of_one_value_fills_the_selection() {
    let mut buffer = CsvBuffer::default();
    let yank = Yank::Single(text("v"));
    buffer.selection = Selection { primary: at(1, 2), opposite: Some(at(2, 1)) };
    buffer.paste(&yank);
    for (row, col) in [(1, 1), (1, 2), (2, 1), (2, 2)] {
        assert_eq!(buffer.csv_table.get(at(row, col)), Some("v"));
    }
    assert_eq!(buffer.csv_table.get(at(0, 0)), None);
    buffer.selection = Selection { primary: at(5, 5), opposite: None };
    buffer.paste(&yank);
    assert_eq!(buffer.csv_table.get(at(5, 5)), Some("v"));
    buffer.paste(&Yank::Single(None));
    assert_eq!(buffer.csv_table.get(at(5, 5)), None);
}

#[test]
fn cut_copies_and_clears() {
    let mut buffer = CsvBuffer::default();
    let _ = buffer.csv_table.set(at(0, 0), text("a"));
    let _ = buffer.csv_table.set(at(0, 1), text("b"));
    buffer.selection_yanked = Some(Selection::default());
    buffer.selection = Selection { primary: at(0, 1), opposite: Some(at(0, 0)) };
    match buffer.cut() {
        Yank::Rectangle { cols, content } => {
            assert_eq!(cols, 2);
            assert_eq!(content, vec![text("a"), text("b")]);
        }
        _ => panic!("a rectangle is cut as a rectangle"),
    }
    assert!(buffer.is_empty());
    assert_eq!(buffer.selection_yanked, None);
    assert_eq!(buffer.selection, Selection { primary: at(0, 1), opposite: None });
    let _ = buffer.csv_table.set(at(0, 1), text("z"));
    match buffer.cut() {
        Yank::Single(value) => assert_eq!(value, text("z")),
        _ => panic!("one cell is cut as one value"),
    }
    assert!(buffer.is_empty());
}

#[test]
fn buffer_undo_and_redo_act_on_its_table() {
    let mut buffer = CsvBuffer::default();
    let from_value = buffer.csv_table.set(at(0, 0), text("a"));
    buffer.undo_stack.push(UndoAction::ChangeCell {
        mode: UndoChangeCellMode::Edit,
        cell_location: at(0, 0),
        from_value,
    });
    buffer.undo();
    assert!(buffer.is_empty());
    buffer.undo();
    assert!(buffer.is_empty());
    buffer.redo();
    assert_eq!(buffer.csv_table.get(at(0, 0)), Some("a"));
    buffer.redo();
    assert_eq!(buffer.csv_table.get(at(0, 0)), Some("a"));
}

#[test]
fn unsaved_buffer_is_dirty_once_it_holds_text() {
    let mut buffer = CsvBuffer::default();
    assert!(!buffer.is_dirty());
    let _ = buffer.csv_table.set(at(3, 3), None);
    assert!(!buffer.is_dirty());
    let _ = buffer.csv_table.set(at(0, 0), text("a"));
    assert!(buffer.is_dirty());
}

#[test]
fn loaded_buffer_is_dirty_after_a_change_only() {
    let mut buffer =
        CsvBuffer::load(b"a,b\nc,d\n", Some(PathBuf::from("data.csv")), None).unwrap();
    assert_eq!(buffer.file, Some(PathBuf::from("data.csv")));
    assert_eq!(buffer.saved_hash, Some(hash_table(&buffer.csv_table)));
    assert!(!buffer.is_dirty());
    let _ = buffer.csv_table.set(at(0, 0), text("z"));
    assert!(buffer.is_dirty());
    let _ = buffer.csv_table.set(at(0, 0), text("a"));
    assert!(!buffer.is_dirty());
    let _ = buffer.csv_table.set(at(9, 9), None);
    assert!(!buffer.is_dirty());
}

#[test]
fn buffer_loaded_without_a_path_counts_as_unsaved() {
    let buffer = CsvBuffer::load(b"a\n", None, Some(b';')).unwrap();
    assert_eq!(buffer.file, None);
    assert_eq!(buffer.saved_hash, None);
    assert_eq!(buffer.csv_table.delimiter, Some(b';'));
    assert!(buffer.is_dirty());
    assert_eq!(buffer.visible_rows, 20);
}

#[test]
fn buffer_load_passes_on_the_error() {
    let result = CsvBuffer::load(b"a,b\nc\n", None, None);
    assert!(matches!(result, Err(LoadError::MalformedRecord(_))));
}

#[test]
fn hash_changed_compares() {
    assert!(CsvBuffer::hash_changed(1, 2));
    assert!(!CsvBuffer::hash_changed(7, 7));
}

#[test]
fn save_destination_prefers_the_given_path() {
    let mut buffer = CsvBuffer::default();
    assert!(matches!(buffer.save_destination(None), Err(SaveError::NoDestination)));
    assert_eq!(
        buffer.save_destination(Some(PathBuf::from("new.csv"))).unwrap(),
        PathBuf::from("new.csv")
    );
    buffer.file = Some(PathBuf::from("old.csv"));
    assert_eq!(buffer.save_destination(None).unwrap(), PathBuf::from("old.csv"));
    assert_eq!(
        buffer.save_destination(Some(PathBuf::from("new.csv"))).unwrap(),
        PathBuf::from("new.csv")
    );
}

#[test]
fn check_destination_decides_about_creation() {
    assert!(matches!(CsvBuffer::check_destination(true, false, false), Ok(false)));
    assert!(matches!(CsvBuffer::check_destination(true, true, true), Ok(false)));
    assert!(matches!(CsvBuffer::check_destination(false, true, true), Ok(true)));
    assert!(matches!(
        CsvBuffer::check_destination(false, true, false),
        Err(SaveError::InvalidParentPath)
    ));
    assert!(matches!(
        CsvBuffer::check_destination(false, false, true),
        Err(SaveError::DestinationMissingAndCreationNotRequested)
    ));
}

#[test]
fn encode_then_mark_saved_makes_the_buffer_clean() {
    let mut buffer = CsvBuffer::default();
    let _ = buffer.csv_table.set(at(0, 0), text("A"));
    let _ = buffer.csv_table.set(at(1, 1), text("B"));
    assert!(buffer.is_dirty());
    let bytes = buffer.encode().unwrap();
    assert_eq!(bytes, b"A,\n,B\n".to_vec());
    buffer.mark_saved(PathBuf::from("out.csv"));
    assert_eq!(buffer.file, Some(PathBuf::from("out.csv")));
    assert!(!buffer.is_dirty());
    let _ = buffer.csv_table.set(at(1, 1), None);
    assert!(buffer.is_dirty());
}

#[test]
fn hash_of_a_table_is_its_content_hash() {
    let mut table = CsvTable::default();
    let _ = table.set(at(0, 0), text("a"));
    assert_eq!(hash_table(&table), table.content_hash());
}

#[test]
fn can_yank_asks_for_a_countable_selection() {
    let mut buffer = CsvBuffer::default();
    assert!(buffer.can_yank());
    buffer.selection = Selection { primary: at(usize::MAX, usize::MAX), opposite: None };
    assert!(buffer.can_yank());
    buffer.selection = Selection { primary: at(0, 5), opposite: Some(at(usize::MAX, 5)) };
    assert!(!buffer.can_yank());
    buffer.selection = Selection { primary: at(1, 5), opposite: Some(at(usize::MAX, 5)) };
    assert!(buffer.can_yank());
    buffer.selection = Selection { primary: at(1, 5), opposite: Some(at(usize::MAX, 6)) };
    assert!(!buffer.can_yank());
    buffer.selection = Selection { primary: at(3, 9), opposite: Some(at(7, 2)) };
    assert!(buffer.can_yank());
}

#[test]
fn can_cut_asks_for_cells_that_a_table_can_hold() {
    let mut buffer = CsvBuffer::default();
    assert!(buffer.can_cut());
    buffer.selection = Selection { primary: at(usize::MAX, 0), opposite: None };
    assert!(!buffer.can_cut());
    buffer.selection = Selection { primary: at(0, usize::MAX), opposite: None };
    assert!(!buffer.can_cut());
    buffer.selection = Selection { primary: at(usize::MAX - 1, 4), opposite: Some(at(2, 4)) };
    assert!(buffer.can_cut());
    buffer.selection = Selection { primary: at(2, 4), opposite: Some(at(usize::MAX, 4)) };
    assert!(!buffer.can_cut());
    buffer.selection = Selection { primary: at(3, 9), opposite: Some(at(7, 2)) };
    assert!(buffer.can_cut());
}

#[test]
fn can_paste_asks_for_whole_rows_that_fit() {
    let mut buffer = CsvBuffer::default();
    let pair = Yank::Rectangle { cols: 2, content: vec![text("a"), None] };
    assert!(buffer.can_paste(&pair));
    assert!(buffer.can_paste(&Yank::Single(None)));
    assert!(!buffer.can_paste(&Yank::Rectangle { cols: 0, content: vec![] }));
    assert!(!buffer.can_paste(&Yank::Rectangle { cols: 2, content: vec![None] }));
    assert!(!buffer.can_paste(&Yank::Rectangle { cols: 2, content: vec![None, None, None] }));
    assert!(!buffer.can_paste(&Yank::Rectangle { cols: 1, content: vec![] }));
    buffer.selection = Selection { primary: at(usize::MAX - 1, usize::MAX - 2), opposite: None };
    assert!(buffer.can_paste(&pair));
    buffer.selection = Selection { primary: at(usize::MAX - 1, usize::MAX - 1), opposite: None };
    assert!(!buffer.can_paste(&pair));
    assert!(buffer.can_paste(&Yank::Single(None)));
    buffer.selection = Selection { primary: at(usize::MAX, 0), opposite: None };
    assert!(!buffer.can_paste(&pair));
    assert!(!buffer.can_paste(&Yank::Single(None)));
    buffer.selection = Selection { primary: at(usize::MAX, 0), opposite: Some(at(0, 0)) };
    assert!(!buffer.can_paste(&Yank::Single(None)));
}

#[test]
fn save_destination_keeps_the_path_as_it_is() {
    let mut buffer = CsvBuffer::default();
    let path = PathBuf::from("some dir/ünï çödé/tab le.csv");
    buffer.mark_saved(path.clone());
    assert_eq!(buffer.file, Some(path.clone()));
    assert_eq!(buffer.save_destination(None).unwrap(), path);
    assert_eq!(buffer.file, Some(path));
}
