use csvedit::codec::LoadError;
use csvedit::location::CellLocation;
use csvedit::rect::CellRect;
use csvedit::table::CsvTable;

fn at(row: usize, col: usize) -> CellLocation {
    CellLocation { row, col }
}

fn text(s: &str) -> Option<String> {
    Some(String::from(s))
}

fn rect(row: usize, col: usize, rows: usize, cols: usize) -> CellRect {
    CellRect { top_left_cell_location: at(row, col), col_count: cols, row_count: rows }
}

fn records(table: &CsvTable) -> Vec<Vec<String>> {
    table.to_records()
}

#[test]
fn empty_table_reads_as_nothing() {
    let table = CsvTable::default();
    assert_eq!(table.get(at(0, 0)), None);
    assert_eq!(table.get(at(100, 100)), None);
    assert!(table.is_empty());
    assert_eq!(table.delimiter, None);
    assert!(records(&table).is_empty());
}

#[test]
fn set_returns_what_the_cell_held() {
    let mut table = CsvTable::default();
    assert_eq!(table.set(at(1, 2), text("x")), None);
    assert_eq!(table.get(at(1, 2)), Some("x"));
    assert_eq!(table.set(at(1, 2), text("y")), text("x"));
    assert_eq!(table.get(at(1, 2)), Some("y"));
    assert!(!table.is_empty());
}

#[test]
fn set_grows_only_as_far_as_needed() {
    let mut table = CsvTable::default();
    let _ = table.set(at(2, 1), text("x"));
    assert_eq!(
        records(&table),
        vec![vec![], vec![], vec![String::new(), String::from("x")]]
    );
    let _ = table.set(at(0, 0), text("a"));
    assert_eq!(
        records(&table),
        vec![vec![String::from("a")], vec![], vec![String::new(), String::from("x")]]
    );
}

#[test]
fn set_none_then_get_is_none() {
    let mut table = CsvTable::default();
    let _ = table.set(at(0, 0), text("x"));
    assert_eq!(table.set(at(0, 0), None), text("x"));
    assert_eq!(table.get(at(0, 0)), None);
    assert!(table.is_empty());
}

#[test]
fn set_empty_text_clears_the_cell() {
    let mut a = CsvTable::default();
    let mut b = CsvTable::default();
    let _ = a.set(at(1, 1), text("x"));
    let _ = b.set(at(1, 1), text("x"));
    assert_eq!(a.set(at(1, 1), text("")), text("x"));
    assert_eq!(b.set(at(1, 1), None), text("x"));
    assert_eq!(a.get(at(1, 1)), None);
    assert_eq!(records(&a), records(&b));
    assert_eq!(a.set(at(1, 1), text("z")), None);
}

#[test]
fn delete_clears_and_returns() {
    let mut table = CsvTable::default();
    let _ = table.set(at(0, 1), text("x"));
    assert_eq!(table.delete(at(0, 1)), text("x"));
    assert_eq!(table.delete(at(0, 1)), None);
    assert_eq!(table.get(at(0, 1)), None);
    assert_eq!(table.delete(at(3, 0)), None);
    assert_eq!(records(&table).len(), 4);
}

#[test]
fn get_rect_reads_row_by_row_without_growing() {
    let mut table = CsvTable::default();
    let _ = table.set(at(0, 0), text("a"));
    let _ = table.set(at(0, 1), text("b"));
    let _ = table.set(at(1, 0), text("c"));
    let cells = table.get_rect(rect(0, 0, 2, 3));
    assert_eq!(cells, vec![Some("a"), Some("b"), None, Some("c"), None, None]);
    let cloned = table.get_rect_cloned(rect(0, 1, 3, 1));
    assert_eq!(cloned, vec![text("b"), None, None]);
    assert_eq!(records(&table).len(), 2);
    assert!(table.get_rect(rect(0, 0, 0, 5)).is_empty());
}

#[test]
fn set_rect_writes_and_returns_previous_values() {
    let mut table = CsvTable::default();
    let _ = table.set(at(1, 1), text("old"));
    let previous = table.set_rect(
        rect(1, 1, 2, 2),
        vec![text("a"), text(""), None, text("d")],
    );
    assert_eq!(previous, vec![text("old"), None, None, None]);
    assert_eq!(table.get(at(1, 1)), Some("a"));
    assert_eq!(table.get(at(1, 2)), None);
    assert_eq!(table.get(at(2, 1)), None);
    assert_eq!(table.get(at(2, 2)), Some("d"));
    assert_eq!(
        records(&table),
        vec![
            vec![],
            vec![String::new(), String::from("a"), String::new()],
            vec![String::new(), String::new(), String::from("d")],
        ]
    );
}

#[test]
fn set_rect_ignores_values_beyond_the_rectangle() {
    let mut table = CsvTable::default();
    let previous = table.set_rect(rect(0, 0, 1, 2), vec![text("a"), text("b"), text("c")]);
    assert_eq!(previous, vec![None, None]);
    assert_eq!(records(&table), vec![vec![String::from("a"), String::from("b")]]);
}

#[test]
fn fill_rect_repeats_one_value() {
    let mut table = CsvTable::default();
    let _ = table.set(at(0, 1), text("x"));
    let previous = table.fill_rect(rect(0, 0, 2, 2), text("f"));
    assert_eq!(previous, vec![None, text("x"), None, None]);
    assert_eq!(
        records(&table),
        vec![
            vec![String::from("f"), String::from("f")],
            vec![String::from("f"), String::from("f")],
        ]
    );
}

#[test]
fn delete_rect_clears_every_cell() {
    let mut table = CsvTable::default();
    let _ = table.fill_rect(rect(0, 0, 2, 2), text("f"));
    let previous = table.delete_rect(rect(0, 1, 2, 1));
    assert_eq!(previous, vec![text("f"), text("f")]);
    assert_eq!(table.get(at(0, 1)), None);
    assert_eq!(table.get(at(1, 1)), None);
    assert_eq!(table.get(at(0, 0)), Some("f"));
    assert_eq!(table.get(at(1, 0)), Some("f"));
}

#[test]
fn normalize_gives_the_rectangle_of_the_text() {
    let mut table = CsvTable::default();
    let _ = table.set(at(0, 0), text("A"));
    let _ = table.set(at(1, 1), text("B"));
    table.normalize();
    assert_eq!(
        records(&table),
        vec![
            vec![String::from("A"), String::new()],
            vec![String::new(), String::from("B")],
        ]
    );
}

#[test]
fn normalize_trims_rows_and_columns_without_text() {
    let mut table = CsvTable::default();
    let _ = table.set(at(0, 1), text("x"));
    let _ = table.set(at(4, 6), text("gone"));
    let _ = table.delete(at(4, 6));
    table.normalize();
    assert_eq!(records(&table), vec![vec![String::new(), String::from("x")]]);
    assert_eq!(table.get(at(0, 1)), Some("x"));
}

#[test]
fn normalize_twice_is_normalize_once() {
    let mut table = CsvTable::default();
    let _ = table.set(at(2, 0), text("x"));
    let _ = table.set(at(0, 3), text("y"));
    let _ = table.set(at(5, 5), None);
    table.normalize();
    let once = records(&table);
    table.normalize();
    assert_eq!(records(&table), once);
    assert_eq!(once.len(), 3);
    assert_eq!(once[1], vec![String::new(); 4]);
}

#[test]
fn normalize_of_rows_without_text_leaves_one_cell() {
    let mut table = CsvTable::default();
    let _ = table.set(at(3, 3), None);
    table.normalize();
    assert_eq!(records(&table), vec![vec![String::new()]]);
    let mut empty = CsvTable::default();
    empty.normalize();
    assert!(records(&empty).is_empty());
}

#[test]
fn is_empty_looks_at_text_only() {
    let mut table = CsvTable::default();
    let _ = table.set(at(3, 3), None);
    assert!(table.is_empty());
    let _ = table.set(at(1, 0), text("x"));
    assert!(!table.is_empty());
}

#[test]
fn load_reads_records_as_rows() {
    let table = CsvTable::load(b"a,b\n,d\n", None).unwrap();
    assert_eq!(table.get(at(0, 0)), Some("a"));
    assert_eq!(table.get(at(0, 1)), Some("b"));
    assert_eq!(table.get(at(1, 0)), None);
    assert_eq!(table.get(at(1, 1)), Some("d"));
    assert_eq!(table.get(at(2, 0)), None);
    assert_eq!(table.delimiter, None);
}

#[test]
fn load_keeps_the_first_record() {
    let table = CsvTable::load(b"name\nvalue\n", None).unwrap();
    assert_eq!(table.get(at(0, 0)), Some("name"));
    assert_eq!(table.get(at(1, 0)), Some("value"));
}

#[test]
fn load_with_a_delimiter() {
    let table = CsvTable::load(b"a;b,c\n\"x;y\";z\n", Some(b';')).unwrap();
    assert_eq!(table.get(at(0, 0)), Some("a"));
    assert_eq!(table.get(at(0, 1)), Some("b,c"));
    assert_eq!(table.get(at(1, 0)), Some("x;y"));
    assert_eq!(table.get(at(1, 1)), Some("z"));
    assert_eq!(table.delimiter, Some(b';'));
}

#[test]
fn load_rejects_records_of_unequal_length() {
    let result = CsvTable::load(b"a,b\nc\n", None);
    assert!(matches!(result, Err(LoadError::MalformedRecord(_))));
}

#[test]
fn load_rejects_text_that_is_not_utf8() {
    let result = CsvTable::load(&[b'a', b',', 0xff, b'\n'], None);
    assert!(matches!(result, Err(LoadError::MalformedRecord(_))));
}

#[test]
fn from_records_maps_empty_fields_to_nothing() {
    let table = CsvTable::from_records(
        vec![vec![String::from("a"), String::new()], vec![]],
        Some(b'\t'),
    );
    assert_eq!(table.get(at(0, 0)), Some("a"));
    assert_eq!(table.get(at(0, 1)), None);
    assert_eq!(table.delimiter, Some(b'\t'));
    assert_eq!(records(&table), vec![vec![String::from("a"), String::new()], vec![]]);
}

#[test]
fn save_normalizes_and_encodes() {
    let mut table = CsvTable::default();
    let _ = table.set(at(0, 0), text("A"));
    let _ = table.set(at(1, 1), text("B"));
    let _ = table.set(at(5, 5), None);
    let bytes = table.normalize_and_save().unwrap();
    assert_eq!(bytes, b"A,\n,B\n".to_vec());
    assert_eq!(records(&table).len(), 2);
}

#[test]
fn save_uses_the_delimiter_and_quotes_where_needed() {
    let mut table = CsvTable::default();
    table.delimiter = Some(b';');
    let _ = table.set(at(0, 0), text("a;b"));
    let _ = table.set(at(0, 1), text("c,d"));
    let bytes = table.normalize_and_save().unwrap();
    assert_eq!(bytes, b"\"a;b\";c,d\n".to_vec());
}

#[test]
fn save_then_load_keeps_every_cell_with_text() {
    let mut table = CsvTable::default();
    let cells = [
        (at(0, 0), "plain"),
        (at(0, 3), "with,comma"),
        (at(2, 1), "with \"quotes\""),
        (at(4, 2), "two\nlines"),
        (at(4, 3), " spaced "),
    ];
    for (location, value) in cells.iter() {
        let _ = table.set(*location, text(value));
    }
    let _ = table.set(at(9, 9), None);
    let bytes = table.normalize_and_save().unwrap();
    let loaded = CsvTable::load(&bytes, None).unwrap();
    for (location, value) in cells.iter() {
        assert_eq!(loaded.get(*location), Some(*value));
    }
    for row in 0..6 {
        for col in 0..5 {
            assert_eq!(loaded.get(at(row, col)), table.get(at(row, col)));
        }
    }
}

#[test]
fn save_then_load_of_one_column_with_gaps() {
    let mut table = CsvTable::default();
    let _ = table.set(at(0, 0), text("a"));
    let _ = table.set(at(2, 0), text("c"));
    let bytes = table.normalize_and_save().unwrap();
    let loaded = CsvTable::load(&bytes, None).unwrap();
    assert_eq!(loaded.get(at(0, 0)), Some("a"));
    assert_eq!(loaded.get(at(1, 0)), None);
    assert_eq!(loaded.get(at(2, 0)), Some("c"));
}

#[test]
fn content_hash_follows_the_content() {
    let mut a = CsvTable::default();
    let mut b = CsvTable::default();
    let _ = a.set(at(1, 2), text("x"));
    let _ = b.set(at(1, 2), text("x"));
    let _ = b.set(at(7, 7), None);
    assert_eq!(a.content_hash(), b.content_hash());
    let _ = b.set(at(1, 2), text("y"));
    assert_ne!(a.content_hash(), b.content_hash());
    let _ = b.set(at(1, 2), text("x"));
    assert_eq!(a.content_hash(), b.content_hash());
    b.delimiter = Some(b';');
    assert_ne!(a.content_hash(), b.content_hash());
}

#[test]
fn entries_list_the_cells_with_text_row_by_row() {
    let mut table = CsvTable::default();
    assert!(table.entries().is_empty());
    let _ = table.set(at(2, 1), text("c"));
    let _ = table.set(at(0, 3), text("a"));
    let _ = table.set(at(2, 0), text("b"));
    let _ = table.set(at(5, 5), None);
    assert_eq!(table.entries(), vec![(0, 3, "a"), (2, 0, "b"), (2, 1, "c")]);
    table.normalize();
    assert_eq!(table.entries(), vec![(0, 3, "a"), (2, 0, "b"), (2, 1, "c")]);
}

#[test]
fn delimiter_reads_the_chosen_delimiter() {
    let mut table = CsvTable::default();
    assert_eq!(table.delimiter(), None);
    table.delimiter = Some(b'\t');
    assert_eq!(table.delimiter(), Some(b'\t'));
    let loaded = CsvTable::load(b"a;b\n", Some(b';')).unwrap();
    assert_eq!(loaded.delimiter(), Some(b';'));
    let _ = table.set(at(0, 0), text("x"));
    table.normalize();
    assert_eq!(table.delimiter(), Some(b'\t'));
}
