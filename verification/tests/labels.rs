use csvedit::location::CellLocation;

#[test]
fn column_labels_are_bijective_base_26() {
    assert_eq!(CellLocation::col_index_to_id(0), "A");
    assert_eq!(CellLocation::col_index_to_id(1), "B");
    assert_eq!(CellLocation::col_index_to_id(25), "Z");
    assert_eq!(CellLocation::col_index_to_id(26), "AA");
    assert_eq!(CellLocation::col_index_to_id(27), "AB");
    assert_eq!(CellLocation::col_index_to_id(51), "AZ");
    assert_eq!(CellLocation::col_index_to_id(52), "BA");
    assert_eq!(CellLocation::col_index_to_id(701), "ZZ");
    assert_eq!(CellLocation::col_index_to_id(702), "AAA");
}

#[test]
fn row_labels_count_from_one() {
    assert_eq!(CellLocation::row_index_to_id(0), "1");
    assert_eq!(CellLocation::row_index_to_id(8), "9");
    assert_eq!(CellLocation::row_index_to_id(9), "10");
    assert_eq!(CellLocation::row_index_to_id(1233), "1234");
    assert_eq!(
        CellLocation::row_index_to_id(usize::MAX),
        format!("{}", usize::MAX as u128 + 1)
    );
}

#[test]
fn cell_label_is_column_then_row() {
    assert_eq!(CellLocation { row: 2, col: 1 }.label(), "B3");
    assert_eq!(CellLocation { row: 0, col: 0 }.label(), "A1");
    assert_eq!(CellLocation { row: 99, col: 26 }.label(), "AA100");
}
