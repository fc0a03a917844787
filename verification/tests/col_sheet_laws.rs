use modav_core::repr::col_sheet::{
    ArrayF32, ArrayI32, ArrayText, CellRef, Column, ColumnSheet, DataType, Reading,
};

fn reading(text: &str) -> Reading {
    Reading::new(
        text.to_string(),
        text.parse::<f32>().ok().map(f32::to_bits),
        text.parse::<f64>().ok().map(f64::to_bits),
    )
}

fn sample() -> ColumnSheet {
    let mut names = ArrayText::from_iterator_option(vec![
        Some("ann".to_string()),
        None,
        Some("cy".to_string()),
    ]);
    names.set_header("name".to_string());
    let mut ages = ArrayI32::from_iterator_option(vec![Some(30), Some(41), None]);
    ages.set_header("age".to_string());
    let heights = ArrayF32::from_iterator_option(vec![Some(1.5f32.to_bits()), None, Some(1.75f32.to_bits())]);
    ColumnSheet::from_columns(
        vec![Column::Text(names), Column::I32(ages), Column::F32(heights)],
        Some(1),
        3,
        "null".to_string(),
    )
}

/// Everything a sheet holds, as text.
fn snapshot(sheet: &ColumnSheet) -> (Vec<String>, Option<usize>, usize) {
    let mut out = Vec::new();
    for c in 0..sheet.width() {
        let col = sheet.get_col(c).unwrap();
        out.push(format!("{:?} {:?}", col.label(), col.kind()));
        for r in 0..col.len() {
            out.push(format!("{:?}", col.data_ref(r)));
        }
    }
    (out, sheet.get_primary(), sheet.height())
}

#[test]
fn swapping_columns_twice_restores() {
    let mut sheet = sample();
    let before = snapshot(&sheet);
    assert!(sheet.swap_cols(0, 2).is_ok());
    assert_ne!(snapshot(&sheet), before);
    assert!(sheet.swap_cols(0, 2).is_ok());
    assert_eq!(snapshot(&sheet), before);
}

#[test]
fn swapping_rows_twice_restores() {
    let mut sheet = sample();
    let before = snapshot(&sheet);
    assert!(sheet.swap_rows(0, 2).is_ok());
    assert_ne!(snapshot(&sheet), before);
    assert!(sheet.swap_rows(0, 2).is_ok());
    assert_eq!(snapshot(&sheet), before);
}

#[test]
fn inserting_then_removing_a_row_restores() {
    let mut sheet = sample();
    let before = snapshot(&sheet);
    let row = vec![reading("dee"), reading("7"), reading("2.0")];
    assert!(sheet.insert_row(row, 1).is_ok());
    assert_eq!(sheet.height(), 4);
    assert_eq!(sheet.get_cell(1, 1), Some(CellRef::I32(7)));
    assert!(sheet.remove_row(1).is_ok());
    assert_eq!(snapshot(&sheet), before);
}

#[test]
fn inserting_then_removing_a_column_restores() {
    let mut sheet = sample();
    let before = snapshot(&sheet);
    let extra = Column::I32(ArrayI32::from_iterator_option(vec![Some(1), Some(2), Some(3)]));
    assert!(sheet.insert_col(extra, 0).is_ok());
    assert_eq!(sheet.get_primary(), Some(2));
    let removed = sheet.remove_col(0).unwrap();
    assert_eq!(removed.kind(), DataType::I32);
    assert_eq!(removed.data_ref(2), Some(CellRef::I32(3)));
    assert_eq!(snapshot(&sheet), before);
}

#[test]
fn a_written_cell_reads_back() {
    let mut sheet = sample();
    assert!(sheet.set_cell(&reading("55"), 1, 2).is_ok());
    assert_eq!(sheet.get_cell(1, 2), Some(CellRef::I32(55)));
    assert!(sheet.set_cell(&reading("null"), 1, 0).is_ok());
    assert_eq!(sheet.get_cell(1, 0), Some(CellRef::Null));
    assert_eq!(sheet.get_cell(0, 2), Some(CellRef::Text("cy")));
}

#[test]
fn converting_to_the_own_type_copies() {
    let sheet = sample();
    let float_text = |b: u32| f32::from_bits(b).to_string();
    let read_f32 = |s: &String| s.parse::<f32>().ok().map(f32::to_bits);
    let read_f64 = |s: &String| s.parse::<f64>().ok().map(f64::to_bits);
    for c in [0usize, 2] {
        let col = sheet.get_col(c).unwrap();
        let copy = col.convert_col(col.kind(), &float_text, &read_f32, &read_f64);
        assert_eq!(copy.label(), col.label());
        assert_eq!(copy.kind(), col.kind());
        for r in 0..col.len() {
            assert_eq!(copy.data_ref(r), col.data_ref(r));
        }
    }
}
