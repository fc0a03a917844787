use modav_core::repr::col_sheet::csv_source::read_records;
use modav_core::repr::col_sheet::sorting::index_sort_swap;
use modav_core::repr::col_sheet::{
    ArrayI32, ArrayText, CellRef, Column, ColumnHeader, ColumnSheet, DataType, Error, Reading,
};
use modav_core::repr::config::{Config, HeaderStrategy};
use modav_core::repr::sheet::{ColumnType, TypesStrategy};

const AIR: &str = "Month, 1958, 1959, 1960
JAN, 340, 360, 417
FEB, 318, 342, 391
MAR, 362, 406, 419
APR, 348, 396, 461
MAY, 363, 420, 472
JUN, 435, 472, 535
JUL, 491, 548, 622
AUG, 505, 559, 606
SEP, 404, 463, 508
OCT, 359, 407, 461
NOV, 310, 362, 390
DEC, 337, 405, 432
";

const FLEXIBLE: &str = "JAN, 340, 360, 417
FEB, 318, 342, 391
MAR, 362, 406, 419
APR, 348, 396, 461
MAY, 363, 420, 472
JUN, 435, 472, 535
JUL, 491, 548
AUG, 505
SEP, 404, 463, 508
OCT, 359, 407, 461
NOV, 310, 362, 390
DEC, 337, 405, 432
";

const INFER: &str = "Month,Year,Percentage,Name,Flag,Note
JAN,1958,40.5,,,x
FEB,1959,35.25,Bob,true,y
MAR,1960,12.5,Ann,false,z
";

const HEADLESS: &str = "Jan, 1, 2
Feb, 3, 4
";

fn col_reading(text: &str) -> Reading {
    Reading::new(
        text.to_string(),
        text.parse::<f32>().ok().map(f32::to_bits),
        text.parse::<f64>().ok().map(f64::to_bits),
    )
}

fn col_readings(values: &[&str]) -> Vec<Reading> {
    values.iter().map(|v| col_reading(v)).collect()
}

fn col_sheet_from(text: &str, config: Config<&str>) -> ColumnSheet {
    let recs = read_records(text.as_bytes(), &config).unwrap();
    let records = recs.records.iter().map(|r| r.iter().map(|f| col_reading(f)).collect()).collect();
    ColumnSheet::from_records(records, recs.labels, config)
}

fn create_empty() -> ColumnSheet {
    let config = Config::new("empty.csv")
        .types(TypesStrategy::Infer)
        .labels(HeaderStrategy::ReadLabels)
        .flexible(false)
        .trim(true);
    col_sheet_from("", config)
}

fn create_air_csv() -> ColumnSheet {
    let ct = vec![ColumnType::Text, ColumnType::Integer, ColumnType::Integer, ColumnType::Integer];
    let config = Config::new("air.csv")
        .trim(true)
        .primary(0)
        .types(TypesStrategy::Provided(ct))
        .labels(HeaderStrategy::ReadLabels);
    col_sheet_from(AIR, config)
}

fn i32_col(values: std::ops::Range<i32>) -> Column {
    Column::I32(ArrayI32::from_iterator(values.collect()))
}

fn i32_cell(col: &Column, idx: usize) -> Option<i32> {
    match col {
        Column::I32(a) => a.get(idx),
        _ => panic!("not an i32 column"),
    }
}

fn text_cell(col: &Column, idx: usize) -> Option<String> {
    match col {
        Column::Text(a) => a.get(idx),
        _ => panic!("not a text column"),
    }
}

#[test]
fn flexible() {
    let config = Config::new("flexible.csv")
        .trim(true)
        .flexible(true)
        .labels(HeaderStrategy::NoLabels)
        .types(TypesStrategy::Infer);
    let sht = col_sheet_from(FLEXIBLE, config);
    let actuals = sht.headers().into_iter().map(|header| header.kind);
    let expected = [DataType::Text, DataType::I32, DataType::I32, DataType::I32];
    for (expected, actual) in expected.into_iter().zip(actuals) {
        assert_eq!(expected, actual);
    }
    assert_eq!(4, sht.width());
    assert_eq!(12, sht.height());
    assert_eq!(Some(CellRef::Null), sht.get_cell(2, 7));
    assert_eq!(Some(CellRef::Null), sht.get_cell(3, 7));
    assert_eq!(Some(CellRef::Null), sht.get_cell(3, 6));
}

#[test]
fn infer() {
    let config = Config::new("infer.csv").trim(true).types(TypesStrategy::Infer).labels(HeaderStrategy::ReadLabels);
    let sht = col_sheet_from(INFER, config);
    let actuals = sht.headers().into_iter().map(|header| header.kind);
    let expected = [DataType::Text, DataType::I32, DataType::F32, DataType::Text, DataType::Bool, DataType::Text];
    for (expected, actual) in expected.into_iter().zip(actuals) {
        assert_eq!(expected, actual);
    }
}

#[test]
fn headerless() {
    let ct = vec![ColumnType::Text, ColumnType::Integer, ColumnType::Integer, ColumnType::Integer];
    let config = Config::new("headless.csv")
        .trim(true)
        .primary(0)
        .types(TypesStrategy::Provided(ct))
        .labels(HeaderStrategy::NoLabels);
    let sht = col_sheet_from(HEADLESS, config);
    let expected = [
        ColumnHeader { kind: DataType::Text, header: None },
        ColumnHeader { kind: DataType::I32, header: None },
        ColumnHeader { kind: DataType::I32, header: None },
    ];
    for (expected, actual) in expected.into_iter().zip(sht.headers()) {
        assert_eq!(expected, actual);
    }
}

#[test]
fn test_cells() {
    let empty = create_empty();
    assert!(empty.get_cell(0, 0).is_none());

    let mut sht = create_air_csv();
    assert!(sht.get_cell(100, 100).is_none());
    assert_eq!(Some(CellRef::I32(420)), sht.get_cell(2, 4));

    assert!(sht.set_cell(&col_reading("aa"), 2, 4).is_err());
    assert!(sht.set_cell(&col_reading("69"), 2, 4).is_ok());
    assert_eq!(Some(CellRef::I32(69)), sht.get_cell(2, 4));
}

#[test]
fn col_tests_test_empty() {
    let mut empty = create_empty();

    assert_eq!(None, empty.get_primary());
    assert!(empty.set_primary(0).is_err());
    assert!(empty.get_row(0).is_none());
    assert!(empty.get_col(0).is_none());
    assert!(empty.is_empty());
    assert!(empty.true_is_empty());
    assert!(empty.headers().first().is_none());

    let row = col_readings(&["1", "2", "3", "4"]);
    assert!(empty.insert_row(row, 1).is_err());
    assert_eq!(None, empty.get_primary());
    assert!(empty.get_row(0).is_none());
    assert!(empty.is_empty());
    assert!(empty.true_is_empty());

    let row = col_readings(&["1", "2", "3", "4"]);
    assert!(empty.insert_row(row, 0).is_ok());
    assert_eq!(Some(0), empty.get_primary());
    assert!(empty.set_primary(100).is_err());
    assert!(empty.set_primary(1).is_ok());
    assert_eq!(Some(1), empty.get_primary());
    assert!(empty.get_row(0).is_some());
    assert!(!empty.is_empty());
    assert!(!empty.true_is_empty());
    assert_eq!(empty.width(), 4);
    assert_eq!(empty.height(), 1);
    assert_eq!(empty.headers()[0], ColumnHeader { kind: DataType::I32, header: None });

    assert!(empty.insert_col(i32_col(9..10), 9).is_err());
    assert_eq!(empty.width(), 4);

    assert!(empty.insert_col(i32_col(9..10), 4).is_ok());
    assert_eq!(empty.width(), 5);
    assert_eq!(Some(1), empty.get_primary());
    assert!(empty.insert_col(i32_col(9..10), 1).is_ok());
    assert_eq!(empty.width(), 6);
    assert_eq!(Some(2), empty.get_primary());

    assert!(empty.get_col(100).is_none());
    assert!(empty.get_col(1).is_some());

    assert!(empty.remove_col(empty.width() + 1).is_err());

    assert!(empty.remove_col(5).is_ok());
    assert_eq!(Some(2), empty.get_primary());
    assert!(empty.remove_col(1).is_ok());
    assert_eq!(Some(1), empty.get_primary());

    assert!(empty.remove_row(1).is_err());
    assert_eq!(Some(1), empty.get_primary());
    assert!(empty.get_row(0).is_some());
    assert!(!empty.is_empty());

    assert!(empty.remove_row(0).is_ok());
    assert_eq!(Some(1), empty.get_primary());
    assert!(empty.is_empty());
    assert!(!empty.true_is_empty());
    assert_eq!(empty.width(), 4);
    assert!(empty.get_row(0).is_none());
    assert!(empty.headers().first().is_some());
}

#[test]
fn test_primary_key() {
    let mut sht = create_air_csv();
    assert_eq!(Some(0), sht.get_primary());

    assert!(sht.set_primary(133333).is_err());
    assert_eq!(Some(0), sht.get_primary());

    assert!(sht.set_primary(2).is_ok());
    assert_eq!(Some(2), sht.get_primary());

    let primary = sht.get_primary().unwrap();
    assert!(sht.insert_col(i32_col(24..36), primary).is_ok());
    assert_eq!(Some(3), sht.get_primary());

    let mut sht = create_air_csv();
    let _ = sht.set_primary(2);
    sht.sort_col_by(3);
    assert_eq!(Some(1), sht.get_primary());

    let mut sht = create_air_csv();
    assert!(sht.swap_cols(1, 1).is_ok());
    assert_eq!(Some(0), sht.get_primary());
    assert!(sht.swap_cols(0, 0).is_ok());
    assert_eq!(Some(0), sht.get_primary());
    assert!(sht.swap_cols(1, 3).is_ok());
    assert_eq!(Some(0), sht.get_primary());
    assert!(sht.swap_cols(0, 3).is_ok());
    assert_eq!(Some(3), sht.get_primary());

    let _ = sht.set_primary(2);
    assert!(sht.remove_col(3).is_ok());
    assert_eq!(Some(2), sht.get_primary());
    assert!(sht.remove_col(1).is_ok());
    assert_eq!(Some(1), sht.get_primary());
    assert!(sht.remove_col(1).is_ok());
    assert_eq!(Some(0), sht.get_primary());

    sht.remove_all_cols();
    assert_eq!(None, sht.get_primary());

    let mut sht = create_air_csv();
    sht.clear_primary();
    assert_eq!(None, sht.get_primary());
}

#[test]
fn test_cols() {
    let mut sht = create_air_csv();
    assert!(sht.get_col(16).is_none());

    let months = sht.get_col(0).unwrap();
    let two = sht.get_col(2).unwrap();
    match months {
        Column::Text(m) => {
            assert_eq!(12, m.len());
            assert_eq!(DataType::Text, m.kind());
            assert_eq!("APR", m.get(3).unwrap());
        }
        _ => panic!("months are text"),
    }
    assert_eq!(DataType::I32, two.kind());

    assert!(sht.insert_col(i32_col(24..66), 10).is_err());
    assert!(sht.insert_col(i32_col(24..36), 3).is_ok());
    assert_eq!(Some(25), i32_cell(sht.get_col(3).unwrap(), 1));
    assert_eq!(Some(391), i32_cell(sht.get_col(4).unwrap(), 1));

    let mut sht = create_air_csv();
    sht.sort_col_by(3);
    assert_eq!(Some(342), i32_cell(sht.get_col(1).unwrap(), 1));
    assert_eq!(Some("FEB".into()), text_cell(sht.get_col(3).unwrap(), 1));

    assert!(sht.swap_cols(100, 0).is_err());
    assert!(sht.swap_cols(1, 100).is_err());
    assert!(sht.swap_cols(1, 1).is_ok());
    assert_eq!(Some(342), i32_cell(sht.get_col(1).unwrap(), 1));
    assert!(sht.swap_cols(1, 3).is_ok());
    assert_eq!(Some("FEB".into()), text_cell(sht.get_col(1).unwrap(), 1));
    assert_eq!(Some(342), i32_cell(sht.get_col(3).unwrap(), 1));

    assert!(sht.clear_cell(100, 0).is_err());
    assert!(sht.clear_cell(0, 100).is_err());
    assert!(sht.clear_cell(1, 1).is_ok());
    assert_eq!(None, text_cell(sht.get_col(1).unwrap(), 1));

    assert!(sht.clear_col(100).is_err());
    assert!(sht.clear_col(1).is_ok());
    let col = sht.get_col(1).unwrap();
    assert!((0..12).all(|i| text_cell(col, i).is_none()));

    assert!(sht.remove_col(100).is_err());
    assert!(sht.remove_col(1).is_ok());
    assert_eq!(3, sht.width());
    assert_eq!(Some(391), i32_cell(sht.get_col(1).unwrap(), 1));

    sht.remove_all_cols();
    assert!(sht.is_empty());
    assert!(sht.true_is_empty());
    assert_eq!(0, sht.width());
    assert_eq!(0, sht.height());
}

#[test]
fn test_rows() {
    let mut sht = create_air_csv();

    assert!(sht.insert_row(col_readings(&["SOME", "0", "1", "2"]), 100).is_err());
    assert!(sht.insert_row(col_readings(&["SOME", "0", "1", "2"]), 12).is_ok());
    assert!(sht.insert_row(col_readings(&["SOME", "0", "1", "2"]), 5).is_ok());

    assert!(sht.get_row(15).is_none());
    assert_eq!(
        vec![CellRef::Text("SOME"), CellRef::I32(0), CellRef::I32(1), CellRef::I32(2)],
        sht.get_row(5).unwrap()
    );
    assert_eq!(
        vec![CellRef::Text("JAN"), CellRef::I32(340), CellRef::I32(360), CellRef::I32(417)],
        sht.get_row(0).unwrap()
    );

    let mut sht = create_air_csv();
    sht.sort_row_by(1);
    assert_eq!(
        vec![CellRef::Text("NOV"), CellRef::I32(310), CellRef::I32(362), CellRef::I32(390)],
        sht.get_row(0).unwrap()
    );
    assert_eq!(
        vec![CellRef::Text("OCT"), CellRef::I32(359), CellRef::I32(407), CellRef::I32(461)],
        sht.get_row(5).unwrap()
    );

    let mut sht = create_air_csv();
    assert!(sht.swap_rows(100, 0).is_err());
    assert!(sht.swap_rows(0, 100).is_err());
    assert!(sht.swap_rows(1, 1).is_ok());
    assert_eq!(
        vec![CellRef::Text("FEB"), CellRef::I32(318), CellRef::I32(342), CellRef::I32(391)],
        sht.get_row(1).unwrap()
    );
    assert!(sht.swap_rows(1, 3).is_ok());
    assert_eq!(
        vec![CellRef::Text("APR"), CellRef::I32(348), CellRef::I32(396), CellRef::I32(461)],
        sht.get_row(1).unwrap()
    );

    assert!(sht.clear_row(100).is_err());
    assert!(sht.clear_row(1).is_ok());
    assert_eq!(vec![CellRef::Null, CellRef::Null, CellRef::Null, CellRef::Null], sht.get_row(1).unwrap());

    let mut sht = create_air_csv();
    assert!(sht.remove_row(100).is_err());
    assert!(sht.remove_row(5).is_ok());
    assert_eq!(11, sht.height());
    assert_eq!(
        vec![CellRef::Text("JUL"), CellRef::I32(491), CellRef::I32(548), CellRef::I32(622)],
        sht.get_row(5).unwrap()
    );

    sht.remove_all_rows();
    assert!(sht.is_empty());
    assert!(!sht.true_is_empty());
    assert_eq!(4, sht.width());
}

#[test]
fn test_headers() {
    let empty = create_empty();
    assert_eq!(0, empty.headers().len());

    let mut sht = create_air_csv();
    let actuals = sht.headers();
    let headers = [
        ColumnHeader { kind: DataType::Text, header: Some("Month") },
        ColumnHeader { kind: DataType::I32, header: Some("1958") },
        ColumnHeader { kind: DataType::I32, header: Some("1959") },
        ColumnHeader { kind: DataType::I32, header: Some("1960") },
    ];
    assert_eq!(4, actuals.len());
    for (expected, actual) in headers.into_iter().zip(actuals) {
        assert_eq!(expected, actual);
    }

    assert!(sht.set_col_header(100, "Failure".to_string()).is_err());
    assert!(sht.set_col_header(1, "Success".to_string()).is_ok());

    let headers = [
        ColumnHeader { kind: DataType::Text, header: Some("Month") },
        ColumnHeader { kind: DataType::I32, header: Some("Success") },
        ColumnHeader { kind: DataType::I32, header: Some("1959") },
        ColumnHeader { kind: DataType::I32, header: Some("1960") },
    ];
    for (expected, actual) in headers.into_iter().zip(sht.headers()) {
        assert_eq!(expected, actual);
    }
}

fn sorted_by_swaps(vec: Vec<isize>, rev: bool) -> Vec<isize> {
    let mut vec = vec;
    let mut indices = (0..vec.len()).collect::<Vec<usize>>();
    if rev {
        indices.sort_by(|y, x| vec[*x].cmp(&vec[*y]));
    } else {
        indices.sort_by(|x, y| vec[*x].cmp(&vec[*y]));
    }
    index_sort_swap(&mut indices);
    for (pos, elem) in indices.into_iter().enumerate() {
        vec.swap(pos, elem);
    }
    vec
}

fn sample_vectors() -> Vec<Vec<isize>> {
    let mut out = vec![vec![], vec![1], vec![2, 1], vec![3, 1, 2], vec![5, 5, 1, 5, 0]];
    let mut seed: u64 = 7;
    for len in [10usize, 50, 200, 999] {
        let mut v = Vec::with_capacity(len);
        for _ in 0..len {
            seed = seed.wrapping_mul(6364136223846793005).wrapping_add(1442695040888963407);
            v.push((seed >> 33) as isize - (1 << 30));
        }
        out.push(v);
    }
    out.push(vec![isize::MAX, isize::MIN, 0, -1, 1]);
    out
}

#[test]
fn test_index_sort_swap() {
    for vec in sample_vectors() {
        let mut sorted = vec.clone();
        sorted.sort();
        assert_eq!(sorted, sorted_by_swaps(vec, false));
    }
}

#[test]
fn test_index_sort_swap_rev() {
    for vec in sample_vectors() {
        let mut sorted = vec.clone();
        sorted.sort();
        sorted.reverse();
        assert_eq!(sorted, sorted_by_swaps(vec, true));
    }
}

#[test]
fn col_sheet_errors_name_their_cause() {
    let mut sht = create_air_csv();
    assert!(matches!(sht.get_col(3).map(|c| c.kind()), Some(DataType::I32)));
    assert!(matches!(sht.set_cell(&col_reading("1"), 9, 0), Err(Error::InvalidColumn(9))));
    assert!(matches!(sht.set_cell(&col_reading("1"), 1, 99), Err(Error::InvalidRow(99))));
    assert!(matches!(sht.set_cell(&col_reading("x"), 1, 0), Err(Error::InvalidCellInput { col: 1, row: 0 })));
    assert!(matches!(sht.insert_col(i32_col(0..3), 1), Err(_)));
    assert!(matches!(sht.set_primary(9), Err(Error::InvalidPrimary(9))));
}

#[test]
fn col_sheet_reads_bad_csv_as_error() {
    let config = Config::new("bad.csv").labels(HeaderStrategy::ReadLabels);
    let res = read_records("a,b\n1,2,3\n".as_bytes(), &config);
    assert!(matches!(res, Err(Error::CSV(_))));
}

#[test]
fn col_sheet_column_changes_in_place() {
    let mut sheet = create_air_csv();
    assert!(sheet.get_col_mut(9).is_none());
    let col = sheet.get_col_mut(1).unwrap();
    col.set_header("Year".to_string());
    assert_eq!(sheet.get_col(1).unwrap().label(), Some("Year"));
    assert_eq!(sheet.width(), 4);
}

#[test]
fn col_sheet_columns_iterate_in_order() {
    let mut sheet = create_air_csv();
    let labels: Vec<Option<String>> =
        sheet.iter().map(|col| col.label().map(|s| s.to_string())).collect();
    assert_eq!(labels.len(), 4);
    assert_eq!(labels[0].as_deref(), Some("Month"));
    for col in sheet.iter_mut().iter_mut() {
        col.set_header("x".to_string());
    }
    assert_eq!(sheet.get_col(3).unwrap().label(), Some("x"));
    assert_eq!(sheet.height(), 12);
}

#[test]
fn arrays_iterate_and_change_in_place() {
    let mut ints = ArrayI32::from_iterator_option(vec![Some(1), None, Some(3)]);
    let seen: Vec<Option<i32>> = ints.iter().copied().collect();
    assert_eq!(seen, vec![Some(1), None, Some(3)]);
    for cell in ints.iter_mut().iter_mut() {
        if let Some(v) = cell {
            *v *= 10;
        }
    }
    assert_eq!(ints.get(2), Some(30));
    assert_eq!(ints.get(1), None);

    let mut texts = ArrayText::from_iterator_option(vec![Some("a".to_string()), None]);
    texts.get_mut(0).unwrap().push('b');
    assert!(texts.get_mut(1).is_none());
    assert!(texts.get_mut(7).is_none());
    assert_eq!(texts.get(0), Some("ab".to_string()));
    let n = texts.iter().filter(|c| c.is_some()).count();
    assert_eq!(n, 1);
    for cell in texts.iter_mut().iter_mut() {
        *cell = None;
    }
    assert_eq!(texts.get(0), None);
}
