use std::cmp::Ordering;

use modav_core::repr::col_sheet::csv_source::read_records;
use modav_core::models::bar::BarChartError;
use modav_core::models::common::{AxisPoints, Scale};
use modav_core::models::line::LineGraphError;
use modav_core::models::stacked_bar::StackedBarChartError;
use modav_core::repr::col_sheet::{ArrayI32, ArrayText, CellRef, Column, ColumnSheet, DataType, Error, Reading};
use modav_core::repr::config::{Config, HeaderStrategy};
use modav_core::repr::sheet::builders::SheetBuilder;
use modav_core::repr::sheet::{ColumnType, Data, Error as SheetError, HeaderLabelStrategy, HeaderTypesStrategy, Sheet};
use modav_core::repr::sheet::TypesStrategy;

const AIR: &str = "Month, 1958, 1959, 1960
JAN, 340, 360, 417
FEB, 318, 342, 391
MAR, 362, 406, 419
";

fn reading(text: &str) -> Reading {
    Reading::new(
        text.to_string(),
        text.parse::<f32>().ok().map(f32::to_bits),
        text.parse::<f64>().ok().map(f64::to_bits),
    )
}

fn col_sheet_from(text: &str, config: Config<&str>) -> ColumnSheet {
    let recs = read_records(text.as_bytes(), &config).unwrap();
    let records = recs.records.iter().map(|r| r.iter().map(|f| reading(f)).collect()).collect();
    ColumnSheet::from_records(records, recs.labels, config)
}

fn build(text: &str, builder: SheetBuilder<&str>) -> Result<Sheet, SheetError> {
    let recs = builder.read_records(text.as_bytes())?;
    let records = recs.records.iter().map(|r| r.iter().map(|f| reading(f)).collect()).collect();
    builder.build(records, recs.labels)
}

fn mixed_cells() -> Vec<CellRef<'static>> {
    vec![
        CellRef::Null,
        CellRef::Bool(false),
        CellRef::Bool(true),
        CellRef::I32(-7),
        CellRef::ISize(-1),
        CellRef::USize(0),
        CellRef::I32(3),
        CellRef::U32(5),
        CellRef::ISize(6),
        CellRef::USize(9),
        CellRef::U32(u32::MAX),
        CellRef::Text("a"),
        CellRef::Text("b"),
    ]
}

#[test]
fn cell_order_compares_numbers_across_kinds_by_value() {
    assert_eq!(CellRef::U32(5).cmp(&CellRef::I32(3)), Ordering::Greater);
    assert_eq!(CellRef::I32(3).cmp(&CellRef::U32(5)), Ordering::Less);
    assert_eq!(CellRef::USize(0).cmp(&CellRef::ISize(-1)), Ordering::Greater);
    assert_eq!(CellRef::ISize(4).cmp(&CellRef::U32(4)), Ordering::Equal);
    assert_eq!(CellRef::Null.cmp(&CellRef::Bool(false)), Ordering::Less);
    assert_eq!(CellRef::Bool(true).cmp(&CellRef::I32(i32::MIN)), Ordering::Less);
    assert_eq!(CellRef::Text("").cmp(&CellRef::USize(usize::MAX)), Ordering::Greater);
}

#[test]
fn cell_order_is_antisymmetric_and_transitive_on_samples() {
    let cells = mixed_cells();
    for (i, a) in cells.iter().enumerate() {
        for (j, b) in cells.iter().enumerate() {
            assert_eq!(a.cmp(b), i.cmp(&j), "{:?} against {:?}", a, b);
            assert_eq!(a.cmp(b), b.cmp(a).reverse());
        }
    }
}

#[test]
fn provided_labels_past_the_records_give_full_height_columns() {
    let labels = vec!["a".to_string(), "b".to_string()];
    let config = Config::new("one.csv")
        .labels(HeaderStrategy::Provided(labels))
        .types(TypesStrategy::Infer);
    let sht = col_sheet_from("1\n", config);
    assert_eq!(sht.width(), 2);
    assert_eq!(sht.height(), 1);
    assert_eq!(sht.get_cell(0, 0), Some(CellRef::I32(1)));
    assert_eq!(sht.get_cell(1, 0), Some(CellRef::Null));
    assert_eq!(sht.get_col(1).unwrap().len(), 1);
}

#[test]
fn inserting_into_a_sheet_without_columns_takes_the_column_height() {
    let mut sht = ColumnSheet::from_columns(Vec::new(), None, 0, String::new());
    assert!(sht.insert_col(Column::I32(ArrayI32::from_iterator(vec![7])), 1).is_err());
    assert!(sht.insert_col(Column::I32(ArrayI32::from_iterator(vec![7])), 0).is_ok());
    assert_eq!(sht.height(), 1);
    assert_eq!(sht.width(), 1);
    assert_eq!(sht.get_primary(), Some(0));
    assert_eq!(sht.get_cell(0, 0), Some(CellRef::I32(7)));
    let short = Column::I32(ArrayI32::from_iterator(vec![1, 2]));
    assert!(matches!(sht.insert_col(short, 0), Err(Error::InvalidColumnHeight { own: 1, other: 2 })));
}

#[test]
fn primary_follows_its_column_through_a_sort() {
    let cols = vec![
        Column::I32(ArrayI32::from_iterator(vec![2])),
        Column::I32(ArrayI32::from_iterator(vec![0])),
        Column::I32(ArrayI32::from_iterator(vec![1])),
    ];
    let mut sht = ColumnSheet::from_columns(cols, Some(0), 1, String::new());
    sht.sort_col_by(0);
    assert_eq!(sht.get_cell(0, 0), Some(CellRef::I32(0)));
    assert_eq!(sht.get_cell(2, 0), Some(CellRef::I32(2)));
    assert_eq!(sht.get_primary(), Some(2));
}

#[test]
fn longer_provided_labels_and_types_are_trimmed() {
    let lbl: Vec<String> = vec!["M".into(), "a".into(), "b".into(), "c".into(), "extra".into()];
    let kinds = vec![ColumnType::Text, ColumnType::Integer, ColumnType::Integer, ColumnType::Integer, ColumnType::Text];
    let body = AIR.split_once('\n').unwrap().1;
    let builder = SheetBuilder::new("air.csv")
        .trim(true)
        .types(HeaderTypesStrategy::Provided(kinds))
        .labels(HeaderLabelStrategy::Provided(lbl));
    let sht = build(body, builder).unwrap();
    assert_eq!(sht.get_headers().len(), 4);
    assert_eq!(sht.get_headers()[3].label, "c");
    assert_eq!(sht.get_headers()[3].kind, ColumnType::Integer);
}

#[test]
fn inferred_kinds_are_decided_per_column() {
    let builder = SheetBuilder::new("air.csv")
        .trim(true)
        .types(HeaderTypesStrategy::Infer)
        .labels(HeaderLabelStrategy::ReadLabels);
    let sht = build(AIR, builder).unwrap();
    let kinds: Vec<ColumnType> = sht.get_headers().iter().map(|h| h.kind.clone()).collect();
    assert_eq!(kinds, vec![ColumnType::Text, ColumnType::Integer, ColumnType::Integer, ColumnType::Integer]);
}

#[test]
fn sorting_by_a_column_with_a_cell_of_another_kind_is_refused() {
    let kinds = vec![ColumnType::Text, ColumnType::Integer, ColumnType::Integer, ColumnType::Integer];
    let builder = SheetBuilder::new("air.csv")
        .trim(true)
        .types(HeaderTypesStrategy::Provided(kinds))
        .labels(HeaderLabelStrategy::ReadLabels);
    let mut sht = build(AIR, builder).unwrap();
    sht.iter_rows_mut()[0].iter_cells_mut()[1].set_data(Data::Text("x".to_string()));
    let before: Vec<String> = sht.iter_rows().map(|r| format!("{:?}", r)).collect();
    assert!(matches!(sht.sort_rows(1), Err(SheetError::InvalidColumnType(_))));
    let after: Vec<String> = sht.iter_rows().map(|r| format!("{:?}", r)).collect();
    assert_eq!(before, after);
    assert!(matches!(sht.sort_rows(9), Err(SheetError::InvalidColumnLength(_))));
}

#[test]
fn array_header_setter_hands_the_array_back() {
    let mut arr = ArrayI32::from_iterator(vec![1, 2]);
    arr.set_header("first".to_string()).set_header("second".to_string());
    assert_eq!(arr.label(), Some("second"));
    assert_eq!(arr.get(1), Some(2));
    let mut text = ArrayText::from_iterator(vec!["x".to_string()]);
    assert_eq!(text.set_header("t".to_string()).len(), 1);
    assert_eq!(text.label(), Some("t"));
}

#[test]
fn errors_are_shown_with_their_messages() {
    assert_eq!(Error::InvalidRow(12).message(), "Invalid Row at 12");
    assert_eq!(Error::InvalidColumn(0).message(), "Invalid Column at 0");
    assert_eq!(Error::InvalidPrimary(305).message(), "Invalid Primary Column at 305");
    assert_eq!(
        Error::InvalidColumnHeight { own: 12, other: 3 }.message(),
        "Invalid Column height of 3 instead of 12"
    );
    assert_eq!(Error::InvalidRowWidth { own: 4, other: 10 }.message(), "Invalid Row width of 10 instead of 4");
    assert_eq!(Error::InvalidInsertion(7).message(), "Invalid insertion at index 7");
    assert_eq!(
        Error::InvalidCellInput { col: 1, row: 0 }.message(),
        "Invalid input for cell at column: 1, row: 0"
    );
    assert_eq!(
        Error::InvalidColConversion { col: 2, from: DataType::Text, to: DataType::USize }.message(),
        "Invalid column conversion from Text to USize at column 2"
    );
    assert_eq!(Error::CSV("bad".to_string()).message(), "bad");
    assert_eq!(
        SheetError::InvalidColumnSort("Tried to sort by an unstructured column ".to_string()).message(),
        "Invalid Column Sort: Tried to sort by an unstructured column "
    );
    assert_eq!(SheetError::InvalidPrimaryKey("x".to_string()).message(), "Primary Key is invalid. x");
    assert_eq!(
        SheetError::BarChartError(BarChartError::OutOfRange("Y".to_string(), "50".to_string())).message(),
        "The point with value 50 on the Y axis is out of range"
    );
    assert_eq!(
        SheetError::LineGraphError(LineGraphError::ScaleLengthError("X".to_string())).message(),
        "The X axis has smaller scale than expected"
    );
    assert_eq!(
        StackedBarChartError::OutOfRange("X".to_string(), "a".to_string()).message(),
        "The point with value a on the X axis is out of range"
    );
}

#[test]
fn strategies_and_types_are_shown_by_name() {
    assert_eq!(ColumnType::Untyped.description(), "No Column Type");
    assert_eq!(ColumnType::Float.description(), "Float Column Type");
    assert_eq!(HeaderLabelStrategy::ReadLabels.description(), "Read Header Labels");
    assert_eq!(HeaderStrategy::Provided(vec![]).description(), "Header Labels Provided");
    assert_eq!(HeaderTypesStrategy::Infer.description(), "Infer types");
    assert_eq!(DataType::ISize.name(), "ISize");
}

#[test]
fn integer_scale_points_ascend_by_one_step_from_the_least() {
    let scale = Scale::from_ints(vec![10, 3, 7]);
    let pts = scale.points();
    assert_eq!(pts, vec![Data::Integer(3), Data::Integer(6), Data::Integer(9), Data::Integer(12)]);
    for v in [3, 7, 10] {
        assert!(scale.contains(&Data::Integer(v)));
    }
}

#[test]
fn axis_points_put_negatives_before_the_rest() {
    let scale = Scale::from_ints(vec![-5, 4]);
    assert_eq!(scale.points(), vec![Data::Integer(-5), Data::Integer(0), Data::Integer(5)]);
    assert_eq!(
        scale.axis_points(false),
        AxisPoints::Numeric {
            positives: vec![Data::Integer(0), Data::Integer(5)],
            negatives: vec![Data::Integer(-5)],
        }
    );
    match scale.axis_points(true) {
        AxisPoints::Numeric { positives, negatives } => {
            assert_eq!(negatives, (-5..0).map(Data::Integer).collect::<Vec<_>>());
            assert_eq!(positives, (0..5).map(Data::Integer).collect::<Vec<_>>());
        }
        AxisPoints::Categorical(_) => panic!("a range scale gives numeric points"),
    }
}

fn float_text(b: u32) -> String {
    f32::from_bits(b).to_string()
}

fn read_f32(s: &String) -> Option<u32> {
    s.parse::<f32>().ok().map(f32::to_bits)
}

#[test]
fn transposing_twice_gives_back_the_cells_past_the_first_column() {
    let kinds = vec![ColumnType::Text, ColumnType::Integer, ColumnType::Integer, ColumnType::Integer];
    let builder = SheetBuilder::new("air.csv")
        .trim(true)
        .types(HeaderTypesStrategy::Provided(kinds))
        .labels(HeaderLabelStrategy::ReadLabels);
    let sht = build(AIR, builder).unwrap();
    let once = Sheet::transpose(&sht, None, &float_text, &read_f32).unwrap();
    let twice = Sheet::transpose(&once, None, &float_text, &read_f32).unwrap();
    assert_eq!(twice.get_headers().len(), sht.get_headers().len());
    assert_eq!(twice.height(), sht.height());
    assert_eq!(twice.get_headers()[0].label, "Month");
    for i in 0..sht.height() {
        for j in 1..sht.get_headers().len() {
            let a = twice.get_row_by_index(i).unwrap().get_cell_by_index(j).unwrap().get_data();
            let b = sht.get_row_by_index(i).unwrap().get_cell_by_index(j).unwrap().get_data();
            assert_eq!(a, b);
        }
    }
}

#[test]
fn integers_and_floats_compare_by_value() {
    let f64_of = |x: f64| CellRef::F64(x.to_bits());
    let f32_of = |x: f32| CellRef::F32(x.to_bits());
    assert_eq!(CellRef::I32(3).cmp(&f64_of(2.5)), Ordering::Greater);
    assert_eq!(f64_of(2.5).cmp(&CellRef::I32(3)), Ordering::Less);
    assert_eq!(f32_of(1.5).cmp(&f64_of(1.5)), Ordering::Equal);
    assert_eq!(CellRef::USize(7).cmp(&f32_of(7.0)), Ordering::Equal);
    assert_eq!(f32_of(-0.5).cmp(&CellRef::ISize(0)), Ordering::Less);
    let cells = vec![f64_of(-3.5), CellRef::I32(-3), f32_of(0.25), CellRef::U32(1), f64_of(1.5), CellRef::USize(2)];
    for (i, a) in cells.iter().enumerate() {
        for (j, b) in cells.iter().enumerate() {
            assert_eq!(a.cmp(b), i.cmp(&j), "{:?} against {:?}", a, b);
        }
    }
}
