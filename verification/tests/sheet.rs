use std::collections::HashSet;

use modav_core::models::common::{Scale, ScaleKind};
use modav_core::repr::col_sheet::Reading;
use modav_core::repr::sheet::builders::SheetBuilder;
use modav_core::repr::sheet::{
    BarChartAxisLabelStrategy, BarChartBarLabels, Cell, ColumnHeader, ColumnType, Data, Error,
    HeaderLabelStrategy, HeaderTypesStrategy, LineLabelStrategy, Row, Sheet,
};

const SHEET_AIR: &str = "Month, 1958, 1959, 1960
JAN, 340, 360, 417
FEB, 318, 342, 391
MAR, 362, 406, 419
APR, 348, 396, 461
MAY, 363, 420, 472
JUN, 435, 472, 535
JUL, 491, 548, 622
AUG, 505, 559, 606
SEP, 404, 463, 508
OCT, 359, 407, 461
NOV, 310, 362, 390
DEC, 337, 405, 432
";

const SHEET_ALTER: &str = "Month,1958,1959,1960
JAN,340,360,417
FEB,318,342,391
MAR,362,406,419
APR,348,396,461
MAY,363,420,472
";

const SHEET_INFER: &str = "Month,Year,Percentage,Name,Flag,Note
JAN,1958,40.5,,,x
FEB,1959,35.25,Bob,true,y
MAR,1960,12.5,12,false,z
";

const SHEET_HEADLESS: &str = "Jan,a,b,c
Feb,d,e,f
";

const SHEET_TRANSPOSE: &str = "Name,1958,1959
A,1,2
B,3
";

const SHEET_ADDRESS: &str = "John,Doe,120 jefferson st.,Riverside, NJ, 08075
Jack,McGinnis,220 hobo Av.,Phila, PA,09119
,Blankman,,SomeTown, SD, 00298
";

fn sheet_reading(text: &str) -> Reading {
    Reading::new(
        text.to_string(),
        text.parse::<f32>().ok().map(f32::to_bits),
        text.parse::<f64>().ok().map(f64::to_bits),
    )
}

fn sheet_float_text(b: u32) -> String {
    f32::from_bits(b).to_string()
}

fn sheet_read_f32(s: &String) -> Option<u32> {
    s.parse::<f32>().ok().map(f32::to_bits)
}

fn sheet_float_range(v: &Vec<u32>) -> (u32, u32, u32, usize) {
    let points: Vec<f32> = v.iter().map(|b| f32::from_bits(*b)).collect();
    let min = points.iter().copied().fold(f32::INFINITY, f32::min);
    let max = points.iter().copied().fold(f32::NEG_INFINITY, f32::max);
    let mut length = points.len().max(1);
    let mut step = (max - min) / length as f32;
    if step * (length as f32) != max - min {
        step += 1.0;
    }
    if ((length - 1) as f32) * step + min < max {
        length += 1;
    }
    (min.to_bits(), max.to_bits(), step.to_bits(), length)
}

fn sheet_float_at(start: u32, step: u32, i: usize) -> u32 {
    (f32::from_bits(start) + (i as f32) * f32::from_bits(step)).to_bits()
}

fn build(text: &str, builder: SheetBuilder<&str>) -> Result<Sheet, Error> {
    let recs = builder.read_records(text.as_bytes())?;
    let records = recs.records.iter().map(|r| r.iter().map(|f| sheet_reading(f)).collect()).collect();
    builder.build(records, recs.labels)
}

fn create_row() -> Row {
    Row::new(vec![sheet_reading("3"), sheet_reading("2"), sheet_reading("1")], 4, 0)
}

fn create_air_csv() -> Result<Sheet, Error> {
    let ct = vec![ColumnType::Text, ColumnType::Integer, ColumnType::Integer, ColumnType::Integer];
    let builder = SheetBuilder::new("air.csv")
        .trim(true)
        .primary(0)
        .types(HeaderTypesStrategy::Provided(ct))
        .labels(HeaderLabelStrategy::ReadLabels);
    build(SHEET_AIR, builder)
}

fn transpose(sheet: &Sheet, initial: Option<String>) -> Result<Sheet, Error> {
    Sheet::transpose(sheet, initial, &sheet_float_text, &sheet_read_f32)
}

fn cell_data(sheet: &Sheet, row: usize, col: usize) -> Data {
    sheet.get_row_by_index(row).unwrap().get_cell_by_index(col).unwrap().get_data().clone()
}

#[test]
fn tests_test_cell() {
    let tcell = Cell::new(0, Data::Text(String::from("Something")));
    assert_eq!("Cell { id: 0, data: Text(\"Something\") }", format!("{:?}", tcell));

    let ncell = Cell::new(0, Data::Number(333));
    assert_eq!("Cell { id: 0, data: Number(333) }", format!("{:?}", ncell));

    let bcell = Cell::new(0, Data::Boolean(true));
    assert_eq!("Cell { id: 0, data: Boolean(true) }", format!("{:?}", bcell));

    let icell = Cell::new(0, Data::Integer(32));
    assert_eq!("Cell { id: 0, data: Integer(32) }", format!("{:?}", icell));

    let fcell = Cell::new(0, Data::from_reading(&sheet_reading("33.2")));
    assert_eq!(format!("Cell {{ id: 0, data: Float({}) }}", 33.2f32.to_bits()), format!("{:?}", fcell));

    let nocell = Cell::new(0, Data::from_reading(&sheet_reading("")));
    assert_eq!("Cell { id: 0, data: Empty }", format!("{:?}", nocell));
}

#[test]
fn tests_test_row() {
    let row = create_row();
    assert_eq!(
        "Row { id: 4, cells: [Cell { id: 0, data: Integer(3) }, Cell { id: 1, data: Integer(2) }, Cell { id: 2, data: Integer(1) }], primary: 0, id_counter: 3 }",
        format!("{:?}", row)
    )
}

#[test]
fn tests_test_iter_cells() {
    let row = create_row();
    let new_cells: Vec<Cell> = row
        .iter_cells()
        .map(|cell| {
            let new = match cell.get_data() {
                Data::Integer(i) => Data::Integer(i + 100),
                _ => Data::Empty,
            };
            Cell::new(0, new)
        })
        .collect();
    assert_eq!(
        "[Cell { id: 0, data: Integer(103) }, Cell { id: 0, data: Integer(102) }, Cell { id: 0, data: Integer(101) }]",
        format!("{:?}", new_cells)
    )
}

#[test]
fn cell_data_changes_in_place() {
    let mut cell = Cell::new(7, Data::Integer(1));
    if let Data::Integer(i) = cell.get_data_mut() {
        *i += 100;
    }
    assert_eq!(cell.get_data(), &Data::Integer(101));
    cell.set_data(Data::Empty);
    assert_eq!(cell.get_data(), &Data::Empty);
    assert_eq!(cell.get_id(), 7);
}

#[test]
fn tests_test_row_set_primary_key() {
    let mut row = create_row();
    assert_eq!(0, row.get_primary_key());
    if row.set_primary_key(1).is_err() {
        panic!("Something went wrong which shouldn't")
    };
    assert_eq!(1, row.get_primary_key());
    if row.set_primary_key(3).is_ok() {
        panic!("Something went wrong whcih shouldn't have")
    }
    assert_eq!(1, row.get_primary_key())
}

#[test]
fn tests_test_get_primary_cell() {
    let mut row = create_row();
    let cell = row.get_primary_cell();
    assert_eq!("Some(Cell { id: 0, data: Integer(3) })", format!("{:?}", cell));
    if row.set_primary_key(2).is_err() {
        panic!("Something which shouldn't happen, happened")
    };
    let cell = row.get_primary_cell();
    assert_eq!("Some(Cell { id: 2, data: Integer(1) })", format!("{:?}", cell))
}

#[test]
fn tests_test_sheet_builder() {
    match create_air_csv() {
        Ok(sht) => {
            let hrs = sht.get_headers();
            assert_eq!("ColumnHeader { label: \"Month\", kind: Text }", format!("{:?}", hrs[0]));
            assert_eq!("ColumnHeader { label: \"1959\", kind: Integer }", format!("{:?}", hrs[2]));
        }
        Err(e) => panic!("{:?}", e),
    };

    match build(SHEET_AIR, SheetBuilder::new("air.csv").trim(true).primary(0)) {
        Err(e) => panic!("{:?}", e),
        Ok(sht) => assert_eq!("ColumnHeader { label: \"\", kind: Untyped }", format!("{:?}", sht.get_headers()[1])),
    }

    let lbl: Vec<String> = vec!["Month".into(), "1958".into(), "1959".into()];
    let air2 = SHEET_AIR.split_once('\n').unwrap().1;
    let builder = SheetBuilder::new("air2.csv")
        .trim(true)
        .types(HeaderTypesStrategy::Infer)
        .labels(HeaderLabelStrategy::Provided(lbl));
    match build(air2, builder) {
        Err(e) => panic!("{:?}", e),
        Ok(sht) => {
            assert_eq!("ColumnHeader { label: \"Month\", kind: Text }", format!("{:?}", sht.get_headers()[0]));
            assert_eq!("ColumnHeader { label: \"\", kind: Integer }", format!("{:?}", sht.get_headers()[3]));
        }
    }
}

#[test]
#[should_panic]
fn tests_test_col_validation() {
    let ct = vec![ColumnType::Text, ColumnType::Integer, ColumnType::Integer, ColumnType::Integer];
    let builder = SheetBuilder::new("invalid1.csv")
        .trim(true)
        .labels(HeaderLabelStrategy::ReadLabels)
        .types(HeaderTypesStrategy::Provided(ct));
    match build("Month,1958,1959,1960\nJAN,340,many,417\n", builder) {
        Err(e) => panic!("{:?}", e),
        Ok(_) => (),
    }
}

#[test]
fn tests_test_col_validation2() {
    let ct = vec![ColumnType::Text, ColumnType::Integer, ColumnType::Untyped, ColumnType::Integer];
    let builder = SheetBuilder::new("invalid2.csv")
        .trim(true)
        .labels(HeaderLabelStrategy::ReadLabels)
        .types(HeaderTypesStrategy::Provided(ct));
    if let Err(e) = build("Month,1958,1959,1960\nJAN,340,many,417\n", builder) {
        panic!("{:?}", e)
    };
}

#[test]
fn tests_test_empty_csv() {
    if let Err(e) = build("", SheetBuilder::new("empty.csv").labels(HeaderLabelStrategy::NoLabels).trim(true)) {
        panic!("{:?}", e)
    }
}

#[test]
fn tests_testing_empty_field() {
    let res = build(SHEET_ADDRESS, SheetBuilder::new("address.csv").labels(HeaderLabelStrategy::NoLabels).trim(true));
    match res {
        Err(e) => panic!("{:?}", e),
        Ok(sht) => {
            assert_eq!(sht.height(), 3);
            assert_eq!(cell_data(&sht, 2, 0), Data::Empty);
        }
    }
}

#[test]
fn tests_testing_flexible() {
    let text = "JAN, 340, 360, 417\nFEB, 318\n";
    let builder = SheetBuilder::new("flexible.csv").trim(true).labels(HeaderLabelStrategy::NoLabels).flexible(true);
    match build(text, builder) {
        Err(e) => panic!("{:?}", e),
        Ok(sh) => {
            assert_eq!(sh.get_row_by_index(1).unwrap().len(), 4);
            assert_eq!(cell_data(&sh, 1, 3), Data::Empty);
        }
    }
}

#[test]
fn tests_test_sort() {
    let mut sh = create_air_csv().unwrap();
    assert_eq!("Cell { id: 0, data: Text(\"JAN\") }", format!("{:?}", sh.get_row_by_index(0).unwrap().get_cell_by_index(0).unwrap()));
    sh.sort_rows(1).unwrap();
    assert_eq!("Cell { id: 0, data: Text(\"NOV\") }", format!("{:?}", sh.get_row_by_index(0).unwrap().get_cell_by_index(0).unwrap()));
}

#[test]
fn tests_test_sort_reversed() {
    let mut sh = create_air_csv().unwrap();
    sh.sort_rows_rev(1).unwrap();
    assert_eq!("Cell { id: 0, data: Text(\"AUG\") }", format!("{:?}", sh.get_row_by_index(0).unwrap().get_cell_by_index(0).unwrap()));
}

#[test]
fn tests_test_sort_panic() {
    let mut sh = build(SHEET_AIR, SheetBuilder::new("air.csv")).unwrap();
    match sh.sort_rows(1) {
        Ok(_) => panic!("Test should have panicked"),
        Err(Error::InvalidColumnSort(m)) => assert_eq!(m, "Tried to sort by an unstructured column "),
        Err(e) => panic!("{:?}", e),
    }
}

#[test]
fn tests_test_create_line_graph() {
    let res = create_air_csv().unwrap();
    let lg = res
        .create_line_graph(
            Some(String::from("X Label")),
            Some(String::from("Y Label")),
            LineLabelStrategy::FromCell(0),
            HashSet::from([2, 5]),
            HashSet::from([2, 1]),
            &sheet_float_text,
            &sheet_float_range,
            &sheet_float_at,
        )
        .unwrap();
    assert_eq!(lg.lines.len(), 10);
    assert_eq!(lg.lines[0].label, Some("JAN".to_string()));
    assert_eq!(lg.lines[0].points.len(), 1);
    assert_eq!(lg.lines[0].points[0].x, Data::Text("1960".into()));
    assert_eq!(lg.lines[0].points[0].y, Data::Integer(417));
    assert_eq!(lg.x_label, "X Label");
}

#[test]
fn test_line_scales() {
    let builder = SheetBuilder::new("alter.csv")
        .trim(true)
        .flexible(false)
        .primary(0)
        .types(HeaderTypesStrategy::Infer)
        .labels(HeaderLabelStrategy::ReadLabels);
    let sht = build(SHEET_ALTER, builder).expect("Building alter csv failure");
    let mut line = sht
        .create_line_graph(
            None,
            None,
            LineLabelStrategy::FromCell(0),
            HashSet::new(),
            HashSet::new(),
            &sheet_float_text,
            &sheet_float_range,
            &sheet_float_at,
        )
        .expect("Building alter csv line graph failure");

    let mut expected_x_scale = Scale::new(
        vec![1958, 1959, 1960].into_iter().map(|year| Data::Text(year.to_string())).collect(),
        ScaleKind::Integer,
        &sheet_float_range,
        &sheet_float_at,
    );
    line.x_scale.sort();
    expected_x_scale.sort();
    assert_eq!(line.x_scale, expected_x_scale);

    let values = vec![318, 340, 342, 348, 360, 362, 363, 391, 396, 406, 417, 419, 420, 461, 472];
    let expected_y_scale = Scale::from_ints(values);
    assert_eq!(line.y_scale, expected_y_scale);
}

#[test]
fn tests_test_transpose() {
    let sht = create_air_csv().unwrap();
    let res = transpose(&sht, Some(String::from("YEAR"))).unwrap();
    assert_eq!("360", cell_data(&res, 1, 1).to_text(&sheet_float_text));
    assert_eq!("535", cell_data(&res, 2, 6).to_text(&sheet_float_text));
    assert_eq!(Data::Integer(1958), cell_data(&res, 0, 0));
    let hr6 = &res.get_headers()[6];
    assert_eq!(&ColumnHeader::new("JUN".into(), ColumnType::Integer), hr6);
    assert_eq!(ColumnType::Integer, hr6.kind);
    let hr0 = &res.get_headers()[0];
    assert_eq!(&ColumnHeader::new("YEAR".into(), ColumnType::Integer), hr0);
}

#[test]
fn tests_test_transpose_flexible() {
    let ct = vec![ColumnType::Text, ColumnType::Integer, ColumnType::Integer];
    let builder = SheetBuilder::new("transpose1.csv")
        .trim(true)
        .labels(HeaderLabelStrategy::ReadLabels)
        .types(HeaderTypesStrategy::Provided(ct))
        .flexible(true)
        .primary(0);
    let sht = build(SHEET_TRANSPOSE, builder).unwrap();
    let res = transpose(&sht, Some("Year".into())).unwrap();
    assert_eq!(Data::Integer(1958), cell_data(&res, 0, 0));
    assert_eq!(Data::Integer(3), cell_data(&res, 0, 2));
    assert_eq!(Data::Integer(2), cell_data(&res, 1, 1));
    assert_eq!(Data::Empty, cell_data(&res, 1, 2));
    assert!(res.get_row_by_index(2).is_none());
    assert_eq!(ColumnType::Integer, res.get_headers()[2].kind);
}

#[test]
fn tests_test_transpose_headless() {
    let sht = build(SHEET_HEADLESS, SheetBuilder::new("headless.csv").labels(HeaderLabelStrategy::NoLabels)).unwrap();
    let res = transpose(&sht, None).unwrap();
    assert_eq!(Data::Empty, cell_data(&res, 2, 0));
    assert_eq!(&ColumnHeader::new(String::new(), ColumnType::Untyped), &res.get_headers()[0]);
    assert_eq!(&ColumnHeader::new("Feb".into(), ColumnType::Text), &res.get_headers()[2]);
    assert!(res.get_headers().get(3).is_none());
}

#[test]
fn tests_test_transpose_symmetry() {
    let builder = SheetBuilder::new("headless.csv")
        .labels(HeaderLabelStrategy::Provided(vec![]))
        .types(HeaderTypesStrategy::Infer)
        .trim(true);
    let sh = build(SHEET_HEADLESS, builder).unwrap();
    let res = transpose(&sh, None).unwrap();
    let sh2 = transpose(&res, None).unwrap();
    assert_eq!(sh, sh2);

    let ct = vec![ColumnType::Text, ColumnType::Integer, ColumnType::Integer];
    let builder = SheetBuilder::new("transpose1.csv")
        .labels(HeaderLabelStrategy::ReadLabels)
        .flexible(true)
        .types(HeaderTypesStrategy::Provided(ct))
        .trim(true);
    let sh = build("Name,1958,1959\nA,1,2\nB,3,4\n", builder).unwrap();
    let res = transpose(&sh, None).unwrap();
    let sh2 = transpose(&res, None).unwrap();
    assert_eq!(sh, sh2);

    let sh = create_air_csv().unwrap();
    let res = transpose(&sh, None).unwrap();
    let sh2 = transpose(&res, None).unwrap();
    assert_eq!(sh, sh2);
}

#[test]
fn test_infer_types() {
    let builder = SheetBuilder::new("infer.csv")
        .labels(HeaderLabelStrategy::ReadLabels)
        .trim(true)
        .types(HeaderTypesStrategy::Infer);
    let sh = build(SHEET_INFER, builder).unwrap();
    assert_eq!(ColumnType::Text, sh.get_headers()[0].kind);
    assert_eq!(ColumnType::Float, sh.get_headers()[2].kind);
    assert_eq!(ColumnType::Untyped, sh.get_headers()[3].kind);
    assert_eq!(ColumnType::Text, sh.get_headers()[5].kind);
}

fn bar_chart(
    sh: &Sheet,
    x: usize,
    y: usize,
    labels: BarChartBarLabels,
    axis: BarChartAxisLabelStrategy,
    exclude: Vec<usize>,
) -> Result<modav_core::models::bar::BarChart, Error> {
    let exclude: HashSet<usize> = exclude.into_iter().collect();
    sh.clone().create_bar_chart(x, y, labels, axis, exclude, &sheet_float_text, &sheet_float_range, &sheet_float_at)
}

fn conversion_message(res: Result<modav_core::models::bar::BarChart, Error>) -> String {
    match res {
        Ok(_) => panic!("Bar chart false success"),
        Err(Error::ConversionError(m)) => m,
        Err(e) => panic!("{:?}", e),
    }
}

#[test]
fn test_create_bar_chart() {
    let builder = SheetBuilder::new("infer.csv")
        .labels(HeaderLabelStrategy::ReadLabels)
        .trim(true)
        .types(HeaderTypesStrategy::Infer);
    let res = build(SHEET_INFER, builder).unwrap();

    let barchart =
        bar_chart(&res, 1, 2, BarChartBarLabels::NoLabels, BarChartAxisLabelStrategy::NoLabels, vec![]).unwrap();
    assert_eq!(barchart.x_label, None);
    assert_eq!(barchart.y_label, None);
    assert_eq!(barchart.bars.len(), 3);
    assert_eq!(barchart.bars[1].label, None);

    let barchart =
        bar_chart(&res, 1, 2, BarChartBarLabels::FromColumn(0), BarChartAxisLabelStrategy::Headers, vec![2]).unwrap();
    assert_eq!(barchart.x_label.unwrap(), "Year");
    assert_eq!(barchart.y_label.unwrap(), "Percentage");
    assert_eq!(barchart.bars.len(), 2);
    assert_eq!(barchart.bars[1].label.clone().unwrap(), "FEB");

    let barchart = bar_chart(
        &res,
        1,
        2,
        BarChartBarLabels::Provided(vec![String::from("One")]),
        BarChartAxisLabelStrategy::Provided { x: "Xer".into(), y: "Yer".into() },
        vec![],
    )
    .unwrap();
    assert_eq!(barchart.x_label.unwrap(), "Xer");
    assert_eq!(barchart.y_label.unwrap(), "Yer");
    assert_eq!(barchart.bars.len(), 3);
    assert_eq!(barchart.bars[0].label.clone().unwrap(), "One");
    assert_eq!(barchart.bars[1].label, None);

    let barchart = bar_chart(
        &res,
        1,
        2,
        BarChartBarLabels::Provided(vec![
            String::from("One"),
            String::from("Two"),
            String::from("Three"),
            String::from("Four"),
            String::from("Five"),
        ]),
        BarChartAxisLabelStrategy::Provided { x: "Xer".into(), y: "Yer".into() },
        vec![],
    )
    .unwrap();
    assert_eq!(barchart.bars.len(), 3);
    assert_eq!(barchart.bars[2].label.clone().unwrap(), "Three");

    let msg = conversion_message(bar_chart(&res, 4, 3, BarChartBarLabels::NoLabels, BarChartAxisLabelStrategy::NoLabels, vec![]));
    assert_eq!(msg, "Cannot convert from non-uniform column");

    let msg = conversion_message(bar_chart(&res, 40, 3, BarChartBarLabels::NoLabels, BarChartAxisLabelStrategy::NoLabels, vec![]));
    assert_eq!(msg, "Bar chart column out of range");

    let msg = conversion_message(bar_chart(&res, 4, 3, BarChartBarLabels::FromColumn(40), BarChartAxisLabelStrategy::NoLabels, vec![]));
    assert_eq!(msg, "Bar chart label column out of range");
}

#[test]
fn bar_chart_scales_come_from_columns() {
    let res = create_air_csv().unwrap();
    let chart = bar_chart(&res, 0, 1, BarChartBarLabels::NoLabels, BarChartAxisLabelStrategy::NoLabels, vec![]).unwrap();
    assert!(chart.x_scale.is_categorical());
    assert_eq!(chart.x_scale.length, 12);
    assert!(!chart.y_scale.is_categorical());
    assert!(chart.y_scale.contains(&Data::Integer(310)));
    assert!(chart.y_scale.contains(&Data::Integer(505)));
}

#[test]
fn line_graph_rejects_mixed_columns() {
    let builder = SheetBuilder::new("infer.csv")
        .labels(HeaderLabelStrategy::ReadLabels)
        .trim(true)
        .types(HeaderTypesStrategy::Infer);
    let res = build(SHEET_INFER, builder).unwrap();
    let out = res.create_line_graph(
        None,
        None,
        LineLabelStrategy::NoLabels,
        HashSet::new(),
        HashSet::new(),
        &sheet_float_text,
        &sheet_float_range,
        &sheet_float_at,
    );
    match out {
        Err(Error::ConversionError(m)) => assert_eq!(m, "Cannot convert non uniform type column"),
        _ => panic!("mixed columns make no line graph"),
    }
    let air = create_air_csv().unwrap();
    let out = air.create_line_graph(
        None,
        None,
        LineLabelStrategy::FromCell(9),
        HashSet::new(),
        HashSet::new(),
        &sheet_float_text,
        &sheet_float_range,
        &sheet_float_at,
    );
    match out {
        Err(Error::ConversionError(m)) => assert_eq!(m, "Tried to assign invalid column as label"),
        _ => panic!("no such label column"),
    }
    let out = air.create_line_graph(
        None,
        None,
        LineLabelStrategy::NoLabels,
        HashSet::new(),
        HashSet::new(),
        &sheet_float_text,
        &sheet_float_range,
        &sheet_float_at,
    );
    match out {
        Err(Error::ConversionError(m)) => assert_eq!(m, "Cannot convert different column types"),
        _ => panic!("a text column and number columns differ"),
    }
}

#[test]
fn sheet_reads_bad_text_as_error() {
    let res = build("a,b\n1,2,3\n", SheetBuilder::new("bad.csv").labels(HeaderLabelStrategy::ReadLabels));
    assert!(matches!(res, Err(Error::CSVReaderError(_))));
}

#[test]
fn sheet_iter_rows_in_order() {
    let sheet = create_air_csv().unwrap();
    let ids: Vec<usize> = sheet.iter_rows().map(|row| row.get_id()).collect();
    assert_eq!(ids.len(), sheet.height());
    assert_eq!(ids[0], 0);
    assert_eq!(ids[ids.len() - 1], ids.len() - 1);
}

#[test]
fn sorting_keeps_sheet_valid() {
    let mut sheet = create_air_csv().unwrap();
    assert!(sheet.sort_rows(1).is_ok());
    assert!(sheet.validate().is_ok());
    let mut ids: Vec<usize> = sheet.iter_rows().map(|row| row.get_id()).collect();
    ids.sort();
    ids.dedup();
    assert_eq!(ids.len(), sheet.height());
    assert!(sheet.sort_rows_rev(99).is_err());
    assert!(sheet.validate().is_ok());
}

#[test]
fn data_compares_by_type_then_value() {
    let order = [
        Data::Empty,
        Data::Boolean(false),
        Data::Boolean(true),
        Data::Integer(-4),
        Data::Integer(7),
        Data::Float((-1.5f32).to_bits()),
        Data::Float(2.0f32.to_bits()),
        Data::Number(-9),
        Data::Text("a".to_string()),
        Data::Text("b".to_string()),
    ];
    for i in 0..order.len() {
        for j in 0..order.len() {
            assert_eq!(order[i].partial_cmp(&order[j]), Some(i.cmp(&j)));
        }
    }
    assert!(Data::Integer(100) < Data::Float(0.5f32.to_bits()));
    let nan = Data::Float(f32::NAN.to_bits());
    assert_eq!(nan.partial_cmp(&Data::Float(1.0f32.to_bits())), None);
    assert_eq!(nan.partial_cmp(&Data::Empty), Some(std::cmp::Ordering::Greater));
    assert_eq!(
        Data::Float(0.0f32.to_bits()).partial_cmp(&Data::Float((-0.0f32).to_bits())),
        Some(std::cmp::Ordering::Equal)
    );
}

#[test]
fn data_hashes_consistently_with_equality() {
    let mut set = std::collections::HashSet::new();
    set.insert(Data::Text("a".to_string()));
    set.insert(Data::Text("a".to_string()));
    set.insert(Data::Integer(1));
    set.insert(Data::Number(1));
    set.insert(Data::Empty);
    assert_eq!(set.len(), 4);
    assert!(set.contains(&Data::Integer(1)));
}

#[test]
fn tests_test_iter_cells_mut() {
    let mut row = create_row();

    assert_eq!(
        "Row { id: 4, cells: [Cell { id: 0, data: Integer(3) }, Cell { id: 1, data: Integer(2) }, Cell { id: 2, data: Integer(1) }], primary: 0, id_counter: 3 }",
        format!("{:?}", row)
    );

    row.iter_cells_mut().iter_mut().for_each(|cell| {
        if let Data::Integer(i) = cell.get_data_mut() {
            *i += 100;
        };
    });

    assert_eq!(
        "Row { id: 4, cells: [Cell { id: 0, data: Integer(103) }, Cell { id: 1, data: Integer(102) }, Cell { id: 2, data: Integer(101) }], primary: 0, id_counter: 3 }",
        format!("{:?}", row)
    );

    row.iter_cells_mut().iter_mut().for_each(|cell| cell.set_data(Data::Empty));

    assert_eq!(
        "Row { id: 4, cells: [Cell { id: 0, data: Empty }, Cell { id: 1, data: Empty }, Cell { id: 2, data: Empty }], primary: 0, id_counter: 3 }",
        format!("{:?}", row)
    )
}

#[test]
fn sheet_rows_change_in_place() {
    let mut sheet = create_air_csv().unwrap();
    for row in sheet.iter_rows_mut().iter_mut() {
        row.iter_cells_mut()[1].set_data(Data::Integer(0));
    }
    assert_eq!(cell_data(&sheet, 3, 1), Data::Integer(0));
    assert!(sheet.validate().is_ok());
}
