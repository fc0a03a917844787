use modav_core::repr::col_sheet::{
    ArrayF32, ArrayText, CellRef, Column, ColumnSheet, DataType, Error,
};

fn float_text(bits: u32) -> String {
    f32::from_bits(bits).to_string()
}

fn read_f32(text: &String) -> Option<u32> {
    text.parse::<f32>().ok().map(f32::to_bits)
}

fn read_f64(text: &String) -> Option<u64> {
    text.parse::<f64>().ok().map(f64::to_bits)
}

fn text_column(values: &[Option<&str>]) -> Column {
    let mut array =
        ArrayText::from_iterator_option(values.iter().map(|v| v.map(|s| s.to_string())).collect());
    array.set_header("label".to_string());
    Column::Text(array)
}

fn float_column(values: &[Option<f32>]) -> Column {
    let mut array =
        ArrayF32::from_iterator_option(values.iter().map(|v| v.map(f32::to_bits)).collect());
    array.set_header("floats".to_string());
    Column::F32(array)
}

fn convert(col: &Column, to: DataType) -> Column {
    col.convert_col(to, &float_text, &read_f32, &read_f64)
}

#[test]
fn text_converts_by_reading() {
    let col = text_column(&[Some("12"), Some("x"), None, Some("-3")]);

    let u = convert(&col, DataType::U32);
    assert_eq!(u.kind(), DataType::U32);
    assert_eq!(u.label(), Some("label"));
    assert_eq!(u.data_ref(0), Some(CellRef::U32(12)));
    assert_eq!(u.data_ref(1), Some(CellRef::Null));
    assert_eq!(u.data_ref(2), Some(CellRef::Null));
    assert_eq!(u.data_ref(3), Some(CellRef::Null));

    let i = convert(&col, DataType::I32);
    assert_eq!(i.data_ref(3), Some(CellRef::I32(-3)));

    let f = convert(&col, DataType::F32);
    assert_eq!(f.data_ref(0), Some(CellRef::F32(12.0f32.to_bits())));
    assert_eq!(f.data_ref(1), Some(CellRef::Null));

    let d = convert(&col, DataType::F64);
    assert_eq!(d.data_ref(3), Some(CellRef::F64((-3.0f64).to_bits())));

    let b = convert(&text_column(&[Some("true"), Some("1")]), DataType::Bool);
    assert_eq!(b.data_ref(0), Some(CellRef::Bool(true)));
    assert_eq!(b.data_ref(1), Some(CellRef::Null));

    let t = convert(&col, DataType::Text);
    assert_eq!(t.data_ref(1), Some(CellRef::Text("x")));
    assert_eq!(t.len(), 4);
}

#[test]
fn floats_convert_as_casts_do() {
    let col = float_column(&[
        Some(3.9),
        Some(-3.9),
        Some(1e10),
        Some(f32::NAN),
        None,
        Some(0.0),
        Some(f32::NEG_INFINITY),
    ]);

    let u = convert(&col, DataType::U32);
    assert_eq!(u.data_ref(0), Some(CellRef::U32(3)));
    assert_eq!(u.data_ref(1), Some(CellRef::U32(0)));
    assert_eq!(u.data_ref(2), Some(CellRef::U32(u32::MAX)));
    assert_eq!(u.data_ref(3), Some(CellRef::U32(0)));
    assert_eq!(u.data_ref(4), Some(CellRef::Null));
    assert_eq!(u.data_ref(6), Some(CellRef::U32(0)));

    let i = convert(&col, DataType::I32);
    assert_eq!(i.data_ref(1), Some(CellRef::I32(-3)));
    assert_eq!(i.data_ref(2), Some(CellRef::I32(i32::MAX)));
    assert_eq!(i.data_ref(6), Some(CellRef::I32(i32::MIN)));

    let n = convert(&col, DataType::ISize);
    assert_eq!(n.data_ref(2), Some(CellRef::ISize(10_000_000_000)));

    let z = convert(&col, DataType::USize);
    assert_eq!(z.data_ref(0), Some(CellRef::USize(3)));

    let b = convert(&col, DataType::Bool);
    assert_eq!(b.data_ref(0), Some(CellRef::Bool(true)));
    assert_eq!(b.data_ref(3), Some(CellRef::Bool(true)));
    assert_eq!(b.data_ref(5), Some(CellRef::Bool(false)));

    let d = convert(&col, DataType::F64);
    assert_eq!(d.data_ref(0), Some(CellRef::F64((3.9f32 as f64).to_bits())));

    let t = convert(&col, DataType::Text);
    assert_eq!(t.data_ref(0), Some(CellRef::Text("3.9")));
    assert_eq!(t.label(), Some("floats"));

    let same = convert(&col, DataType::F32);
    assert_eq!(same.data_ref(1), Some(CellRef::F32((-3.9f32).to_bits())));
}

#[test]
fn sheet_converts_checked_and_unchecked() {
    let columns = vec![
        text_column(&[Some("1"), Some("2")]),
        float_column(&[Some(1.5), Some(2.5)]),
    ];
    let mut sheet = ColumnSheet::from_columns(columns, Some(0), 2, String::new());

    assert!(matches!(
        sheet.convert_col(0, DataType::U32, &float_text, &read_f32, &read_f64),
        Err(Error::InvalidColConversion {
            col: 0,
            from: DataType::Text,
            to: DataType::U32
        })
    ));
    assert!(matches!(
        sheet.convert_col(2, DataType::U32, &float_text, &read_f32, &read_f64),
        Err(Error::InvalidColumn(2))
    ));
    assert!(matches!(
        sheet.convert_col(1, DataType::F64, &float_text, &read_f32, &read_f64),
        Ok(())
    ));
    assert_eq!(sheet.get_col(1).unwrap().kind(), DataType::F64);
    assert_eq!(
        sheet.get_cell(1, 1),
        Some(CellRef::F64(2.5f64.to_bits()))
    );

    assert!(matches!(
        sheet.convert_col_unchecked(0, DataType::U32, &float_text, &read_f32, &read_f64),
        Ok(())
    ));
    assert_eq!(sheet.get_cell(0, 1), Some(CellRef::U32(2)));
    assert!(matches!(
        sheet.convert_col_unchecked(5, DataType::U32, &float_text, &read_f32, &read_f64),
        Err(Error::InvalidColumn(5))
    ));
    assert_eq!(sheet.width(), 2);
    assert_eq!(sheet.height(), 2);
}
