use modav_core::repr::arrow::{DataType, Union, UnionBuilder, UnionType};
use modav_core::repr::col_sheet::Reading;

/// A field of text together with the floats it reads as.
fn reading(s: &str) -> Reading {
    Reading::new(
        s.to_string(),
        s.parse::<f32>().ok().map(f32::to_bits),
        s.parse::<f64>().ok().map(f64::to_bits),
    )
}

fn f32_value(f: f32) -> UnionType {
    UnionType::F32(f.to_bits())
}

fn f64_value(f: f64) -> UnionType {
    UnionType::F64(f.to_bits())
}

fn text(s: &str) -> UnionType {
    UnionType::Text(s.to_string())
}

fn builder_of(fields: &[&str]) -> UnionBuilder {
    UnionBuilder::from_sized_iter_str(fields.iter().map(|f| reading(f)).collect())
}

#[test]
fn union_test_partial_eq() {
    let one = ["one", "1", "1.00", "", "-14", "false", "null", "-25.0"];
    let builder = builder_of(&one);

    let one = Union::from_builder(builder);
    assert!(!one.all_null());

    let mut alt = Vec::new();
    let mut iter = one.iter();
    while let Some(val) = iter.next() {
        alt.push(val.map(|v| v.to_owned()));
    }
    let alt = Union::new(alt);

    // Zero: Self equality
    assert!(one == one);
    assert!(one == one.clone());
    assert!(one == alt);

    // One: Perfect case
    let two = vec![
        text("one"),
        UnionType::U32(1),
        f32_value(1.0),
        UnionType::Null,
        UnionType::I32(-14),
        UnionType::Boolean(false),
        UnionType::Null,
        f32_value(-25.0),
    ];
    let two = Union::from_vec(two);

    assert!(one == two);
    // One: Symmetry
    assert!(two == one);

    // Two: Varying order
    let two = vec![
        UnionType::U32(1),
        f32_value(1.0),
        text("one"),
        UnionType::Null,
        UnionType::I32(-14),
        f32_value(-25.0),
        UnionType::Boolean(false),
        UnionType::Null,
    ];
    let two = Union::from_vec(two);

    assert!(one != two);

    // Two: Varying order
    let two = vec![
        f32_value(1.0),
        UnionType::U32(1),
        text("one"),
        UnionType::I32(-14),
        f32_value(-25.0),
        UnionType::Null,
        UnionType::Boolean(false),
        UnionType::Null,
    ];
    let two = Union::from_vec(two);

    assert!(one != two);

    // Two: Varying order
    let two = vec![UnionType::I32(4), f64_value(2.0), text("0")];
    let two = Union::from_vec(two);
    let three = vec![text("0"), UnionType::I32(4), f64_value(2.0)];
    let three = Union::from_vec(three);

    assert!(three != two);

    // Four: Varying length
    let two = vec![UnionType::I32(4), UnionType::Null, f64_value(2.0), text("0")];
    let two = Union::from_vec(two);

    assert!(one != two);

    // Five: Nulls
    let two = vec![
        UnionType::Null,
        UnionType::Null,
        UnionType::Null,
        UnionType::Null,
        UnionType::Null,
    ];
    let two = Union::from_vec(two);

    assert!(one != two);
}

#[test]
fn union_test_into_iter() {
    let one = vec![
        Some(text("one")),
        None,
        Some(UnionType::U32(1)),
        None,
        Some(f32_value(1.00)),
    ];

    let one = Union::new(one);

    let mut iter = one.into_iter();

    assert_eq!(text("one"), iter.next().unwrap().unwrap());
    assert_eq!(Some(UnionType::Null), iter.next().unwrap());
    iter.next();
    assert_eq!(UnionType::Null, iter.next().unwrap().unwrap());
    assert_eq!(f32_value(1.00), iter.next().unwrap().unwrap());
}

#[test]
fn union_test_all_nulls() {
    let one = vec![None; 5];

    let one = Union::new(one);

    assert!(one.all_null());

    assert_eq!(5, one.len());

    assert!(one.check_null(0));

    assert!(one.check_null(2));

    assert!(one.check_null(4));

    let mut iter = one.into_iter();

    assert_eq!(Some(UnionType::Null), iter.next().unwrap());
    iter.next();
    assert_eq!(Some(UnionType::Null), iter.next().unwrap())
}

#[test]
fn union_test_empty() {
    let one = vec![];
    let one = Union::new(one);

    assert_eq!(0, one.len())
}

#[test]
fn test_mixed_builder() {
    let mut builder = UnionBuilder::new();

    let elems = ["one", "1", "1.00", "", "-14", "false", "null", "Buble"];
    elems.into_iter().for_each(|val| builder.parse_push(&reading(val)));

    assert_eq!(8, builder.len());

    assert_eq!(text("one"), builder.get(0).unwrap());
    assert_eq!(UnionType::Null, builder.get(3).unwrap());
    assert_eq!(UnionType::I32(-14), builder.get(4).unwrap());
    assert_eq!(UnionType::Boolean(false), builder.get(5).unwrap());
    assert_eq!(UnionType::Null, builder.get(6).unwrap());

    let max = (i32::MAX as isize) + 1;
    builder.parse_push(&reading(&max.to_string()));
    assert_eq!(UnionType::U32(max as u32), builder.get(8).unwrap());

    let max = (f32::MAX as f64) * 1.5;
    builder.parse_push(&reading(&max.to_string()));
    assert_eq!(f32_value(f32::INFINITY), builder.get(9).unwrap());
}

#[test]
fn union_parse_order() {
    assert_eq!(UnionType::parse(&reading("")), UnionType::Null);
    assert_eq!(UnionType::parse(&reading("null")), UnionType::Null);
    assert_eq!(UnionType::parse(&reading("NULL")), text("NULL"));
    assert_eq!(UnionType::parse(&reading("7")), UnionType::U32(7));
    assert_eq!(UnionType::parse(&reading("+7")), UnionType::U32(7));
    assert_eq!(UnionType::parse(&reading("-7")), UnionType::I32(-7));
    assert_eq!(
        UnionType::parse(&reading("4294967296")),
        UnionType::USize(4294967296)
    );
    assert_eq!(
        UnionType::parse(&reading("-3000000000")),
        UnionType::ISize(-3000000000)
    );
    assert_eq!(UnionType::parse(&reading("2.5")), f32_value(2.5));
    assert_eq!(UnionType::parse(&reading("true")), UnionType::Boolean(true));
    assert_eq!(UnionType::parse(&reading("True")), text("True"));
    // A field no float reads as, but that carries a 64 bit reading only.
    let only_wide = Reading::new("x".to_string(), None, Some(3.0f64.to_bits()));
    assert_eq!(UnionType::parse(&only_wide), f64_value(3.0));
}

#[test]
fn union_get_beyond_end() {
    let one = Union::from_vec(vec![UnionType::U32(3), text("a")]);
    assert_eq!(one.get(1), Some(text("a")));
    assert_eq!(one.get(2), None);
    assert!(one.get_ref(2).is_none());
    assert!(!one.check_null(0));
    assert!(!one.all_null());
    assert!(!one.is_empty());
    assert_eq!(one.data_type(), DataType::Union);
}

#[test]
fn union_builder_push_and_get() {
    let mut builder = UnionBuilder::default();
    builder.push(UnionType::ISize(-2));
    builder.push_u32(9);
    builder.push_string("word".to_string());
    builder.push_none();
    builder.push_bool(true);
    builder.push_usize(11);
    builder.push_i32(-5);
    builder.push_f32(0.5f32.to_bits());
    builder.push_f64(0.25f64.to_bits());
    assert_eq!(builder.len(), 9);
    assert_eq!(builder.get(0), Some(UnionType::ISize(-2)));
    assert_eq!(builder.get(2), Some(text("word")));
    assert_eq!(builder.get(3), Some(UnionType::Null));
    assert_eq!(builder.get(8), Some(f64_value(0.25)));

    let union = Union::from_builder(builder);
    assert_eq!(union.len(), 9);
    let values = union.to_vec();
    assert_eq!(values[1], Some(UnionType::U32(9)));
    assert_eq!(values[5], Some(UnionType::USize(11)));
    assert_eq!(values[7], Some(f32_value(0.5)));
}

#[test]
fn union_text_differs() {
    let one = Union::from_vec(vec![text("a"), UnionType::Null]);
    let two = Union::from_vec(vec![text("b"), UnionType::Null]);
    assert!(one != two);
    assert!(one == one.duplicate());
    let borrowed = text("abc");
    assert_eq!(borrowed.borrow().to_owned(), text("abc"));
}

#[test]
fn union_iter_len() {
    let one = Union::from_vec(vec![UnionType::U32(1), UnionType::U32(2)]);
    let mut iter = one.iter();
    assert_eq!(iter.len(), 2);
    iter.next();
    assert_eq!(iter.len(), 1);
    iter.next();
    assert!(iter.next().is_none());
    let mut owned = one.into_iter();
    assert_eq!(owned.len(), 2);
    assert_eq!(owned.next(), Some(Some(UnionType::U32(1))));
}
