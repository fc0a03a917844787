use modav_core::models::common::{AxisPoints, Point, Scale, ScaleKind};
use modav_core::repr::sheet::{ColumnType, Data};

/// The start, end, step and number of points of a float scale of distinct
/// floats, as a 32 bit float scale lays them out.
fn scale_float_range(v: &Vec<u32>) -> (u32, u32, u32, usize) {
    let points: Vec<f32> = v.iter().map(|b| f32::from_bits(*b)).collect();
    let mut min: Option<f32> = None;
    let mut max: Option<f32> = None;
    for point in points.iter().copied() {
        match min {
            Some(prev) if point < prev => min = Some(point),
            None => min = Some(point),
            _ => {}
        }
        match max {
            Some(prev) if point > prev => max = Some(point),
            None => max = Some(point),
            _ => {}
        }
    }
    let min = min.unwrap_or(0.0);
    let max = max.unwrap_or(0.0);
    let mut length = points.len();
    let mut step = (max - min) / length as f32;
    if step * (length as f32) != max - min {
        step += 1.0;
    }
    if ((length - 1) as f32) * step + min < max {
        length += 1;
    }
    (min.to_bits(), max.to_bits(), step.to_bits(), length)
}

fn scale_float_at(start: u32, step: u32, i: usize) -> u32 {
    (f32::from_bits(start) + (i as f32) * f32::from_bits(step)).to_bits()
}

fn make_scale(points: Vec<Data>, kind: ScaleKind) -> Scale {
    Scale::new(points, kind, &scale_float_range, &scale_float_at)
}

fn float_scale(values: Vec<f32>) -> Scale {
    make_scale(values.into_iter().map(|f| Data::Float(f.to_bits())).collect(), ScaleKind::Float)
}

fn fl(f: f32) -> Data {
    Data::Float(f.to_bits())
}

#[test]
fn test_point() {
    let p1 = Point::new(2, 3);
    assert_eq!(p1.x, 2);
    assert_eq!(p1.y, 3);

    let p2 = Point::new(-4, 0);
    assert_eq!(p2.x, -4);
    assert_eq!(p2.y, 0);

    let p3 = Point::new("Something", "else");
    assert_eq!(p3.x, "Something");
    assert_eq!(p3.y, "else");

    let p4: Point<&str, f32> = Point::from_pair(("tired", 0.50));
    assert_eq!(p4.x, "tired");
    assert_eq!(p4.y, 0.50);
}

#[test]
fn test_scale_dedup() {
    let scale = Scale::from_ints(vec![1, 2, 3, 4, 5]);
    assert_eq!(scale.length, 5);
    assert_eq!(
        scale.points(),
        vec![Data::Integer(1), Data::Integer(2), Data::Integer(3), Data::Integer(4), Data::Integer(5)]
    );

    let scale = Scale::from_ints(vec![1, 3, 2, 2, 3, 4, 1, 5]);
    assert_eq!(scale.length, 5);
    assert_eq!(
        scale.points(),
        vec![Data::Integer(1), Data::Integer(2), Data::Integer(3), Data::Integer(4), Data::Integer(5)]
    );

    let scale = Scale::from_numbers(vec![1, 12, 12, 6, 4, 1, 25]);
    assert_eq!(scale.length, 6);
    assert!(scale.contains(&Data::Number(25)));
    assert!(scale.contains(&Data::Number(26)));
    assert!(!scale.contains(&Data::Number(30)));
    assert!(!scale.contains(&Data::Integer(25)));

    let scale = float_scale(vec![1.0, 3.0, 2.0, 2.0, 3.0, 4.0, 1.0, 5.0]);
    assert_eq!(scale.length, 6);
    assert!(!scale.contains(&fl(0.99)));

    let pnts: Vec<Data> = vec![1, 12, 12, 6, 4, 1, 25].into_iter().map(Data::Number).collect();
    let mut scale = make_scale(pnts, ScaleKind::Categorical);
    scale.sort();
    assert_eq!(scale.length, 5);
    assert_eq!(
        scale.points(),
        vec![Data::Number(1), Data::Number(4), Data::Number(6), Data::Number(12), Data::Number(25)]
    );

    let pnts = vec![Data::Integer(44), Data::Text("Test".into()), Data::Empty, Data::Integer(4)];
    let mut scale = make_scale(pnts, ScaleKind::Integer);
    scale.sort();
    assert_eq!(scale.length, 4);
    assert_eq!(
        scale.points(),
        vec![Data::Empty, Data::Integer(4), Data::Integer(44), Data::Text("Test".into())]
    );
    assert!(!scale.contains(&Data::Text("44".into())));
    assert!(scale.contains(&Data::Integer(44)));
    assert!(scale.contains(&Data::Empty));
    assert!(scale.contains(&Data::Text("Test".into())));
}

#[test]
fn test_scale_pos_neg() {
    let scale = Scale::from_ints(vec![-1, -8, -3]);
    assert_eq!(scale.length, 4);
    assert_eq!(
        scale.points(),
        vec![Data::Integer(-8), Data::Integer(-5), Data::Integer(-2), Data::Integer(1)]
    );
    assert!(scale.contains(&Data::Integer(0)));

    let scale = Scale::from_ints(vec![-2, 0, 1, 2, 5]);
    assert_eq!(scale.length, 5);
    assert_eq!(
        scale.points(),
        vec![Data::Integer(-2), Data::Integer(0), Data::Integer(2), Data::Integer(4), Data::Integer(6)]
    );
    assert!(scale.contains(&Data::Integer(6)));
    assert!(!scale.contains(&Data::Integer(-3)));

    let scale = Scale::from_ints(vec![-3, -10, -1, 2, -5]);
    assert_eq!(scale.length, 5);
    assert_eq!(
        scale.points(),
        vec![Data::Integer(-10), Data::Integer(-7), Data::Integer(-4), Data::Integer(-1), Data::Integer(2)]
    );
}

#[test]
fn test_scale_single() {
    let scale = Scale::from_ints(vec![1]);
    assert_eq!(scale.length, 1);
    assert_eq!(scale.points(), vec![Data::Integer(1)]);
    assert!(scale.contains(&Data::Integer(1)));
    assert!(!scale.contains(&Data::Integer(2)));
}

#[test]
fn test_scale_none() {
    let scale = make_scale(Vec::new(), ScaleKind::Integer);
    assert_eq!(scale.length, 1);
    assert_eq!(scale.points(), vec![Data::Integer(0)]);
    assert!(scale.contains(&Data::Integer(0)));
}

#[test]
fn test_scale_ranged() {
    let scale = Scale::from_ints(vec![1, 2, 9, 10]);
    assert_eq!(scale.ranged(), (1..=10).map(Data::Integer).collect::<Vec<Data>>());

    let scale = Scale::from_numbers(vec![1, 2, 9, 10]);
    assert_eq!(scale.ranged(), (1..=10).map(Data::Number).collect::<Vec<Data>>());
}

#[test]
fn test_axis_points() {
    let scale = float_scale(vec![2.0, 5.0, -15.0, 0.0]);
    assert_eq!(scale.length, 5);
    assert_eq!(
        scale.axis_points(true),
        AxisPoints::Numeric {
            positives: vec![fl(0.0), fl(5.0)],
            negatives: vec![fl(-15.0), fl(-10.0), fl(-5.0)],
        }
    );

    let scale = float_scale(vec![5.0, 15.0, 0.0]);
    assert_eq!(
        scale.axis_points(false),
        AxisPoints::Numeric { positives: vec![fl(0.0), fl(5.0), fl(10.0), fl(15.0)], negatives: vec![] }
    );

    let scale = Scale::from_ints(vec![1, 2, 9, 10]);
    assert_eq!(
        scale.axis_points(true),
        AxisPoints::Numeric { positives: (1..=10).map(Data::Integer).collect(), negatives: vec![] }
    );

    let scale = Scale::from_ints(vec![1, 2, -9, 10]);
    assert_eq!(
        scale.axis_points(true),
        AxisPoints::Numeric {
            positives: (0..=10).map(Data::Integer).collect(),
            negatives: (-9..=-1).map(Data::Integer).collect(),
        }
    );

    let scale = Scale::from_ints(vec![-1, -2, -9, -10]);
    assert_eq!(
        scale.axis_points(true),
        AxisPoints::Numeric { positives: vec![], negatives: (-10..=-1).map(Data::Integer).collect() }
    );

    let scale = Scale::from_numbers(vec![1, 2, 9, 10]);
    assert_eq!(
        scale.axis_points(false),
        AxisPoints::Numeric {
            positives: vec![Data::Number(1), Data::Number(4), Data::Number(7), Data::Number(10)],
            negatives: vec![],
        }
    );

    let scale = Scale::from_numbers(vec![1, 2, -9, 10]);
    assert_eq!(scale.length, 5);
    assert_eq!(
        scale.axis_points(false),
        AxisPoints::Numeric {
            positives: vec![Data::Number(1), Data::Number(6), Data::Number(11)],
            negatives: vec![Data::Number(-9), Data::Number(-4)],
        }
    );

    let scale = Scale::from_numbers(vec![-1, -2, -9, -10]);
    assert_eq!(
        scale.axis_points(false),
        AxisPoints::Numeric {
            positives: vec![],
            negatives: vec![Data::Number(-10), Data::Number(-7), Data::Number(-4), Data::Number(-1)],
        }
    );
}

#[test]
fn scale_categorical_keeps_first_of_equal_values() {
    let pnts = vec![Data::Text("b".into()), Data::Text("a".into()), Data::Text("b".into())];
    let scale = make_scale(pnts, ScaleKind::Categorical);
    assert!(scale.is_categorical());
    assert_eq!(scale.length, 2);
    assert_eq!(scale.points(), vec![Data::Text("b".into()), Data::Text("a".into())]);
    match scale.axis_points(false) {
        AxisPoints::Categorical(v) => assert_eq!(v, vec![Data::Text("b".into()), Data::Text("a".into())]),
        _ => panic!("a categorical scale has categorical points"),
    }
}

#[test]
fn scale_float_zeroes_are_one_value() {
    let scale = make_scale(vec![fl(0.0), fl(-0.0)], ScaleKind::Categorical);
    assert_eq!(scale.length, 1);
    let scale = make_scale(vec![fl(f32::NAN), fl(f32::NAN)], ScaleKind::Categorical);
    assert_eq!(scale.length, 2);
    assert!(!scale.contains(&fl(f32::NAN)));
}

#[test]
fn scale_empty_float_has_a_zero() {
    let scale = make_scale(Vec::new(), ScaleKind::Float);
    assert_eq!(scale.length, 1);
    assert_eq!(scale.points(), vec![fl(0.0)]);
    assert!(!scale.is_categorical());
}

#[test]
fn scale_kind_of_column_types() {
    assert_eq!(ScaleKind::from_column(ColumnType::Integer), ScaleKind::Integer);
    assert_eq!(ScaleKind::from_column(ColumnType::Number), ScaleKind::Number);
    assert_eq!(ScaleKind::from_column(ColumnType::Float), ScaleKind::Float);
    assert_eq!(ScaleKind::from_column(ColumnType::Text), ScaleKind::Categorical);
    assert_eq!(ScaleKind::from_column(ColumnType::Untyped), ScaleKind::Categorical);
}
