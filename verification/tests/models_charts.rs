use modav_core::models::bar::{Bar, BarChart, BarChartError};
use modav_core::models::common::{Point, Scale, ScaleKind};
use modav_core::models::line::{Line, LineGraph, LineGraphError};
use modav_core::repr::sheet::Data;

fn chart_float_text(b: u32) -> String {
    f32::from_bits(b).to_string()
}

fn chart_float_range(v: &Vec<u32>) -> (u32, u32, u32, usize) {
    let _ = v;
    (0, 0, 0, 1)
}

fn chart_float_at(start: u32, _step: u32, _i: usize) -> u32 {
    start
}

fn chart_scale(points: Vec<Data>, kind: ScaleKind) -> Scale {
    Scale::new(points, kind, &chart_float_range, &chart_float_at)
}

fn create_barchart() -> BarChart {
    let p1 = vec!["one", "two", "three", "four", "five"];
    let p2 = [1, 2, 3, 4, 5];
    let bars = p2
        .into_iter()
        .zip(p1.into_iter())
        .map(|point| Bar::from_point(Point::new(Data::Integer(point.0), Data::Text(point.1.to_string()))))
        .collect();
    let x_scale = chart_scale((0..60).map(Data::Integer).collect(), ScaleKind::Integer);
    let y_scale = chart_scale(
        vec!["one", "two", "three", "four", "five"].into_iter().map(|t| Data::Text(t.to_string())).collect(),
        ScaleKind::Categorical,
    );
    match BarChart::new(bars, x_scale, y_scale, &chart_float_text) {
        Ok(bar) => bar.x_label("Number".to_string()).y_label("Language".to_string()),
        Err(e) => panic!("{:?}", e),
    }
}

fn bar_out_of_range() -> Result<BarChart, BarChartError> {
    let xs = [1, 5, 6, 11, 15];
    let ys = [4, 5, 6, 7, 8];
    let bars = xs
        .into_iter()
        .zip(ys.into_iter())
        .map(|point| Bar::from_point(Point::new(Data::Integer(point.0), Data::Integer(point.1))))
        .collect();
    let x_scale = chart_scale((-5..11).map(Data::Integer).collect(), ScaleKind::Integer);
    let y_scale = chart_scale((2..10).map(Data::Integer).collect(), ScaleKind::Integer);
    BarChart::new(bars, x_scale, y_scale, &chart_float_text)
}

#[test]
fn bar_test_barchart() {
    let barchart = create_barchart();
    assert_eq!(barchart.y_label.unwrap(), String::from("Language"));
    assert_eq!(barchart.x_label.unwrap(), String::from("Number"));
    assert_eq!(barchart.bars.len(), 5)
}

#[test]
fn bar_test_faulty_barchart() {
    let expected = BarChartError::OutOfRange(String::from("X"), String::from("11"));
    match bar_out_of_range() {
        Ok(_) => panic!("Should not reach this test case"),
        Err(e) => assert_eq!(e, expected),
    }
}

#[test]
fn bar_y_out_of_range_after_x() {
    let bars = vec![Bar::from_point(Point::new(Data::Integer(1), Data::Integer(50)))];
    let x_scale = chart_scale((0..5).map(Data::Integer).collect(), ScaleKind::Integer);
    let y_scale = chart_scale((0..5).map(Data::Integer).collect(), ScaleKind::Integer);
    match BarChart::new(bars, x_scale, y_scale, &chart_float_text) {
        Ok(_) => panic!("y is out of range"),
        Err(e) => assert_eq!(e, BarChartError::OutOfRange("Y".to_string(), "50".to_string())),
    }
}

#[test]
fn bar_labels() {
    let bar = Bar::new("a".to_string(), Point::new(Data::Integer(1), Data::Integer(2)));
    assert_eq!(bar.label, Some("a".to_string()));
    let bar = Bar::from_point(Point::new(Data::Integer(1), Data::Integer(2))).label("b".to_string());
    assert_eq!(bar.label, Some("b".to_string()));
    assert_eq!(bar.point, Point::new(Data::Integer(1), Data::Integer(2)));
}

fn create_line_from_points(xs: Vec<&str>, label: &str) -> Line {
    let points: Vec<Point<Data, Data>> = xs
        .into_iter()
        .enumerate()
        .map(|(i, x)| Point::new(Data::Number(i as isize), Data::Text(x.to_owned())))
        .collect();
    Line::from_points(points).label(label.to_string())
}

fn create_line_from_new(xs: Vec<(usize, &str)>, label: &str) -> Line {
    let points = xs.iter().map(|(idx, text)| (Data::Number(*idx as isize), Data::Text(text.to_string()))).collect();
    Line::new(points).label(label.to_string())
}

fn create_graph() -> LineGraph {
    let p1 = vec!["one", "two", "three", "four", "five"];
    let p2: Vec<(usize, &str)> = vec![(10, "one"), (20, "two"), (30, "three"), (40, "four"), (50, "five")];
    let pnt1 = create_line_from_new(p2, "Deutsch");
    let pnt2 = create_line_from_points(p1, "English");
    let x_scale = chart_scale((0..60).map(|n| Data::Number(n as isize)).collect(), ScaleKind::Number);
    let y_scale = chart_scale(
        vec!["one", "two", "three", "four", "five"].into_iter().map(|t| Data::Text(t.to_string())).collect(),
        ScaleKind::Categorical,
    );
    match LineGraph::new(
        vec![pnt1, pnt2],
        Some("Number".into()),
        Some("Language".into()),
        x_scale,
        y_scale,
        &chart_float_text,
    ) {
        Ok(lg) => lg,
        Err(e) => panic!("{:?}", e),
    }
}

fn faulty_graph1() -> Result<LineGraph, LineGraphError> {
    let p1: Vec<(i32, i32)> = vec![(0, 0), (1, 1), (20, 2), (3, 35)];
    let p2: Vec<(i32, i32)> = vec![(10, 10), (4, 8), (-3, 3)];
    let x_scale = chart_scale((-5..11).map(Data::Integer).collect(), ScaleKind::Integer);
    let y_scale = chart_scale((2..10).map(Data::Integer).collect(), ScaleKind::Integer);
    let l1 = Line::new(p1.into_iter().map(|(x, y)| (Data::Integer(x), Data::Integer(y))).collect());
    let l2 = Line::new(p2.into_iter().map(|(x, y)| (Data::Integer(x), Data::Integer(y))).collect());
    LineGraph::new(vec![l1, l2], None, None, x_scale, y_scale, &chart_float_text)
}

#[test]
fn test_line_line() {
    let pts = vec!["one", "two", "three"];
    let line = create_line_from_points(pts, "Line 1");
    assert_eq!(line.label, Some(String::from("Line 1")));
    let temp: Vec<String> = line.points.iter().map(|p| p.y.to_text(&chart_float_text)).collect();
    assert_eq!(vec!["one", "two", "three"], temp)
}

#[test]
fn test_line_graph() {
    let graph = create_graph();
    assert_eq!(graph.y_label, String::from("Language"));
    assert_eq!(graph.x_label, String::from("Number"));
    graph.lines.iter().for_each(|ln| assert_eq!(ln.points.len(), 5))
}

#[test]
fn test_faulty_graph() {
    let expected = LineGraphError::OutOfRange(String::from("X"), String::from("20"));
    match faulty_graph1() {
        Ok(_) => panic!("Should not reach this test case"),
        Err(e) => assert_eq!(e, expected),
    }
}

#[test]
fn line_graph_missing_labels_are_empty() {
    let line = Line::new(vec![(Data::Integer(1), Data::Integer(1))]);
    assert_eq!(line.label, None);
    let scale = chart_scale(vec![Data::Integer(1)], ScaleKind::Integer);
    let graph = LineGraph::new(vec![line], None, None, scale.clone(), scale, &chart_float_text).unwrap();
    assert_eq!(graph.x_label, "");
    assert_eq!(graph.y_label, "");
}
