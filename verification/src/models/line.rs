//! Line graphs.
use vstd::prelude::*;

use super::common::{find_outside, first_outside, lemma_first_outside, values_of, Point, Scale};
use crate::repr::sheet::utils::is_text_of;
use crate::repr::sheet::{Data, DataValue};

verus! {

/// A line of a line graph: its points, in order, and a label.
#[derive(Debug, Clone, PartialEq)]
pub struct Line {
    pub points: Vec<Point<Data, Data>>,
    pub label: Option<String>,
}

impl Line {
    /// The line through the given coordinates, in order, without a label.
    pub fn new(points: Vec<(Data, Data)>) -> (r: Self)
        ensures
            r.label is None,
            r.points@.len() == points@.len(),
            forall|i: int|
                0 <= i < points@.len() ==> #[trigger] r.points@[i].x == points@[i].0 && r.points@[i].y
                    == points@[i].1,
    {
        let ghost orig = points@;
        let mut rest = points;
        let mut out: Vec<Point<Data, Data>> = Vec::new();
        while rest.len() > 0
            invariant
                out@.len() + rest@.len() == orig.len(),
                rest@ == orig.skip(out@.len() as int),
                forall|i: int| 0 <= i < out@.len() ==> #[trigger] out@[i].x == orig[i].0 && out@[i].y == orig[i].1,
            decreases rest@.len(),
        {
            let (x, y) = rest.remove(0);
            assert(rest@ =~= orig.skip(out@.len() + 1int));
            out.push(Point::new(x, y));
        }
        Self { points: out, label: None }
    }

    pub fn from_points(points: Vec<Point<Data, Data>>) -> (r: Self)
        ensures
            r.points == points,
            r.label is None,
    {
        Self { points, label: None }
    }

    pub fn label(self, label: String) -> (r: Self)
        ensures
            r.label == Some(label),
            r.points == self.points,
    {
        let mut s = self;
        s.label = Some(label);
        s
    }
}

/// Lines along two scales, with axis labels.
#[derive(Debug, Clone, PartialEq)]
pub struct LineGraph {
    pub lines: Vec<Line>,
    pub x_label: String,
    pub y_label: String,
    pub x_scale: Scale,
    pub y_scale: Scale,
}

/// Why a line graph could not be made.
#[derive(Debug, Clone, PartialEq)]
pub enum LineGraphError {
    /// A point lies outside its axis' scale: the axis, then the point's value.
    OutOfRange(String, String),
    /// The scale of the named axis is shorter than expected.
    ScaleLengthError(String),
}

/// The x (`x_axis`) or y values of the points of the lines, line after line.
pub open spec fn line_coords(lines: Seq<Line>, x_axis: bool) -> Seq<DataValue>
    decreases lines.len(),
{
    if lines.len() == 0 {
        Seq::empty()
    } else {
        line_coords(lines.drop_last(), x_axis) + lines.last().points@.map_values(
            |p: Point<Data, Data>|
                if x_axis {
                    p.x.value()
                } else {
                    p.y.value()
                },
        )
    }
}

/// The text of an absent label is empty.
pub open spec fn label_text(label: Option<String>) -> Seq<char> {
    match label {
        Some(l) => l@,
        None => Seq::empty(),
    }
}

/// The data of the x (`x_axis`) or y coordinates of the points of the lines.
pub(crate) fn line_data(lines: &Vec<Line>, x_axis: bool) -> (r: Vec<Data>)
    ensures
        values_of(r@) == line_coords(lines@, x_axis),
{
    let mut out: Vec<Data> = Vec::new();
    let mut i: usize = 0;
    while i < lines.len()
        invariant
            i <= lines@.len(),
            values_of(out@) == line_coords(lines@.take(i as int), x_axis),
        decreases lines@.len() - i,
    {
        let pts = &lines[i].points;
        let ghost before = values_of(out@);
        let ghost vals = pts@.map_values(
            |p: Point<Data, Data>|
                if x_axis {
                    p.x.value()
                } else {
                    p.y.value()
                },
        );
        let mut j: usize = 0;
        while j < pts.len()
            invariant
                j <= pts@.len(),
                vals == pts@.map_values(
                    |p: Point<Data, Data>|
                        if x_axis {
                            p.x.value()
                        } else {
                            p.y.value()
                        },
                ),
                values_of(out@) == before + vals.take(j as int),
            decreases pts@.len() - j,
        {
            let d = if x_axis {
                pts[j].x.duplicate()
            } else {
                pts[j].y.duplicate()
            };
            let ghost prev = out@;
            out.push(d);
            proof {
                assert(d.value() == vals[j as int]);
                assert(values_of(out@) == values_of(prev).push(d.value()));
                assert(vals.take(j + 1) =~= vals.take(j as int).push(vals[j as int]));
            }
            j = j + 1;
            assert(values_of(out@) =~= before + vals.take(j as int));
        }
        proof {
            assert(vals.take(j as int) =~= vals);
            assert(lines@.take(i + 1).drop_last() =~= lines@.take(i as int));
            assert(lines@.take(i + 1).last() == lines@[i as int]);
        }
        i = i + 1;
    }
    assert(lines@.take(i as int) =~= lines@);
    out
}

impl LineGraph {
    /// A graph of `lines` along the scales, absent labels taken as empty;
    /// fails with the first point out of its scale's range, x values first,
    /// its value written with `float_text` where it is a float.
    pub fn new<F: Fn(u32) -> String>(
        lines: Vec<Line>,
        x_label: Option<String>,
        y_label: Option<String>,
        x_scale: Scale,
        y_scale: Scale,
        float_text: &F,
    ) -> (r: Result<Self, LineGraphError>)
        requires
            x_scale.wf(),
            x_scale.points_fit(),
            y_scale.wf(),
            y_scale.points_fit(),
            forall|b: u32| call_requires(*float_text, (b,)),
        ensures
            r is Ok <==> first_outside(line_coords(lines@, true), x_scale) is None && first_outside(
                line_coords(lines@, false),
                y_scale,
            ) is None,
            r matches Ok(g) ==> g.lines == lines && g.x_label@ == label_text(x_label) && g.y_label@ == label_text(
                y_label,
            ) && g.x_scale == x_scale && g.y_scale == y_scale,
            r matches Err(e) ==> (e matches LineGraphError::OutOfRange(axis, value) && match first_outside(
                line_coords(lines@, true),
                x_scale,
            ) {
                Some(i) => axis@ == seq!['X'] && is_text_of(value, line_coords(lines@, true)[i], *float_text),
                None => match first_outside(line_coords(lines@, false), y_scale) {
                    Some(i) => axis@ == seq!['Y'] && is_text_of(value, line_coords(lines@, false)[i], *float_text),
                    None => false,
                },
            }),
    {
        let x_label = match x_label {
            Some(l) => l,
            None => String::new(),
        };
        let y_label = match y_label {
            Some(l) => l,
            None => String::new(),
        };
        let xs = line_data(&lines, true);
        let ys = line_data(&lines, false);
        proof {
            lemma_first_outside(values_of(xs@), x_scale);
            lemma_first_outside(values_of(ys@), y_scale);
        }
        match find_outside(&x_scale, &xs) {
            Some(i) => {
                proof {
                    reveal_strlit("X");
                    assert("X"@ =~= seq!['X']);
                }
                let text = xs[i].to_text(float_text);
                assert(values_of(xs@)[i as int] == xs@[i as int].value());
                return Err(LineGraphError::OutOfRange("X".to_owned(), text));
            },
            None => {},
        }
        match find_outside(&y_scale, &ys) {
            Some(i) => {
                proof {
                    reveal_strlit("Y");
                    assert("Y"@ =~= seq!['Y']);
                }
                let text = ys[i].to_text(float_text);
                assert(values_of(ys@)[i as int] == ys@[i as int].value());
                return Err(LineGraphError::OutOfRange("Y".to_owned(), text));
            },
            None => {},
        }
        Ok(Self { lines, x_label, y_label, x_scale, y_scale })
    }
}

} // verus!
