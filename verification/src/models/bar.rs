//! Bar charts.
use vstd::prelude::*;

use super::common::{find_outside, first_outside, lemma_first_outside, values_of, Point, Scale};
use crate::repr::sheet::utils::is_text_of;
use crate::repr::sheet::{Data, DataValue};

verus! {

/// A bar of a bar chart.
#[derive(Clone, Debug, PartialEq)]
pub struct Bar {
    pub label: Option<String>,
    pub point: Point<Data, Data>,
}

impl Bar {
    pub fn new(label: String, point: Point<Data, Data>) -> (r: Self)
        ensures
            r.label == Some(label),
            r.point == point,
    {
        Self { point, label: Some(label) }
    }

    pub fn from_point(point: Point<Data, Data>) -> (r: Self)
        ensures
            r.label is None,
            r.point == point,
    {
        Self { point, label: None }
    }

    pub fn label(self, label: String) -> (r: Self)
        ensures
            r.label == Some(label),
            r.point == self.point,
    {
        let mut s = self;
        s.label = Some(label);
        s
    }
}

/// A chart of bars along two scales.
#[derive(Clone, Debug, PartialEq)]
pub struct BarChart {
    pub bars: Vec<Bar>,
    pub x_label: Option<String>,
    pub y_label: Option<String>,
    pub x_scale: Scale,
    pub y_scale: Scale,
}

/// Why a bar chart could not be made.
#[derive(Debug, Clone, PartialEq, Eq)]
pub enum BarChartError {
    /// A point lies outside its axis' scale: the axis, then the point's value.
    OutOfRange(String, String),
}

/// The x values of the bars.
pub open spec fn bar_xs(bars: Seq<Bar>) -> Seq<DataValue> {
    bars.map_values(|b: Bar| b.point.x.value())
}

/// The y values of the bars.
pub open spec fn bar_ys(bars: Seq<Bar>) -> Seq<DataValue> {
    bars.map_values(|b: Bar| b.point.y.value())
}

/// `e` is the error for the values `xs` on the x axis and `ys` on the y
/// axis: the first x value outside `x_scale`, else the first y value outside
/// `y_scale`, with its text as `float_text` writes floats.
pub open spec fn out_of_range_error<F: Fn(u32) -> String>(
    axis: String,
    value: String,
    xs: Seq<DataValue>,
    ys: Seq<DataValue>,
    x_scale: Scale,
    y_scale: Scale,
    float_text: F,
) -> bool {
    match first_outside(xs, x_scale) {
        Some(i) => axis@ == seq!['X'] && is_text_of(value, xs[i], float_text),
        None => match first_outside(ys, y_scale) {
            Some(i) => axis@ == seq!['Y'] && is_text_of(value, ys[i], float_text),
            None => false,
        },
    }
}

/// The data of the x (`x_axis`) or y coordinates of the bars.
fn bar_coords(bars: &Vec<Bar>, x_axis: bool) -> (r: Vec<Data>)
    ensures
        values_of(r@) == if x_axis {
            bar_xs(bars@)
        } else {
            bar_ys(bars@)
        },
{
    let mut out: Vec<Data> = Vec::new();
    let mut i: usize = 0;
    while i < bars.len()
        invariant
            i <= bars@.len(),
            out@.len() == i,
            forall|k: int|
                0 <= k < i ==> #[trigger] out@[k].value() == if x_axis {
                    bars@[k].point.x.value()
                } else {
                    bars@[k].point.y.value()
                },
        decreases bars@.len() - i,
    {
        let d = if x_axis {
            bars[i].point.x.duplicate()
        } else {
            bars[i].point.y.duplicate()
        };
        out.push(d);
        i = i + 1;
    }
    assert(values_of(out@) =~= if x_axis {
        bar_xs(bars@)
    } else {
        bar_ys(bars@)
    });
    out
}

impl BarChart {
    /// A chart of `bars` along the scales, without axis labels; fails with
    /// the first point out of its scale's range, x values first, its value
    /// written with `float_text` where it is a float.
    pub fn new<F: Fn(u32) -> String>(bars: Vec<Bar>, x_scale: Scale, y_scale: Scale, float_text: &F) -> (r: Result<
        Self,
        BarChartError,
    >)
        requires
            x_scale.wf(),
            x_scale.points_fit(),
            y_scale.wf(),
            y_scale.points_fit(),
            forall|b: u32| call_requires(*float_text, (b,)),
        ensures
            r is Ok <==> (forall|i: int| 0 <= i < bars@.len() ==> x_scale.holds(#[trigger] bar_xs(bars@)[i]))
                && (forall|i: int| 0 <= i < bars@.len() ==> y_scale.holds(#[trigger] bar_ys(bars@)[i])),
            r matches Ok(c) ==> c.bars == bars && c.x_label is None && c.y_label is None && c.x_scale == x_scale
                && c.y_scale == y_scale,
            r matches Err(e) ==> (e matches BarChartError::OutOfRange(axis, value) && out_of_range_error(
                axis,
                value,
                bar_xs(bars@),
                bar_ys(bars@),
                x_scale,
                y_scale,
                *float_text,
            )),
    {
        let xs = bar_coords(&bars, true);
        let ys = bar_coords(&bars, false);
        proof {
            lemma_first_outside(bar_xs(bars@), x_scale);
            lemma_first_outside(bar_ys(bars@), y_scale);
        }
        match find_outside(&x_scale, &xs) {
            Some(i) => {
                proof {
                    reveal_strlit("X");
                    assert("X"@ =~= seq!['X']);
                }
                let text = xs[i].to_text(float_text);
                assert(values_of(xs@)[i as int] == xs@[i as int].value());
                return Err(BarChartError::OutOfRange("X".to_owned(), text));
            },
            None => {},
        }
        match find_outside(&y_scale, &ys) {
            Some(i) => {
                proof {
                    reveal_strlit("Y");
                    assert("Y"@ =~= seq!['Y']);
                }
                let text = ys[i].to_text(float_text);
                assert(values_of(ys@)[i as int] == ys@[i as int].value());
                return Err(BarChartError::OutOfRange("Y".to_owned(), text));
            },
            None => {},
        }
        Ok(Self { x_scale, y_scale, bars, x_label: None, y_label: None })
    }

    pub fn x_label(self, label: String) -> (r: Self)
        ensures
            r == (Self { x_label: Some(label), ..self }),
    {
        let mut s = self;
        s.x_label = Some(label);
        s
    }

    pub fn y_label(self, label: String) -> (r: Self)
        ensures
            r == (Self { y_label: Some(label), ..self }),
    {
        let mut s = self;
        s.y_label = Some(label);
        s
    }
}

} // verus!
