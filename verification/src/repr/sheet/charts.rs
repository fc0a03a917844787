//! Charts drawn from the rows of a sheet.
use std::collections::HashSet;
use vstd::prelude::*;

use super::super::super::models::bar::{out_of_range_error, BarChart, Bar};
use super::super::super::models::common::{
    dedup, first_outside, law_categorical_scale_holds_its_values, lemma_first_outside, lemma_made_scale_fits, made_scale,
    range_end_fits, scale_fits, values_of, Point, Scale, ScaleKind, ScaleModel,
};
use super::error::Error;
use super::super::super::models::line::{label_text, line_coords, line_data, Line, LineGraph};
use super::utils::{
    is_text_of, BarChartAxisLabelStrategy, BarChartBarLabels, ColumnHeader, ColumnType, Data, DataValue, LineLabelStrategy,
};
use super::{row_fits, Row, Sheet};

verus! {

broadcast use vstd::std_specs::hash::group_hash_axioms;

/// The positions below `n` that `exclude` does not list, in order.
pub open spec fn kept_rows(n: nat, exclude: Set<usize>) -> Seq<int>
    decreases n,
{
    if n == 0 {
        Seq::empty()
    } else {
        let k = kept_rows((n - 1) as nat, exclude);
        if exclude.contains((n - 1) as usize) {
            k
        } else {
            k.push(n - 1)
        }
    }
}

proof fn lemma_kept_rows(n: nat, exclude: Set<usize>)
    ensures
        forall|k: int| 0 <= k < kept_rows(n, exclude).len() ==> 0 <= #[trigger] kept_rows(n, exclude)[k] < n,
    decreases n,
{
    if n > 0 {
        lemma_kept_rows((n - 1) as nat, exclude);
        let p = kept_rows((n - 1) as nat, exclude);
        assert forall|k: int| 0 <= k < kept_rows(n, exclude).len() implies 0 <= #[trigger] kept_rows(n, exclude)[k]
            < n by {
            if k < p.len() {
                assert(kept_rows(n, exclude)[k] == p[k]);
            }
        }
    }
}

/// The positions below `n` that `exclude` does not list, in order.
fn kept_indices(n: usize, exclude: &HashSet<usize>) -> (r: Vec<usize>)
    ensures
        r@.len() == kept_rows(n as nat, exclude@).len(),
        forall|k: int| 0 <= k < r@.len() ==> #[trigger] r@[k] == kept_rows(n as nat, exclude@)[k],
{
    let mut out: Vec<usize> = Vec::new();
    let mut i: usize = 0;
    while i < n
        invariant
            i <= n,
            out@.len() == kept_rows(i as nat, exclude@).len(),
            forall|k: int| 0 <= k < out@.len() ==> #[trigger] out@[k] == kept_rows(i as nat, exclude@)[k],
        decreases n - i,
    {
        if !exclude.contains(&i) {
            out.push(i);
        }
        i = i + 1;
    }
    out
}

/// The kind of scale for the values of a column of type `k`.
pub open spec fn scale_kind_of(k: ColumnType) -> ScaleKind {
    match k {
        ColumnType::Number => ScaleKind::Number,
        ColumnType::Integer => ScaleKind::Integer,
        ColumnType::Float => ScaleKind::Float,
        _ => ScaleKind::Categorical,
    }
}

/// What the cells of column `col` of the rows at `rows` hold.
pub open spec fn column_values(s: Sheet, rows: Seq<int>, col: int) -> Seq<DataValue> {
    rows.map_values(|r: int| s.row_seq()[r].contents()[col])
}

/// Why a bar chart cannot be drawn from columns `x_col` and `y_col`, if
/// it cannot: a label column, then each column, out of range or of no type in
/// particular.
pub open spec fn bar_check(s: Sheet, x_col: usize, y_col: usize, bar_label: BarChartBarLabels) -> Option<Seq<char>> {
    let h = s.header_seq();
    if (bar_label matches BarChartBarLabels::FromColumn(idx) && idx >= h.len()) {
        Some("Bar chart label column out of range"@)
    } else if x_col >= h.len() {
        Some("Bar chart column out of range"@)
    } else if h[x_col as int].kind == ColumnType::Untyped {
        Some("Cannot convert from non-uniform column"@)
    } else if y_col >= h.len() {
        Some("Bar chart column out of range"@)
    } else if h[y_col as int].kind == ColumnType::Untyped {
        Some("Cannot convert from non-uniform column"@)
    } else {
        None
    }
}

/// `b` is bar `k` of the chart, drawn from row `r`: its point the cells of
/// the columns, its label as `bar_label` says.
pub open spec fn is_bar_of<F: Fn(u32) -> String>(
    b: Bar,
    s: Sheet,
    r: int,
    k: int,
    x_col: usize,
    y_col: usize,
    bar_label: BarChartBarLabels,
    float_text: F,
) -> bool {
    let c = s.row_seq()[r].contents();
    &&& b.point.x.value() == c[x_col as int]
    &&& b.point.y.value() == c[y_col as int]
    &&& match bar_label {
        BarChartBarLabels::NoLabels => b.label is None,
        BarChartBarLabels::Provided(ls) => if k < ls@.len() && ls@[k]@.len() > 0 {
            b.label == Some(ls@[k])
        } else {
            b.label is None
        },
        BarChartBarLabels::FromColumn(ind) => (b.label matches Some(t) && is_text_of(t, c[ind as int], float_text)),
    }
}

/// The axis labels that `axis_labels` gives a chart of columns `x_col` and
/// `y_col`.
pub open spec fn axis_labels_of(
    x: Option<String>,
    y: Option<String>,
    s: Sheet,
    x_col: usize,
    y_col: usize,
    axis_labels: BarChartAxisLabelStrategy,
) -> bool {
    match axis_labels {
        BarChartAxisLabelStrategy::Headers => (x matches Some(l) && l@ == s.header_seq()[x_col as int].label@) && (
        y matches Some(l) && l@ == s.header_seq()[y_col as int].label@),
        BarChartAxisLabelStrategy::Provided { x: a, y: b } => x == Some(a) && y == Some(b),
        BarChartAxisLabelStrategy::NoLabels => x is None && y is None,
    }
}

impl Sheet {
    fn validate_to_barchart(&self, x_col: usize, y_col: usize, bar_label: &BarChartBarLabels) -> (r: Result<(), Error>)
        ensures
            bar_check(*self, x_col, y_col, *bar_label) is None ==> r is Ok,
            bar_check(*self, x_col, y_col, *bar_label) matches Some(m) ==> (r matches Err(Error::ConversionError(t))
                && t@ == m),
    {
        let headers = self.get_headers();
        if let BarChartBarLabels::FromColumn(idx) = bar_label {
            if *idx >= headers.len() {
                return Err(Error::ConversionError("Bar chart label column out of range".to_owned()));
            }
        }
        if x_col >= headers.len() {
            return Err(Error::ConversionError("Bar chart column out of range".to_owned()));
        }
        if headers[x_col].kind == ColumnType::Untyped {
            return Err(Error::ConversionError("Cannot convert from non-uniform column".to_owned()));
        }
        if y_col >= headers.len() {
            return Err(Error::ConversionError("Bar chart column out of range".to_owned()));
        }
        if headers[y_col].kind == ColumnType::Untyped {
            return Err(Error::ConversionError("Cannot convert from non-uniform column".to_owned()));
        }
        Ok(())
    }

    /// The data of the cells of column `col` of the rows at `rows`.
    fn column_data(&self, rows: &Vec<usize>, col: usize) -> (r: Vec<Data>)
        requires
            forall|k: int| 0 <= k < rows@.len() ==> #[trigger] rows@[k] < self.row_seq().len(),
            forall|k: int| 0 <= k < rows@.len() ==> col < self.row_seq()[#[trigger] rows@[k] as int].cell_seq().len(),
        ensures
            values_of(r@) == column_values(*self, rows@.map_values(|i: usize| i as int), col as int),
    {
        let mut out: Vec<Data> = Vec::new();
        let mut k: usize = 0;
        while k < rows.len()
            invariant
                k <= rows@.len(),
                forall|q: int| 0 <= q < rows@.len() ==> #[trigger] rows@[q] < self.row_seq().len(),
                forall|q: int| 0 <= q < rows@.len() ==> col < self.row_seq()[#[trigger] rows@[q] as int].cell_seq().len(),
                out@.len() == k,
                forall|q: int| 0 <= q < k ==> #[trigger] out@[q].value() == self.row_seq()[rows@[q] as int].contents()[col as int],
            decreases rows@.len() - k,
        {
            let ghost ri = rows@[k as int];
            assert(col < self.row_seq()[ri as int].cell_seq().len());
            let row = self.get_row_by_index(rows[k]).unwrap();
            let cell = row.get_cell_by_index(col).unwrap();
            out.push(cell.get_data().duplicate());
            k = k + 1;
        }
        assert(values_of(out@) =~= column_values(*self, rows@.map_values(|i: usize| i as int), col as int));
        out
    }
}

/// Every kept row has the cells a bar chart of columns `x_col` and `y_col`
/// (and a label column) reads, where they are columns of the sheet.
pub open spec fn rows_cover(s: Sheet, exclude: Set<usize>, x_col: usize, y_col: usize, bar_label: BarChartBarLabels) -> bool {
    let h = s.header_seq().len();
    forall|i: int|
        0 <= i < s.row_seq().len() && !exclude.contains(i as usize) ==> {
            let n = (#[trigger] s.row_seq()[i]).cell_seq().len();
            &&& x_col < h ==> x_col < n
            &&& y_col < h ==> y_col < n
            &&& (bar_label matches BarChartBarLabels::FromColumn(k) && k < h) ==> bar_label->FromColumn_0 < n
        }
}

/// `c` is the bar chart of columns `x_col` and `y_col` of the kept rows of
/// `s`, its scales made of the columns' cells.
pub open spec fn is_bar_chart_of<F: Fn(u32) -> String, R: Fn(&Vec<u32>) -> (u32, u32, u32, usize), A: Fn(u32, u32, usize) -> u32>(
    c: BarChart,
    s: Sheet,
    x_col: usize,
    y_col: usize,
    bar_label: BarChartBarLabels,
    axis_labels: BarChartAxisLabelStrategy,
    exclude: Set<usize>,
    float_text: F,
    float_range: R,
    float_at: A,
) -> bool {
    let rows = kept_rows(s.row_seq().len(), exclude);
    &&& c.bars@.len() == rows.len()
    &&& forall|k: int|
        0 <= k < rows.len() ==> is_bar_of(#[trigger] c.bars@[k], s, rows[k], k, x_col, y_col, bar_label, float_text)
    &&& axis_labels_of(c.x_label, c.y_label, s, x_col, y_col, axis_labels)
    &&& made_scale(
        c.x_scale,
        column_values(s, rows, x_col as int),
        scale_kind_of(s.header_seq()[x_col as int].kind),
        float_range,
        float_at,
    )
    &&& made_scale(
        c.y_scale,
        column_values(s, rows, y_col as int),
        scale_kind_of(s.header_seq()[y_col as int].kind),
        float_range,
        float_at,
    )
}

/// Some scales made of `xs` and `ys` leave the point written `value` out of
/// the scale of `axis` (see [`out_of_range_error`]).
pub open spec fn chart_out_of_range<F: Fn(u32) -> String, R: Fn(&Vec<u32>) -> (u32, u32, u32, usize), A: Fn(u32, u32, usize) -> u32>(
    axis: String,
    value: String,
    xs: Seq<DataValue>,
    ys: Seq<DataValue>,
    kx: ScaleKind,
    ky: ScaleKind,
    float_text: F,
    float_range: R,
    float_at: A,
) -> bool {
    exists|sx: Scale, sy: Scale|
        #[trigger] made_scale(sx, xs, kx, float_range, float_at) && #[trigger] made_scale(sy, ys, ky, float_range, float_at)
            && out_of_range_error(axis, value, xs, ys, sx, sy, float_text)
}

impl Sheet {
    /// A bar chart of columns `x_col` (x values) and `y_col` (y values) of
    /// the rows not listed in `exclude_row`, with the given bar and axis
    /// labels; its scales are made of the columns' cells, a float one laid out
    /// by `float_range` and `float_at`. Fails with a conversion error for a
    /// column out of range or of no type in particular, and with the chart's
    /// error for a point out of its scale.
    pub fn create_bar_chart<
        F: Fn(u32) -> String,
        R: Fn(&Vec<u32>) -> (u32, u32, u32, usize),
        A: Fn(u32, u32, usize) -> u32,
    >(
        self,
        x_col: usize,
        y_col: usize,
        bar_label: BarChartBarLabels,
        axis_labels: BarChartAxisLabelStrategy,
        exclude_row: HashSet<usize>,
        float_text: &F,
        float_range: &R,
        float_at: &A,
    ) -> (r: Result<BarChart, Error>)
        requires
            forall|b: u32| call_requires(*float_text, (b,)),
            forall|v: Vec<u32>| call_requires(*float_range, (&v,)),
            forall|a: u32, b: u32, i: usize| call_requires(*float_at, (a, b, i)),
            forall|v: Vec<u32>, res: (u32, u32, u32, usize)| #[trigger] call_ensures(*float_range, (&v,), res) ==> res.3 >= 1,
            rows_cover(self, exclude_row@, x_col, y_col, bar_label),
            bar_check(self, x_col, y_col, bar_label) is None ==> {
                let rows = kept_rows(self.row_seq().len(), exclude_row@);
                let xs = column_values(self, rows, x_col as int);
                let ys = column_values(self, rows, y_col as int);
                let kx = scale_kind_of(self.header_seq()[x_col as int].kind);
                let ky = scale_kind_of(self.header_seq()[y_col as int].kind);
                &&& scale_fits(xs, kx)
                &&& range_end_fits(xs, kx)
                &&& scale_fits(ys, ky)
                &&& range_end_fits(ys, ky)
            },
        ensures
            bar_check(self, x_col, y_col, bar_label) matches Some(m) ==> (r matches Err(Error::ConversionError(t))
                && t@ == m),
            r matches Ok(c) ==> bar_check(self, x_col, y_col, bar_label) is None && is_bar_chart_of(
                c,
                self,
                x_col,
                y_col,
                bar_label,
                axis_labels,
                exclude_row@,
                *float_text,
                *float_range,
                *float_at,
            ),
            bar_check(self, x_col, y_col, bar_label) is None && r is Err ==> (r matches Err(Error::BarChartError(e))
                && e matches super::super::super::models::bar::BarChartError::OutOfRange(axis, value)
                && chart_out_of_range(
                axis,
                value,
                column_values(self, kept_rows(self.row_seq().len(), exclude_row@), x_col as int),
                column_values(self, kept_rows(self.row_seq().len(), exclude_row@), y_col as int),
                scale_kind_of(self.header_seq()[x_col as int].kind),
                scale_kind_of(self.header_seq()[y_col as int].kind),
                *float_text,
                *float_range,
                *float_at,
            )),
    {
        match self.validate_to_barchart(x_col, y_col, &bar_label) {
            Ok(()) => {},
            Err(e) => {
                return Err(e);
            },
        }
        let ghost rows_spec = kept_rows(self.row_seq().len(), exclude_row@);
        let rows = kept_indices(self.height(), &exclude_row);
        proof {
            lemma_kept_rows(self.row_seq().len(), exclude_row@);
            assert(rows@.map_values(|i: usize| i as int) =~= rows_spec);
            assert forall|k: int| 0 <= k < rows@.len() implies !exclude_row@.contains(#[trigger] rows@[k]) by {
                lemma_kept_excluded(self.row_seq().len(), exclude_row@, k);
            }
        }
        let xs = self.column_data(&rows, x_col);
        let ys = self.column_data(&rows, y_col);
        let ghost xv = values_of(xs@);
        let ghost yv = values_of(ys@);
        let headers = self.get_headers();
        let kx = ScaleKind::from_column(headers[x_col].kind);
        let ky = ScaleKind::from_column(headers[y_col].kind);
        let mut bars: Vec<Bar> = Vec::new();
        let mut k: usize = 0;
        while k < rows.len()
            invariant
                k <= rows@.len(),
                xs@.len() == rows@.len(),
                ys@.len() == rows@.len(),
                rows_spec == rows@.map_values(|i: usize| i as int),
                xv == values_of(xs@),
                yv == values_of(ys@),
                xv == column_values(self, rows_spec, x_col as int),
                yv == column_values(self, rows_spec, y_col as int),
                forall|q: int| 0 <= q < rows@.len() ==> #[trigger] rows@[q] < self.row_seq().len(),
                forall|q: int| 0 <= q < rows@.len() ==> !exclude_row@.contains(#[trigger] rows@[q]),
                rows_cover(self, exclude_row@, x_col, y_col, bar_label),
                bar_check(self, x_col, y_col, bar_label) is None,
                forall|b: u32| call_requires(*float_text, (b,)),
                bars@.len() == k,
                forall|q: int|
                    0 <= q < k ==> is_bar_of(#[trigger] bars@[q], self, rows_spec[q], q, x_col, y_col, bar_label, *float_text),
            decreases rows@.len() - k,
        {
            let ghost rk = rows@[k as int];
            let point = Point::new(xs[k].duplicate(), ys[k].duplicate());
            let label: Option<String> = match &bar_label {
                BarChartBarLabels::NoLabels => None,
                BarChartBarLabels::Provided(ls) => {
                    if k < ls.len() {
                        if ls[k].as_str().is_empty() {
                            None
                        } else {
                            Some(ls[k].clone())
                        }
                    } else {
                        None
                    }
                },
                BarChartBarLabels::FromColumn(ind) => {
                    assert(!exclude_row@.contains(rk));
                    let row = self.get_row_by_index(rows[k]).unwrap();
                    let cell = row.get_cell_by_index(*ind).unwrap();
                    Some(cell.get_data().to_text(float_text))
                },
            };
            let bar = Bar { label, point };
            proof {
                assert(xv[k as int] == xs@[k as int].value());
                assert(yv[k as int] == ys@[k as int].value());
            }
            bars.push(bar);
            k = k + 1;
        }
        let (x_label, y_label) = match axis_labels {
            BarChartAxisLabelStrategy::Headers => (Some(headers[x_col].label.clone()), Some(headers[y_col].label.clone())),
            BarChartAxisLabelStrategy::Provided { x, y } => (Some(x), Some(y)),
            BarChartAxisLabelStrategy::NoLabels => (None, None),
        };
        let x_scale = Scale::new(xs, kx, float_range, float_at);
        let y_scale = Scale::new(ys, ky, float_range, float_at);
        proof {
            lemma_made_scale_fits(x_scale, xv, kx, *float_range, *float_at);
            lemma_made_scale_fits(y_scale, yv, ky, *float_range, *float_at);
            assert(super::super::super::models::bar::bar_xs(bars@) =~= xv);
            assert(super::super::super::models::bar::bar_ys(bars@) =~= yv);
        }
        match BarChart::new(bars, x_scale, y_scale, float_text) {
            Ok(chart) => {
                let mut chart = chart;
                chart.x_label = x_label;
                chart.y_label = y_label;
                Ok(chart)
            },
            Err(e) => Err(Error::BarChartError(e)),
        }
    }
}

proof fn lemma_kept_excluded(n: nat, exclude: Set<usize>, k: int)
    requires
        0 <= k < kept_rows(n, exclude).len(),
    ensures
        !exclude.contains(kept_rows(n, exclude)[k] as usize),
    decreases n,
{
    if n > 0 {
        let p = kept_rows((n - 1) as nat, exclude);
        if k < p.len() {
            assert(kept_rows(n, exclude)[k] == p[k]);
            lemma_kept_excluded((n - 1) as nat, exclude, k);
        }
    }
}

/// The column a line label strategy takes the labels from, if any.
pub open spec fn label_col(strat: LineLabelStrategy) -> Option<usize> {
    match strat {
        LineLabelStrategy::FromCell(i) => Some(i),
        _ => None,
    }
}

/// The columns below `n` other than `skip` that `exclude` does not list, in
/// order.
pub open spec fn kept_cols(n: nat, skip: Option<usize>, exclude: Set<usize>) -> Seq<int>
    decreases n,
{
    if n == 0 {
        Seq::empty()
    } else {
        let k = kept_cols((n - 1) as nat, skip, exclude);
        if exclude.contains((n - 1) as usize) || skip == Some((n - 1) as usize) {
            k
        } else {
            k.push(n - 1)
        }
    }
}

proof fn lemma_kept_cols(n: nat, skip: Option<usize>, exclude: Set<usize>)
    ensures
        forall|k: int| 0 <= k < kept_cols(n, skip, exclude).len() ==> 0 <= #[trigger] kept_cols(n, skip, exclude)[k] < n,
    decreases n,
{
    if n > 0 {
        lemma_kept_cols((n - 1) as nat, skip, exclude);
        let p = kept_cols((n - 1) as nat, skip, exclude);
        assert forall|k: int| 0 <= k < kept_cols(n, skip, exclude).len() implies 0 <= #[trigger] kept_cols(
            n,
            skip,
            exclude,
        )[k] < n by {
            if k < p.len() {
                assert(kept_cols(n, skip, exclude)[k] == p[k]);
            }
        }
    }
}

/// The columns a line graph is drawn at: every column below `n`, in order,
/// other than the label column `skip` and those `exclude` lists. With no
/// label column and nothing excluded, that is every column.
pub proof fn law_kept_cols(n: nat, skip: Option<usize>, exclude: Set<usize>)
    requires
        n <= usize::MAX,
    ensures
        forall|k: int|
            0 <= k < kept_cols(n, skip, exclude).len() ==> {
                let c = #[trigger] kept_cols(n, skip, exclude)[k];
                &&& 0 <= c < n
                &&& !exclude.contains(c as usize)
                &&& skip != Some(c as usize)
            },
        forall|a: int, b: int|
            0 <= a < b < kept_cols(n, skip, exclude).len() ==> #[trigger] kept_cols(n, skip, exclude)[a]
                < #[trigger] kept_cols(n, skip, exclude)[b],
        forall|c: int|
            0 <= c < n && !exclude.contains(c as usize) && skip != Some(c as usize) ==> #[trigger] kept_cols(
                n,
                skip,
                exclude,
            ).contains(c),
        skip is None && exclude == Set::<usize>::empty() ==> kept_cols(n, skip, exclude) == Seq::new(n, |i: int| i),
    decreases n,
{
    if n > 0 {
        let m = (n - 1) as nat;
        law_kept_cols(m, skip, exclude);
        let p = kept_cols(m, skip, exclude);
        let q = kept_cols(n, skip, exclude);
        assert forall|k: int| 0 <= k < p.len() implies q[k] == p[k] by {}
        assert forall|c: int|
            0 <= c < n && !exclude.contains(c as usize) && skip != Some(c as usize) implies #[trigger] q.contains(c) by {
            if c < m {
                assert(p.contains(c));
                let k = choose|k: int| 0 <= k < p.len() && p[k] == c;
                assert(q[k] == c);
            } else {
                assert(q[p.len() as int] == c);
            }
        }
        if skip is None && exclude == Set::<usize>::empty() {
            assert(q =~= Seq::new(n, |i: int| i));
        }
    }
}

/// The rows a chart is drawn from: with nothing excluded, every row, in
/// order; else every row below `n` that `exclude` does not list.
pub proof fn law_kept_rows(n: nat, exclude: Set<usize>)
    requires
        n <= usize::MAX,
    ensures
        forall|k: int|
            0 <= k < kept_rows(n, exclude).len() ==> 0 <= #[trigger] kept_rows(n, exclude)[k] < n && !exclude.contains(
                kept_rows(n, exclude)[k] as usize,
            ),
        forall|c: int| 0 <= c < n && !exclude.contains(c as usize) ==> #[trigger] kept_rows(n, exclude).contains(c),
        exclude == Set::<usize>::empty() ==> kept_rows(n, exclude) == Seq::new(n, |i: int| i),
    decreases n,
{
    if n > 0 {
        let m = (n - 1) as nat;
        law_kept_rows(m, exclude);
        let p = kept_rows(m, exclude);
        let q = kept_rows(n, exclude);
        assert forall|k: int| 0 <= k < p.len() implies q[k] == p[k] by {}
        assert forall|c: int| 0 <= c < n && !exclude.contains(c as usize) implies #[trigger] q.contains(c) by {
            if c < m {
                assert(p.contains(c));
                let k = choose|k: int| 0 <= k < p.len() && p[k] == c;
                assert(q[k] == c);
            } else {
                assert(q[p.len() as int] == c);
            }
        }
        if exclude == Set::<usize>::empty() {
            assert(q =~= Seq::new(n, |i: int| i));
        }
    }
}

/// The columns below `n` other than `skip` that `exclude` does not list.
fn kept_columns(n: usize, skip: Option<usize>, exclude: &HashSet<usize>) -> (r: Vec<usize>)
    ensures
        r@.len() == kept_cols(n as nat, skip, exclude@).len(),
        forall|k: int| 0 <= k < r@.len() ==> #[trigger] r@[k] == kept_cols(n as nat, skip, exclude@)[k],
{
    let mut out: Vec<usize> = Vec::new();
    let mut i: usize = 0;
    while i < n
        invariant
            i <= n,
            out@.len() == kept_cols(i as nat, skip, exclude@).len(),
            forall|k: int| 0 <= k < out@.len() ==> #[trigger] out@[k] == kept_cols(i as nat, skip, exclude@)[k],
        decreases n - i,
    {
        let skipped = match skip {
            Some(j) => j == i,
            None => false,
        };
        if !exclude.contains(&i) && !skipped {
            out.push(i);
        }
        i = i + 1;
    }
    out
}

/// Every header but the one at `skip` has the same type.
pub open spec fn uniform(h: Seq<super::utils::ColumnHeader>, skip: Option<usize>) -> bool {
    forall|i: int, j: int|
        0 <= i < h.len() && 0 <= j < h.len() && skip != Some(i as usize) && skip != Some(j as usize) ==> #[trigger] h[i].kind
            == #[trigger] h[j].kind
}

/// Why a line graph cannot be drawn from the sheet, if it cannot: a column
/// of no type in particular, a label column out of range, columns of
/// different types.
pub open spec fn line_check(s: Sheet, strat: LineLabelStrategy) -> Option<Seq<char>> {
    let h = s.header_seq();
    if exists|j: int| 0 <= j < h.len() && (#[trigger] h[j]).kind == ColumnType::Untyped {
        Some("Cannot convert non uniform type column"@)
    } else if (strat matches LineLabelStrategy::FromCell(idx) && idx >= h.len()) {
        Some("Tried to assign invalid column as label"@)
    } else if !uniform(h, label_col(strat)) {
        Some("Cannot convert different column types"@)
    } else {
        None
    }
}

/// The kind of scale for the y values of a line graph: that of the first
/// column that is not the label column.
pub open spec fn line_kind(s: Sheet, strat: LineLabelStrategy) -> ScaleKind {
    let h = s.header_seq();
    let first: int = if label_col(strat) == Some(0usize) {
        1
    } else {
        0
    };
    if first < h.len() {
        scale_kind_of(h[first].kind)
    } else {
        ScaleKind::Categorical
    }
}

/// The labels of the columns at `cols`, as texts.
pub open spec fn col_labels(s: Sheet, cols: Seq<int>) -> Seq<DataValue> {
    cols.map_values(|c: int| DataValue::Text(s.header_seq()[c].label@))
}

/// `line` is line `k` of a line graph of the sheet, drawn from row `r`: a
/// point per column at `cols`, the column's label against the cell; its label
/// as `strat` says.
pub open spec fn is_line_of<F: Fn(u32) -> String>(
    line: Line,
    s: Sheet,
    r: int,
    k: int,
    cols: Seq<int>,
    strat: LineLabelStrategy,
    float_text: F,
) -> bool {
    is_row_line(line, s.row_seq()[r], s.header_seq(), k, cols, strat, float_text)
}

/// `line` is line `k` drawn from `row` under `headers`: a point per column at
/// `cols`, the column's label against the row's cell; its label as `strat`
/// says.
pub open spec fn is_row_line<F: Fn(u32) -> String>(
    line: Line,
    row: Row,
    headers: Seq<ColumnHeader>,
    k: int,
    cols: Seq<int>,
    strat: LineLabelStrategy,
    float_text: F,
) -> bool {
    let c = row.contents();
    &&& line.points@.len() == cols.len()
    &&& forall|j: int|
        0 <= j < cols.len() ==> (#[trigger] line.points@[j]).x.value() == DataValue::Text(
            headers[cols[j]].label@,
        ) && line.points@[j].y.value() == c[cols[j]]
    &&& match strat {
        LineLabelStrategy::NoLabels => line.label is None,
        LineLabelStrategy::Provided(ls) => if k < ls@.len() {
            line.label == Some(ls@[k])
        } else {
            line.label is None
        },
        LineLabelStrategy::FromCell(i) => (line.label matches Some(t) && is_text_of(t, c[i as int], float_text)),
    }
}

impl Row {
    /// The line drawn from the row for line `idx` of a graph: a point per
    /// column at `cols`, the column's label against the row's cell, labelled
    /// as `label` says.
    fn create_line<F: Fn(u32) -> String>(
        &self,
        label: &LineLabelStrategy,
        headers: &Vec<ColumnHeader>,
        cols: &Vec<usize>,
        idx: usize,
        float_text: &F,
    ) -> (r: Line)
        requires
            self.cell_seq().len() == headers@.len(),
            forall|q: int| 0 <= q < cols@.len() ==> #[trigger] cols@[q] < headers@.len(),
            label matches LineLabelStrategy::FromCell(i) ==> i < self.cell_seq().len(),
            forall|b: u32| call_requires(*float_text, (b,)),
        ensures
            is_row_line(r, *self, headers@, idx as int, cols@.map_values(|c: usize| c as int), *label, *float_text),
    {
        let ghost cs = cols@.map_values(|c: usize| c as int);
        let mut points: Vec<Point<Data, Data>> = Vec::new();
        let mut j: usize = 0;
        while j < cols.len()
            invariant
                j <= cols@.len(),
                cs == cols@.map_values(|c: usize| c as int),
                self.cell_seq().len() == headers@.len(),
                forall|q: int| 0 <= q < cols@.len() ==> #[trigger] cols@[q] < headers@.len(),
                points@.len() == j,
                forall|q: int|
                    0 <= q < j ==> (#[trigger] points@[q]).x.value() == DataValue::Text(headers@[cs[q]].label@)
                        && points@[q].y.value() == self.contents()[cs[q]],
            decreases cols@.len() - j,
        {
            let c = cols[j];
            let cell = self.get_cell_by_index(c).unwrap();
            points.push(Point::new(Data::Text(headers[c].label.clone()), cell.get_data().duplicate()));
            j = j + 1;
        }
        let lbl: Option<String> = match label {
            LineLabelStrategy::NoLabels => None,
            LineLabelStrategy::Provided(ls) => {
                if idx < ls.len() {
                    Some(ls[idx].clone())
                } else {
                    None
                }
            },
            LineLabelStrategy::FromCell(i) => {
                let cell = self.get_cell_by_index(*i).unwrap();
                Some(cell.get_data().to_text(float_text))
            },
        };
        Line { points, label: lbl }
    }
}

/// The cells at `cols` of the rows at `rows`, row after row.
pub open spec fn line_ys(s: Sheet, rows: Seq<int>, cols: Seq<int>) -> Seq<DataValue>
    decreases rows.len(),
{
    if rows.len() == 0 {
        Seq::empty()
    } else {
        line_ys(s, rows.drop_last(), cols) + cols.map_values(|c: int| s.row_seq()[rows.last()].contents()[c])
    }
}

proof fn lemma_line_ys<F: Fn(u32) -> String>(
    lines: Seq<Line>,
    s: Sheet,
    rows: Seq<int>,
    cols: Seq<int>,
    strat: LineLabelStrategy,
    float_text: F,
)
    requires
        lines.len() == rows.len(),
        forall|k: int| 0 <= k < rows.len() ==> is_line_of(#[trigger] lines[k], s, rows[k], k, cols, strat, float_text),
    ensures
        line_coords(lines, false) == line_ys(s, rows, cols),
    decreases rows.len(),
{
    if rows.len() > 0 {
        let n = rows.len() - 1;
        assert forall|k: int| 0 <= k < n implies is_line_of(
            #[trigger] lines.drop_last()[k],
            s,
            rows.drop_last()[k],
            k,
            cols,
            strat,
            float_text,
        ) by {
            assert(lines.drop_last()[k] == lines[k]);
            assert(is_line_of(lines[k], s, rows[k], k, cols, strat, float_text));
        }
        lemma_line_ys(lines.drop_last(), s, rows.drop_last(), cols, strat, float_text);
        assert(is_line_of(lines[n], s, rows[n], n, cols, strat, float_text));
        let l = lines.last();
        assert(l.points@.map_values(|p: Point<Data, Data>| if false { p.x.value() } else { p.y.value() })
            =~= cols.map_values(|c: int| s.row_seq()[rows.last()].contents()[c]));
    }
}

/// Some y scale made of `ys` leaves a cell out, and `value` is the text of
/// the first such cell: the error a line graph reports, on the y axis.
pub open spec fn line_out_of_range<F: Fn(u32) -> String, R: Fn(&Vec<u32>) -> (u32, u32, u32, usize), A: Fn(u32, u32, usize) -> u32>(
    axis: String,
    value: String,
    ys: Seq<DataValue>,
    ky: ScaleKind,
    float_text: F,
    float_range: R,
    float_at: A,
) -> bool {
    exists|sy: Scale|
        #[trigger] made_scale(sy, ys, ky, float_range, float_at) && first_outside(ys, sy) is Some && axis@ == seq!['Y']
            && is_text_of(value, ys[first_outside(ys, sy)->Some_0], float_text)
}

/// A scale holding every label of the columns at `cols` holds every x value
/// of the lines drawn at those columns.
proof fn lemma_line_xs_held<F: Fn(u32) -> String>(
    lines: Seq<Line>,
    s: Sheet,
    rows: Seq<int>,
    cols: Seq<int>,
    strat: LineLabelStrategy,
    float_text: F,
    scale: Scale,
)
    requires
        lines.len() == rows.len(),
        forall|k: int| 0 <= k < rows.len() ==> is_line_of(#[trigger] lines[k], s, rows[k], k, cols, strat, float_text),
        forall|j: int| 0 <= j < cols.len() ==> scale.holds(#[trigger] col_labels(s, cols)[j]),
    ensures
        forall|i: int| 0 <= i < line_coords(lines, true).len() ==> scale.holds(#[trigger] line_coords(lines, true)[i]),
    decreases rows.len(),
{
    if rows.len() > 0 {
        let n = rows.len() - 1;
        assert forall|k: int| 0 <= k < n implies is_line_of(
            #[trigger] lines.drop_last()[k],
            s,
            rows.drop_last()[k],
            k,
            cols,
            strat,
            float_text,
        ) by {
            assert(lines.drop_last()[k] == lines[k]);
            assert(is_line_of(lines[k], s, rows[k], k, cols, strat, float_text));
        }
        lemma_line_xs_held(lines.drop_last(), s, rows.drop_last(), cols, strat, float_text, scale);
        assert(is_line_of(lines[n], s, rows[n], n, cols, strat, float_text));
        let prev = line_coords(lines.drop_last(), true);
        let l = lines.last();
        let tail = l.points@.map_values(|p: Point<Data, Data>| if true { p.x.value() } else { p.y.value() });
        assert(line_coords(lines, true) == prev + tail);
        assert forall|i: int| 0 <= i < line_coords(lines, true).len() implies scale.holds(
            #[trigger] line_coords(lines, true)[i],
        ) by {
            if i >= prev.len() {
                let j = i - prev.len();
                assert(tail[j] == l.points@[j].x.value());
                assert(col_labels(s, cols)[j] == DataValue::Text(s.header_seq()[cols[j]].label@));
                assert(scale.holds(col_labels(s, cols)[j]));
            } else {
                assert(line_coords(lines, true)[i] == prev[i]);
            }
        }
    }
}

impl Sheet {
    fn validate_to_line_graph(&self, label_strat: &LineLabelStrategy) -> (r: Result<(), Error>)
        ensures
            line_check(*self, *label_strat) is None ==> r is Ok,
            line_check(*self, *label_strat) matches Some(m) ==> (r matches Err(Error::ConversionError(t)) && t@ == m),
    {
        let headers = self.get_headers();
        let mut i: usize = 0;
        while i < headers.len()
            invariant
                i <= headers@.len(),
                headers@ == self.header_seq(),
                forall|j: int| 0 <= j < i ==> (#[trigger] headers@[j]).kind != ColumnType::Untyped,
            decreases headers@.len() - i,
        {
            if headers[i].kind == ColumnType::Untyped {
                return Err(Error::ConversionError("Cannot convert non uniform type column".to_owned()));
            }
            i = i + 1;
        }
        let skip: Option<usize> = match label_strat {
            LineLabelStrategy::FromCell(idx) => {
                if *idx >= headers.len() {
                    return Err(Error::ConversionError("Tried to assign invalid column as label".to_owned()));
                }
                Some(*idx)
            },
            _ => None,
        };
        let mut first: Option<ColumnType> = None;
        let ghost mut fi: int = 0;
        let mut j: usize = 0;
        while j < headers.len()
            invariant
                j <= headers@.len(),
                headers@ == self.header_seq(),
                skip == label_col(*label_strat),
                forall|q: int| 0 <= q < headers@.len() ==> (#[trigger] headers@[q]).kind != ColumnType::Untyped,
                first is None ==> (j == 0 || (j == 1 && skip == Some(0usize))),
                skip matches Some(x) ==> x < headers@.len(),
                first matches Some(k) ==> forall|q: int|
                    0 <= q < j && skip != Some(q as usize) ==> (#[trigger] headers@[q]).kind == k,
                first matches Some(k) ==> 0 <= fi < j && skip != Some(fi as usize) && headers@[fi].kind == k,
            decreases headers@.len() - j,
        {
            let is_skip = match skip {
                Some(x) => x == j,
                None => false,
            };
            if !is_skip {
                match first {
                    None => {
                        first = Some(headers[j].kind);
                        proof {
                            fi = j as int;
                        }
                    },
                    Some(k) => {
                        if headers[j].kind != k {
                            proof {
                                let q = fi;
                                assert(headers@[q].kind == k);
                                assert(!uniform(self.header_seq(), label_col(*label_strat))) by {
                                    assert(self.header_seq()[q].kind != self.header_seq()[j as int].kind);
                                }
                                assert(!exists|x: int|
                                    0 <= x < self.header_seq().len() && (#[trigger] self.header_seq()[x]).kind
                                        == ColumnType::Untyped);
                                assert(!(label_strat matches LineLabelStrategy::FromCell(idx) && idx >= self.header_seq().len()));
                            }
                            return Err(Error::ConversionError("Cannot convert different column types".to_owned()));
                        }
                    },
                }
            }
            j = j + 1;
        }
        Ok(())
    }
}

/// `g` is the line graph of the kept rows of `s`, a line per row, drawn
/// at the kept columns (not the label column); its x scale holds the labels
/// of those columns, its y scale is made of the lines' cells.
pub open spec fn is_line_graph_of<F: Fn(u32) -> String, R: Fn(&Vec<u32>) -> (u32, u32, u32, usize), A: Fn(u32, u32, usize) -> u32>(
    g: LineGraph,
    s: Sheet,
    x_label: Option<String>,
    y_label: Option<String>,
    strat: LineLabelStrategy,
    exclude_row: Set<usize>,
    exclude_column: Set<usize>,
    float_text: F,
    float_range: R,
    float_at: A,
) -> bool {
    let rows = kept_rows(s.row_seq().len(), exclude_row);
    let cols = kept_cols(s.header_seq().len(), label_col(strat), exclude_column);
    &&& g.lines@.len() == rows.len()
    &&& forall|k: int| 0 <= k < rows.len() ==> is_line_of(#[trigger] g.lines@[k], s, rows[k], k, cols, strat, float_text)
    &&& g.x_label@ == label_text(x_label)
    &&& g.y_label@ == label_text(y_label)
    &&& g.x_scale.scale_kind() is Categorical
    &&& g.x_scale.model() == ScaleModel::Categorical(dedup(col_labels(s, cols)))
    &&& made_scale(g.y_scale, line_ys(s, rows, cols), line_kind(s, strat), float_range, float_at)
}

impl Sheet {
    /// A line graph of the rows not listed in `exclude_row`, a line per row
    /// through its cells at the columns not listed in `exclude_column`
    /// (against their labels), the label column left out; line labels as
    /// `label_strat` says, missing axis labels empty. Its y scale is made of
    /// the cells, a float one laid out by `float_range` and `float_at`. Fails
    /// with the error of validating the sheet; with a conversion error for a
    /// column of no type in particular, a label column out of range, or
    /// columns of different types; with the graph's error for a point out of
    /// its scale.
    pub fn create_line_graph<
        F: Fn(u32) -> String,
        R: Fn(&Vec<u32>) -> (u32, u32, u32, usize),
        A: Fn(u32, u32, usize) -> u32,
    >(
        &self,
        x_label: Option<String>,
        y_label: Option<String>,
        label_strat: LineLabelStrategy,
        exclude_row: HashSet<usize>,
        exclude_column: HashSet<usize>,
        float_text: &F,
        float_range: &R,
        float_at: &A,
    ) -> (r: Result<LineGraph, Error>)
        requires
            forall|b: u32| call_requires(*float_text, (b,)),
            forall|v: Vec<u32>| call_requires(*float_range, (&v,)),
            forall|a: u32, b: u32, i: usize| call_requires(*float_at, (a, b, i)),
            forall|v: Vec<u32>, res: (u32, u32, u32, usize)| #[trigger] call_ensures(*float_range, (&v,), res) ==> res.3 >= 1,
            self.valid() && line_check(*self, label_strat) is None ==> {
                let rows = kept_rows(self.row_seq().len(), exclude_row@);
                let cols = kept_cols(self.header_seq().len(), label_col(label_strat), exclude_column@);
                let ys = line_ys(*self, rows, cols);
                scale_fits(ys, line_kind(*self, label_strat)) && range_end_fits(ys, line_kind(*self, label_strat))
            },
        ensures
            !self.valid() ==> (r matches Err(e) && self.validation(Err::<(), Error>(e))),
            self.valid() ==> (line_check(*self, label_strat) matches Some(m) ==> (r matches Err(
                Error::ConversionError(t),
            ) && t@ == m)),
            r matches Ok(g) ==> self.valid() && line_check(*self, label_strat) is None && is_line_graph_of(
                g,
                *self,
                x_label,
                y_label,
                label_strat,
                exclude_row@,
                exclude_column@,
                *float_text,
                *float_range,
                *float_at,
            ),
            self.valid() && line_check(*self, label_strat) is None && r is Err ==> (r matches Err(
                Error::LineGraphError(e),
            ) && e matches super::super::super::models::line::LineGraphError::OutOfRange(axis, value)
                && line_out_of_range(
                axis,
                value,
                line_ys(
                    *self,
                    kept_rows(self.row_seq().len(), exclude_row@),
                    kept_cols(self.header_seq().len(), label_col(label_strat), exclude_column@),
                ),
                line_kind(*self, label_strat),
                *float_text,
                *float_range,
                *float_at,
            )),
    {
        match self.validate() {
            Ok(()) => {},
            Err(e) => {
                return Err(e);
            },
        }
        match self.validate_to_line_graph(&label_strat) {
            Ok(()) => {},
            Err(e) => {
                return Err(e);
            },
        }
        let headers = self.get_headers();
        let skip: Option<usize> = match &label_strat {
            LineLabelStrategy::FromCell(i) => Some(*i),
            _ => None,
        };
        let ghost rows_spec = kept_rows(self.row_seq().len(), exclude_row@);
        let ghost cols_spec = kept_cols(self.header_seq().len(), label_col(label_strat), exclude_column@);
        let cols = kept_columns(headers.len(), skip, &exclude_column);
        let rows = kept_indices(self.height(), &exclude_row);
        proof {
            lemma_kept_rows(self.row_seq().len(), exclude_row@);
            lemma_kept_cols(self.header_seq().len(), label_col(label_strat), exclude_column@);
            assert forall|k: int| 0 <= k < self.row_seq().len() implies (#[trigger] self.row_seq()[k]).cell_seq().len()
                == self.header_seq().len() by {
                assert(row_fits(self.row_seq()[k].contents(), self.header_seq()));
            }
        }
        let mut lines: Vec<Line> = Vec::new();
        let mut k: usize = 0;
        while k < rows.len()
            invariant
                k <= rows@.len(),
                headers@ == self.header_seq(),
                rows@.len() == rows_spec.len(),
                forall|q: int| 0 <= q < rows@.len() ==> #[trigger] rows@[q] == rows_spec[q],
                forall|q: int| 0 <= q < rows_spec.len() ==> 0 <= #[trigger] rows_spec[q] < self.row_seq().len(),
                cols@.len() == cols_spec.len(),
                forall|q: int| 0 <= q < cols@.len() ==> #[trigger] cols@[q] == cols_spec[q],
                forall|q: int| 0 <= q < cols_spec.len() ==> 0 <= #[trigger] cols_spec[q] < self.header_seq().len(),
                forall|q: int| 0 <= q < self.row_seq().len() ==> (#[trigger] self.row_seq()[q]).cell_seq().len()
                    == self.header_seq().len(),
                line_check(*self, label_strat) is None,
                forall|b: u32| call_requires(*float_text, (b,)),
                lines@.len() == k,
                forall|q: int|
                    0 <= q < k ==> is_line_of(#[trigger] lines@[q], *self, rows_spec[q], q, cols_spec, label_strat, *float_text),
            decreases rows@.len() - k,
        {
            let row = self.get_row_by_index(rows[k]).unwrap();
            proof {
                assert(cols@.map_values(|c: usize| c as int) =~= cols_spec);
            }
            let line = row.create_line(&label_strat, &headers, &cols, k, float_text);
            assert(is_line_of(line, *self, rows_spec[k as int], k as int, cols_spec, label_strat, *float_text));
            lines.push(line);
            k = k + 1;
        }
        let mut xs: Vec<Data> = Vec::new();
        let mut j: usize = 0;
        while j < cols.len()
            invariant
                j <= cols@.len(),
                headers@ == self.header_seq(),
                cols@.len() == cols_spec.len(),
                forall|q: int| 0 <= q < cols@.len() ==> #[trigger] cols@[q] == cols_spec[q],
                forall|q: int| 0 <= q < cols_spec.len() ==> 0 <= #[trigger] cols_spec[q] < self.header_seq().len(),
                xs@.len() == j,
                forall|q: int|
                    0 <= q < j ==> #[trigger] xs@[q].value() == DataValue::Text(self.header_seq()[cols_spec[q]].label@),
            decreases cols@.len() - j,
        {
            xs.push(Data::Text(headers[cols[j]].label.clone()));
            j = j + 1;
        }
        assert(values_of(xs@) =~= col_labels(*self, cols_spec));
        let x_scale = Scale::categorical(&xs);
        let ys = line_data(&lines, false);
        let first: usize = if skip == Some(0usize) {
            1
        } else {
            0
        };
        let ky = if first < headers.len() {
            ScaleKind::from_column(headers[first].kind)
        } else {
            ScaleKind::Categorical
        };
        proof {
            lemma_line_ys(lines@, *self, rows_spec, cols_spec, label_strat, *float_text);
        }
        let ghost yv = values_of(ys@);
        let y_scale = Scale::new(ys, ky, float_range, float_at);
        proof {
            lemma_made_scale_fits(y_scale, yv, ky, *float_range, *float_at);
            law_categorical_scale_holds_its_values(x_scale, col_labels(*self, cols_spec));
            assert forall|j: int| 0 <= j < cols_spec.len() implies x_scale.holds(
                #[trigger] col_labels(*self, cols_spec)[j],
            ) by {
                assert(col_labels(*self, cols_spec)[j] == DataValue::Text(self.header_seq()[cols_spec[j]].label@));
            }
            lemma_line_xs_held(lines@, *self, rows_spec, cols_spec, label_strat, *float_text, x_scale);
            lemma_first_outside(line_coords(lines@, true), x_scale);
        }
        let ghost lines_spec = lines@;
        match LineGraph::new(lines, x_label, y_label, x_scale, y_scale, float_text) {
            Ok(g) => Ok(g),
            Err(e) => {
                proof {
                    assert(first_outside(line_coords(lines_spec, true), x_scale) is None);
                    assert(made_scale(y_scale, line_ys(*self, rows_spec, cols_spec), line_kind(*self, label_strat), *float_range, *float_at));
                }
                Err(Error::LineGraphError(e))
            },
        }
    }
}

} // verus!
