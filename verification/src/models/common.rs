//! Points and scales of charts.
use vstd::prelude::*;

use crate::repr::floats::{f32_at_most, f32_below_zero, f32_eq, f32_equal, f32_le, f32_negative};
use crate::repr::col_sheet::sorting::{is_perm, permuted};
use crate::repr::sheet::{data_orderly, data_sorted_stably, sort_data_indices};
use crate::repr::sheet::{ColumnType, Data, DataValue};

verus! {

/// A point of a chart.
#[derive(Debug, Clone, PartialEq)]
pub struct Point<X, Y> {
    pub x: X,
    pub y: Y,
}

impl<X, Y> Point<X, Y> {
    pub fn new(x: X, y: Y) -> (r: Self)
        ensures
            r.x == x,
            r.y == y,
    {
        Self { x, y }
    }

    /// The point of a pair of coordinates.
    pub fn from_pair(value: (X, Y)) -> (r: Self)
        ensures
            r.x == value.0,
            r.y == value.1,
    {
        Point::new(value.0, value.1)
    }
}

/// Determines how points on a scale are handled: points on a categorical
/// scale are kept as they are, duplicates removed; points on the others are
/// treated as numbers, as a range.
#[derive(Debug, Clone, Copy, PartialEq, Eq, Structural)]
pub enum ScaleKind {
    Number,
    Integer,
    Float,
    Categorical,
}

impl ScaleKind {
    /// The kind of scale for the values of a column of type `value`.
    pub fn from_column(value: ColumnType) -> (r: Self)
        ensures
            r == match value {
                ColumnType::Number => ScaleKind::Number,
                ColumnType::Integer => ScaleKind::Integer,
                ColumnType::Float => ScaleKind::Float,
                _ => ScaleKind::Categorical,
            },
    {
        match value {
            ColumnType::Number => ScaleKind::Number,
            ColumnType::Integer => ScaleKind::Integer,
            ColumnType::Float => ScaleKind::Float,
            _ => ScaleKind::Categorical,
        }
    }
}

/// Two values are equal, floats compared as numbers (`==` of IEEE 754).
pub open spec fn same_value(a: DataValue, b: DataValue) -> bool {
    match (a, b) {
        (DataValue::Float(x), DataValue::Float(y)) => f32_equal(x, y),
        _ => a == b,
    }
}

/// `s` without the values equal to an earlier one.
pub open spec fn dedup(s: Seq<DataValue>) -> Seq<DataValue>
    decreases s.len(),
{
    if s.len() == 0 {
        s
    } else {
        let d = dedup(s.drop_last());
        if exists|i: int| 0 <= i < d.len() && #[trigger] same_value(d[i], s.last()) {
            d
        } else {
            d.push(s.last())
        }
    }
}

/// The values of a run of data.
pub open spec fn values_of(v: Seq<Data>) -> Seq<DataValue> {
    v.map_values(|d: Data| d.value())
}

/// Whether two values are equal, floats compared as numbers.
pub fn same_data(a: &Data, b: &Data) -> (r: bool)
    ensures
        r == same_value(a.value(), b.value()),
{
    match (a, b) {
        (Data::Float(x), Data::Float(y)) => f32_eq(*x, *y),
        (Data::Text(x), Data::Text(y)) => {
            let e = x.eq(y);
            e
        },
        (Data::Integer(x), Data::Integer(y)) => *x == *y,
        (Data::Number(x), Data::Number(y)) => *x == *y,
        (Data::Boolean(x), Data::Boolean(y)) => *x == *y,
        (Data::Empty, Data::Empty) => true,
        _ => false,
    }
}

/// The values of `points` without those equal to an earlier one.
pub fn dedup_data(points: &Vec<Data>) -> (r: Vec<Data>)
    ensures
        values_of(r@) == dedup(values_of(points@)),
{
    let ghost vs = values_of(points@);
    let mut out: Vec<Data> = Vec::new();
    let mut i: usize = 0;
    while i < points.len()
        invariant
            i <= points@.len(),
            vs == values_of(points@),
            values_of(out@) == dedup(vs.take(i as int)),
        decreases points@.len() - i,
    {
        let p = &points[i];
        let mut found = false;
        let mut k: usize = 0;
        while k < out.len()
            invariant
                k <= out@.len(),
                found <==> exists|j: int| 0 <= j < k && #[trigger] same_value(out@[j].value(), p.value()),
            decreases out@.len() - k,
        {
            if same_data(&out[k], p) {
                found = true;
            }
            k = k + 1;
        }
        proof {
            let t = vs.take(i + 1);
            assert(t.drop_last() =~= vs.take(i as int));
            assert(t.last() == p.value());
            let d = values_of(out@);
            assert((exists|j: int| 0 <= j < d.len() && #[trigger] same_value(d[j], t.last())) == found) by {
                if found {
                    let j = choose|j: int| 0 <= j < out@.len() && #[trigger] same_value(out@[j].value(), p.value());
                    assert(same_value(d[j], t.last()));
                }
                if exists|j: int| 0 <= j < d.len() && #[trigger] same_value(d[j], t.last()) {
                    let j = choose|j: int| 0 <= j < d.len() && #[trigger] same_value(d[j], t.last());
                    assert(same_value(out@[j].value(), p.value()));
                }
            }
        }
        if !found {
            out.push(p.duplicate());
            assert(values_of(out@) =~= dedup(vs.take(i + 1)));
        }
        i = i + 1;
    }
    assert(vs.take(i as int) =~= vs);
    out
}

/// A scale is made of the values of `kind`; a categorical scale of any.
pub open spec fn of_kind(d: DataValue, kind: ScaleKind) -> bool {
    match kind {
        ScaleKind::Number => d is Number,
        ScaleKind::Integer => d is Integer,
        ScaleKind::Float => d is Float,
        ScaleKind::Categorical => true,
    }
}

/// The values of `s` that are (`inside`) or are not of the scale's kind, in
/// order.
pub open spec fn keep(s: Seq<DataValue>, kind: ScaleKind, inside: bool) -> Seq<DataValue>
    decreases s.len(),
{
    if s.len() == 0 {
        s
    } else {
        let k = keep(s.drop_last(), kind, inside);
        if of_kind(s.last(), kind) == inside {
            k.push(s.last())
        } else {
            k
        }
    }
}

/// The number an integer or number value holds.
pub open spec fn num_of(d: DataValue) -> int {
    match d {
        DataValue::Integer(i) => i as int,
        DataValue::Number(n) => n as int,
        _ => 0,
    }
}

/// The numbers that values hold.
pub open spec fn nums_of(s: Seq<DataValue>) -> Seq<int> {
    s.map_values(|d: DataValue| num_of(d))
}

/// The least of the numbers; zero for none.
pub open spec fn seq_min(s: Seq<int>) -> int
    decreases s.len(),
{
    if s.len() == 0 {
        0
    } else if s.len() == 1 {
        s[0]
    } else {
        let m = seq_min(s.drop_last());
        if s.last() < m {
            s.last()
        } else {
            m
        }
    }
}

/// The greatest of the numbers; zero for none.
pub open spec fn seq_max(s: Seq<int>) -> int
    decreases s.len(),
{
    if s.len() == 0 {
        0
    } else if s.len() == 1 {
        s[0]
    } else {
        let m = seq_max(s.drop_last());
        if s.last() > m {
            s.last()
        } else {
            m
        }
    }
}

/// The step of a scale spanning `span` with `c` distinct points: the span
/// divided by `c`, rounded up.
pub open spec fn step_for(span: int, c: int) -> int {
    if (span / c) * c != span {
        span / c + 1
    } else {
        span / c
    }
}

/// The number of points of a scale from `lo` to `hi` made of `c` distinct
/// points: one more than `c` when `c` steps from `lo` fall short of `hi`.
pub open spec fn length_for(lo: int, hi: int, c: int) -> int {
    if (c - 1) * step_for(hi - lo, c) + lo < hi {
        c + 1
    } else {
        c
    }
}

/// Every number computed on the way to a scale from `lo` to `hi` made of `c`
/// distinct points is at most `max_v`.
pub open spec fn range_fits(lo: int, hi: int, c: int, max_v: int) -> bool {
    &&& hi - lo <= max_v
    &&& c <= max_v
    &&& (c - 1) * step_for(hi - lo, c) <= max_v
    &&& (c - 1) * step_for(hi - lo, c) + lo <= max_v
}

/// The largest value of the integer type of a scale of `kind`.
pub open spec fn kind_max(kind: ScaleKind) -> int {
    match kind {
        ScaleKind::Integer => i32::MAX as int,
        ScaleKind::Number => isize::MAX as int,
        _ => 0,
    }
}

/// The points `s` can make a scale of `kind` from, without overflow: for an
/// integer or number scale of points all of that kind, the numbers computed
/// fit the type.
pub open spec fn scale_fits(s: Seq<DataValue>, kind: ScaleKind) -> bool {
    let ks = keep(s, kind, true);
    let nums = nums_of(ks);
    (kind is Integer || kind is Number) && s.len() > 0 && keep(s, kind, false).len() == 0 ==> range_fits(
        seq_min(nums),
        seq_max(nums),
        dedup(ks).len() as int,
        kind_max(kind),
    )
}

/// The patterns of float values.
pub open spec fn bits_of(s: Seq<DataValue>) -> Seq<u32> {
    s.map_values(
        |d: DataValue|
            match d {
                DataValue::Float(b) => b,
                _ => 0u32,
            },
    )
}

/// How the values of a scale are laid out.
pub enum ScaleModel {
    /// Numbers from `start` to `end`, `step` apart.
    Range { start: int, end: int, step: int },
    /// Floats from `start` to `end`, `step` apart, and the points that makes.
    Float { start: u32, end: u32, step: u32, points: Seq<u32> },
    /// The values as they are.
    Categorical(Seq<DataValue>),
}

proof fn lemma_dedup_len(s: Seq<DataValue>)
    ensures
        dedup(s).len() <= s.len(),
        s.len() > 0 ==> dedup(s).len() >= 1,
    decreases s.len(),
{
    if s.len() > 0 {
        lemma_dedup_len(s.drop_last());
    }
}

proof fn lemma_keep_len(s: Seq<DataValue>, kind: ScaleKind)
    ensures
        keep(s, kind, true).len() + keep(s, kind, false).len() == s.len(),
        forall|i: int| 0 <= i < keep(s, kind, true).len() ==> of_kind(#[trigger] keep(s, kind, true)[i], kind),
    decreases s.len(),
{
    if s.len() > 0 {
        lemma_keep_len(s.drop_last(), kind);
        let k = keep(s.drop_last(), kind, true);
        if of_kind(s.last(), kind) {
            assert forall|i: int| 0 <= i < keep(s, kind, true).len() implies of_kind(#[trigger] keep(s, kind, true)[i], kind) by {
                if i < k.len() {
                    assert(keep(s, kind, true)[i] == k[i]);
                }
            }
        }
    }
}

/// The number an integer or number value holds.
fn num_value(d: &Data) -> (r: i128)
    ensures
        r == num_of(d.value()),
{
    match d {
        Data::Integer(i) => *i as i128,
        Data::Number(n) => *n as i128,
        _ => 0,
    }
}

/// The values of `points` that are (`inside`) or are not of `kind`.
fn keep_data(points: &Vec<Data>, kind: ScaleKind, inside: bool) -> (r: Vec<Data>)
    ensures
        values_of(r@) == keep(values_of(points@), kind, inside),
{
    let ghost vs = values_of(points@);
    let mut out: Vec<Data> = Vec::new();
    let mut i: usize = 0;
    while i < points.len()
        invariant
            i <= points@.len(),
            vs == values_of(points@),
            values_of(out@) == keep(vs.take(i as int), kind, inside),
        decreases points@.len() - i,
    {
        let d = &points[i];
        let k = match kind {
            ScaleKind::Number => match d {
                Data::Number(_) => true,
                _ => false,
            },
            ScaleKind::Integer => match d {
                Data::Integer(_) => true,
                _ => false,
            },
            ScaleKind::Float => match d {
                Data::Float(_) => true,
                _ => false,
            },
            ScaleKind::Categorical => true,
        };
        proof {
            assert(vs.take(i + 1).drop_last() =~= vs.take(i as int));
        }
        if k == inside {
            out.push(d.duplicate());
        }
        assert(values_of(out@) =~= keep(vs.take(i + 1), kind, inside));
        i = i + 1;
    }
    assert(vs.take(i as int) =~= vs);
    out
}

/// The least and greatest numbers among `points`, all integers or all
/// numbers.
fn min_max(points: &Vec<Data>) -> (r: (i128, i128))
    requires
        points@.len() > 0,
    ensures
        r.0 == seq_min(nums_of(values_of(points@))),
        r.1 == seq_max(nums_of(values_of(points@))),
{
    let ghost ns = nums_of(values_of(points@));
    let mut lo = num_value(&points[0]);
    let mut hi = lo;
    let mut i: usize = 1;
    assert(ns.take(1) =~= seq![ns[0]]);
    while i < points.len()
        invariant
            1 <= i <= points@.len(),
            ns == nums_of(values_of(points@)),
            lo == seq_min(ns.take(i as int)),
            hi == seq_max(ns.take(i as int)),
        decreases points@.len() - i,
    {
        let n = num_value(&points[i]);
        proof {
            assert(ns.take(i + 1).drop_last() =~= ns.take(i as int));
            assert(ns.take(i + 1).last() == n);
        }
        if n < lo {
            lo = n;
        }
        if n > hi {
            hi = n;
        }
        i = i + 1;
    }
    assert(ns.take(i as int) =~= ns);
    (lo, hi)
}

proof fn lemma_step(span: int, c: int)
    requires
        span >= 0,
        c >= 1,
    ensures
        0 <= (span / c) * c <= span,
        0 <= step_for(span, c) <= span,
        span / c <= span,
{
    assert(0 <= (span / c) * c <= span) by (nonlinear_arith)
        requires
            span >= 0,
            c >= 1,
    ;
    assert(span / c <= span) by (nonlinear_arith)
        requires
            span >= 0,
            c >= 1,
    ;
    if (span / c) * c != span {
        assert(c >= 2) by (nonlinear_arith)
            requires
                span >= 0,
                c >= 1,
                (span / c) * c != span,
        ;
        assert(span / c + 1 <= span) by (nonlinear_arith)
            requires
                span >= 0,
                c >= 2,
                (span / c) * c != span,
        ;
    }
}

/// The start, step and length of the scale made of the integers or numbers
/// `points`, where `c` of them are distinct.
fn range_params(lo: i128, hi: i128, c: usize, max_v: i128) -> (r: (i128, usize))
    requires
        lo <= hi,
        1 <= c,
        max_v == i32::MAX || max_v == isize::MAX,
        -max_v - 1 <= lo,
        hi <= max_v,
        range_fits(lo as int, hi as int, c as int, max_v as int),
    ensures
        r.0 == step_for(hi - lo, c as int),
        r.1 == length_for(lo as int, hi as int, c as int),
        0 <= r.0 <= max_v,
{
    let span = hi - lo;
    let n = c as i128;
    proof {
        lemma_step(span as int, n as int);
    }
    let q = span / n;
    let step = if q * n != span {
        q + 1
    } else {
        q
    };
    let length = if (n - 1) * step + lo < hi {
        c + 1
    } else {
        c
    };
    (step, length)
}

proof fn lemma_min_max_bounds(s: Seq<int>, a: int, b: int)
    requires
        s.len() > 0,
        forall|i: int| 0 <= i < s.len() ==> a <= #[trigger] s[i] <= b,
    ensures
        a <= seq_min(s) <= seq_max(s) <= b,
    decreases s.len(),
{
    if s.len() > 1 {
        lemma_min_max_bounds(s.drop_last(), a, b);
        assert(s.last() == s[s.len() - 1]);
    }
}

/// The values on a scale.
#[derive(Debug, Clone, PartialEq)]
enum ScaleValues {
    /// Both ends are inclusive
    Number { start: isize, end: isize, step: isize },
    /// Both ends are inclusive
    Integer { start: i32, end: i32, step: i32 },
    /// Both ends are inclusive; the points of the scale, as bit patterns
    Float { start: u32, end: u32, step: u32, points: Vec<u32> },
    Categorical(Vec<Data>),
}

/// Representation of [`Scale`] points on an axis.
#[derive(Debug, Clone, PartialEq)]
pub enum AxisPoints {
    /// Categorical points with no concept of negatives and positives.
    Categorical(Vec<Data>),
    /// Numeric points with positive points and negative points split. Zero is
    /// considered a positive.
    Numeric { positives: Vec<Data>, negatives: Vec<Data> },
}

/// The points along an axis of a chart.
#[derive(Debug, Clone, PartialEq)]
pub struct Scale {
    /// The type of scale
    kind: ScaleKind,
    /// The values within the scale
    values: ScaleValues,
    /// The number of points on the scale.
    ///
    /// For non-categorical data this is at most one more than the number of
    /// points used to generate the scale
    pub length: usize,
}

/// `m` and `length` are what `float_range` gives for the floats `floats`,
/// with the points `float_at` places from its start by its step.
pub open spec fn is_float_scale<R: Fn(&Vec<u32>) -> (u32, u32, u32, usize), A: Fn(u32, u32, usize) -> u32>(
    m: ScaleModel,
    length: usize,
    floats: Seq<u32>,
    float_range: R,
    float_at: A,
) -> bool {
    exists|v: Vec<u32>, res: (u32, u32, u32, usize)|
        {
            &&& v@ == floats
            &&& #[trigger] call_ensures(float_range, (&v,), res)
            &&& res.3 == length
            &&& m matches ScaleModel::Float { start, end, step, points }
            &&& start == res.0
            &&& end == res.1
            &&& step == res.2
            &&& points.len() == length
            &&& forall|i: int| 0 <= i < length ==> call_ensures(float_at, (start, step, i as usize), #[trigger] points[i])
        }
}

/// `r` is the categorical scale of the values `os`, then `ks`, without
/// duplicates.
pub open spec fn mixed_scale(r: Scale, os: Seq<DataValue>, ks: Seq<DataValue>) -> bool {
    r.scale_kind() is Categorical && r.model() == ScaleModel::Categorical(dedup(os + ks)) && r.size() == dedup(
        os + ks,
    ).len()
}

/// `r` is the scale made of the values `s` for an integer or number scale of
/// `kind`:
/// - no values: a single point at zero;
/// - values not all of `kind`: a categorical scale of them all, those of
///   other kinds first, without duplicates;
/// - else from the least to the greatest, in steps of their span divided by
///   the number of distinct values (rounded up), one point more where those
///   steps fall short.
pub open spec fn made_range_scale(r: Scale, s: Seq<DataValue>, kind: ScaleKind) -> bool {
    let ks = keep(s, kind, true);
    let os = keep(s, kind, false);
    if s.len() == 0 {
        r.scale_kind() == kind && r.size() == 1 && r.model() == ScaleModel::Range { start: 0, end: 0, step: 0 }
    } else if os.len() > 0 {
        mixed_scale(r, os, ks)
    } else {
        let nums = nums_of(ks);
        let lo = seq_min(nums);
        let hi = seq_max(nums);
        let c = dedup(ks).len() as int;
        r.scale_kind() == kind && r.model() == ScaleModel::Range { start: lo, end: hi, step: step_for(hi - lo, c) }
            && r.size() == length_for(lo, hi, c)
    }
}

/// `r` is the scale made of the values `s` for a scale of `kind`: a
/// categorical one holds the values without duplicates; a float one is like
/// an integer one (see [`made_range_scale`]), but for floats laid out by
/// `float_range` from their distinct values, the points placed by `float_at`.
pub open spec fn made_scale<R: Fn(&Vec<u32>) -> (u32, u32, u32, usize), A: Fn(u32, u32, usize) -> u32>(
    r: Scale,
    s: Seq<DataValue>,
    kind: ScaleKind,
    float_range: R,
    float_at: A,
) -> bool {
    let ks = keep(s, kind, true);
    let os = keep(s, kind, false);
    if kind is Categorical {
        r.scale_kind() == kind && r.model() == ScaleModel::Categorical(dedup(s)) && r.size() == dedup(s).len()
    } else if kind is Float {
        if s.len() == 0 {
            r.scale_kind() == kind && r.size() == 1 && r.model() == ScaleModel::Float {
                start: 0,
                end: 0,
                step: 0,
                points: seq![0u32],
            }
        } else if os.len() > 0 {
            mixed_scale(r, os, ks)
        } else {
            r.scale_kind() == kind && is_float_scale(r.model(), r.size(), bits_of(dedup(ks)), float_range, float_at)
        }
    } else {
        made_range_scale(r, s, kind)
    }
}

impl Scale {
    /// The kind of the scale.
    pub closed spec fn scale_kind(&self) -> ScaleKind {
        self.kind
    }

    /// The number of points on the scale.
    pub closed spec fn size(&self) -> usize {
        self.length
    }

    /// How the values of the scale are laid out.
    pub closed spec fn model(&self) -> ScaleModel {
        match &self.values {
            ScaleValues::Number { start, end, step } => ScaleModel::Range {
                start: *start as int,
                end: *end as int,
                step: *step as int,
            },
            ScaleValues::Integer { start, end, step } => ScaleModel::Range {
                start: *start as int,
                end: *end as int,
                step: *step as int,
            },
            ScaleValues::Float { start, end, step, points } => ScaleModel::Float {
                start: *start,
                end: *end,
                step: *step,
                points: points@,
            },
            ScaleValues::Categorical(v) => ScaleModel::Categorical(values_of(v@)),
        }
    }

    /// The scale is well formed: a range goes up from its start to its end
    /// and has a point; the kind matches the layout; the length is the number
    /// of points held.
    pub closed spec fn wf(&self) -> bool {
        match &self.values {
            ScaleValues::Number { start, end, step } => self.kind is Number && *step >= 0 && *start <= *end
                && self.length >= 1,
            ScaleValues::Integer { start, end, step } => self.kind is Integer && *step >= 0 && *start <= *end
                && self.length >= 1,
            ScaleValues::Float { points, .. } => self.kind is Float && points@.len() == self.length,
            ScaleValues::Categorical(v) => self.kind is Categorical && v@.len() == self.length,
        }
    }

    /// The categorical scale of `points`, without duplicates.
    pub fn categorical(points: &Vec<Data>) -> (r: Scale)
        ensures
            r.wf(),
            r.scale_kind() is Categorical,
            r.model() == ScaleModel::Categorical(dedup(values_of(points@))),
            r.size() == dedup(values_of(points@)).len(),
    {
        let values = dedup_data(points);
        let length = values.len();
        Self { kind: ScaleKind::Categorical, values: ScaleValues::Categorical(values), length }
    }

    /// Returns a new scale of `kind` made of `points`; a categorical one
    /// where the points are not all of `kind`. A float scale is laid out by
    /// `float_range`, which gives its start, end, step and number of points
    /// from its distinct floats, and its points are placed by `float_at`
    /// from the start, the step and the point's position.
    pub fn new<R: Fn(&Vec<u32>) -> (u32, u32, u32, usize), A: Fn(u32, u32, usize) -> u32>(
        points: Vec<Data>,
        kind: ScaleKind,
        float_range: &R,
        float_at: &A,
    ) -> (r: Scale)
        requires
            scale_fits(values_of(points@), kind),
            forall|v: Vec<u32>| call_requires(*float_range, (&v,)),
            forall|a: u32, b: u32, i: usize| call_requires(*float_at, (a, b, i)),
        ensures
            r.wf(),
            made_scale(r, values_of(points@), kind, *float_range, *float_at),
    {
        let ghost s = values_of(points@);
        if kind == ScaleKind::Categorical {
            return Self::categorical(&points);
        }
        if kind != ScaleKind::Float {
            return Self::range_scale(points, kind);
        }
        if points.len() == 0 {
            let mut pts: Vec<u32> = Vec::new();
            pts.push(0);
            assert(pts@ =~= seq![0u32]);
            return Self { kind, values: ScaleValues::Float { start: 0, end: 0, step: 0, points: pts }, length: 1 };
        }
        let mut ks = keep_data(&points, kind, true);
        let mut os = keep_data(&points, kind, false);
        if os.len() > 0 {
            let ghost ov = values_of(os@);
            let ghost kv = values_of(ks@);
            os.append(&mut ks);
            assert(values_of(os@) =~= ov + kv);
            return Self::categorical(&os);
        }
        let distinct = dedup_data(&ks);
        let mut floats: Vec<u32> = Vec::new();
        let mut i: usize = 0;
        while i < distinct.len()
            invariant
                i <= distinct@.len(),
                floats@ == bits_of(values_of(distinct@)).take(i as int),
            decreases distinct@.len() - i,
        {
            let b = match &distinct[i] {
                Data::Float(b) => *b,
                _ => 0,
            };
            floats.push(b);
            i = i + 1;
            assert(floats@ =~= bits_of(values_of(distinct@)).take(i as int));
        }
        assert(floats@ =~= bits_of(values_of(distinct@)));
        let res = float_range(&floats);
        let (start, end, step, length) = res;
        let mut pts: Vec<u32> = Vec::new();
        let mut k: usize = 0;
        while k < length
            invariant
                k <= length,
                pts@.len() == k,
                forall|a: u32, b: u32, i: usize| call_requires(*float_at, (a, b, i)),
                forall|j: int| 0 <= j < k ==> call_ensures(*float_at, (start, step, j as usize), #[trigger] pts@[j]),
            decreases length - k,
        {
            let p = float_at(start, step, k);
            pts.push(p);
            k = k + 1;
        }
        let r = Self { kind, values: ScaleValues::Float { start, end, step, points: pts }, length };
        assert(call_ensures(*float_range, (&floats,), res));
        r
    }

    /// The integer or number scale of `kind` made of `points` (see
    /// [`made_range_scale`]).
    fn range_scale(points: Vec<Data>, kind: ScaleKind) -> (r: Scale)
        requires
            kind is Integer || kind is Number,
            scale_fits(values_of(points@), kind),
        ensures
            r.wf(),
            made_range_scale(r, values_of(points@), kind),
    {
        let ghost s = values_of(points@);
        if points.len() == 0 {
            let values = if kind == ScaleKind::Integer {
                ScaleValues::Integer { start: 0, end: 0, step: 0 }
            } else {
                ScaleValues::Number { start: 0, end: 0, step: 0 }
            };
            return Self { kind, values, length: 1 };
        }
        let mut ks = keep_data(&points, kind, true);
        let mut os = keep_data(&points, kind, false);
        proof {
            lemma_keep_len(s, kind);
        }
        if os.len() > 0 {
            let ghost ov = values_of(os@);
            let ghost kv = values_of(ks@);
            os.append(&mut ks);
            assert(values_of(os@) =~= ov + kv);
            return Self::categorical(&os);
        }
        let ghost kv = values_of(ks@);
        let distinct = dedup_data(&ks);
        proof {
            lemma_dedup_len(kv);
        }
        let ghost ns = nums_of(kv);
        let bound: i128 = if kind == ScaleKind::Integer {
            2147483647
        } else {
            isize::MAX as i128
        };
        proof {
            assert forall|i: int| 0 <= i < ns.len() implies -bound - 1 <= #[trigger] ns[i] <= bound by {
                assert(of_kind(kv[i], kind));
            }
            lemma_min_max_bounds(ns, -bound - 1, bound as int);
        }
        let (lo, hi) = min_max(&ks);
        let (step, length) = range_params(lo, hi, distinct.len(), bound);
        let values = if kind == ScaleKind::Integer {
            ScaleValues::Integer { start: lo as i32, end: hi as i32, step: step as i32 }
        } else {
            ScaleValues::Number { start: lo as isize, end: hi as isize, step: step as isize }
        };
        Self { kind, values, length }
    }

    /// The integer scale of `values` (see [`made_range_scale`]).
    pub fn from_ints(values: Vec<i32>) -> (r: Scale)
        requires
            scale_fits(values@.map_values(|i: i32| DataValue::Integer(i)), ScaleKind::Integer),
        ensures
            r.wf(),
            made_range_scale(r, values@.map_values(|i: i32| DataValue::Integer(i)), ScaleKind::Integer),
    {
        let mut points: Vec<Data> = Vec::new();
        let mut i: usize = 0;
        while i < values.len()
            invariant
                i <= values@.len(),
                points@.len() == i,
                forall|k: int| 0 <= k < i ==> #[trigger] points@[k].value() == DataValue::Integer(values@[k]),
            decreases values@.len() - i,
        {
            points.push(Data::Integer(values[i]));
            i = i + 1;
        }
        assert(values_of(points@) =~= values@.map_values(|i: i32| DataValue::Integer(i)));
        Self::range_scale(points, ScaleKind::Integer)
    }

    /// The number scale of `values` (see [`made_range_scale`]).
    pub fn from_numbers(values: Vec<isize>) -> (r: Scale)
        requires
            scale_fits(values@.map_values(|n: isize| DataValue::Number(n)), ScaleKind::Number),
        ensures
            r.wf(),
            made_range_scale(r, values@.map_values(|n: isize| DataValue::Number(n)), ScaleKind::Number),
    {
        let mut points: Vec<Data> = Vec::new();
        let mut i: usize = 0;
        while i < values.len()
            invariant
                i <= values@.len(),
                points@.len() == i,
                forall|k: int| 0 <= k < i ==> #[trigger] points@[k].value() == DataValue::Number(values@[k]),
            decreases values@.len() - i,
        {
            points.push(Data::Number(values[i]));
            i = i + 1;
        }
        assert(values_of(points@) =~= values@.map_values(|n: isize| DataValue::Number(n)));
        Self::range_scale(points, ScaleKind::Number)
    }
}

/// Some value of `v` equals `d`, floats compared as numbers.
pub open spec fn among(v: Seq<DataValue>, d: DataValue) -> bool {
    exists|i: int| 0 <= i < v.len() && #[trigger] same_value(v[i], d)
}

/// The value is below zero.
pub open spec fn below_zero(d: DataValue) -> bool {
    match d {
        DataValue::Integer(i) => i < 0,
        DataValue::Number(n) => n < 0,
        DataValue::Float(b) => f32_below_zero(b),
        _ => false,
    }
}

/// The values of `s` that are (`neg`) or are not below zero, in order.
pub open spec fn split(s: Seq<DataValue>, neg: bool) -> Seq<DataValue>
    decreases s.len(),
{
    if s.len() == 0 {
        s
    } else {
        let k = split(s.drop_last(), neg);
        if below_zero(s.last()) == neg {
            k.push(s.last())
        } else {
            k
        }
    }
}

/// The value holding `n`, an integer on an integer scale, else a number.
pub open spec fn range_value(kind: ScaleKind, n: int) -> DataValue {
    if kind is Integer {
        DataValue::Integer(n as i32)
    } else {
        DataValue::Number(n as isize)
    }
}

/// A copy of the data.
fn copy_data(v: &Vec<Data>) -> (r: Vec<Data>)
    ensures
        values_of(r@) == values_of(v@),
{
    let mut out: Vec<Data> = Vec::new();
    let mut i: usize = 0;
    while i < v.len()
        invariant
            i <= v@.len(),
            out@.len() == i,
            forall|k: int| 0 <= k < i ==> #[trigger] out@[k].value() == v@[k].value(),
        decreases v@.len() - i,
    {
        out.push(v[i].duplicate());
        i = i + 1;
    }
    assert(values_of(out@) =~= values_of(v@));
    out
}

/// The values below zero (`neg`) or not, in order.
fn split_data(v: &Vec<Data>, neg: bool) -> (r: Vec<Data>)
    ensures
        values_of(r@) == split(values_of(v@), neg),
{
    let ghost vs = values_of(v@);
    let mut out: Vec<Data> = Vec::new();
    let mut i: usize = 0;
    while i < v.len()
        invariant
            i <= v@.len(),
            vs == values_of(v@),
            values_of(out@) == split(vs.take(i as int), neg),
        decreases v@.len() - i,
    {
        let d = &v[i];
        let below = match d {
            Data::Integer(n) => *n < 0,
            Data::Number(n) => *n < 0,
            Data::Float(b) => f32_negative(*b),
            _ => false,
        };
        proof {
            assert(vs.take(i + 1).drop_last() =~= vs.take(i as int));
        }
        if below == neg {
            out.push(d.duplicate());
        }
        assert(values_of(out@) =~= split(vs.take(i + 1), neg));
        i = i + 1;
    }
    assert(vs.take(i as int) =~= vs);
    out
}

/// `r` holds the points `pts` split into those below zero and the others,
/// in order.
pub open spec fn split_axis(r: AxisPoints, pts: Seq<DataValue>) -> bool {
    match r {
        AxisPoints::Numeric { positives, negatives } => values_of(positives@) == split(pts, false) && values_of(
            negatives@,
        ) == split(pts, true),
        _ => false,
    }
}

impl Scale {
    /// Every point of a range scale fits its type (and so does its number);
    /// a float scale has a point.
    pub open spec fn points_fit(&self) -> bool {
        match self.model() {
            ScaleModel::Range { start, step, .. } => self.size() <= kind_max(self.scale_kind()) && (self.size() - 1)
                * step <= kind_max(self.scale_kind()) && start + (self.size() - 1) * step <= kind_max(
                self.scale_kind(),
            ),
            ScaleModel::Float { .. } => self.size() >= 1,
            _ => true,
        }
    }

    /// The points on the scale: the values of a categorical scale; the
    /// points from the start of a range scale, a step apart.
    pub open spec fn scale_points(&self) -> Seq<DataValue> {
        match self.model() {
            ScaleModel::Categorical(v) => v,
            ScaleModel::Range { start, step, .. } => Seq::new(
                self.size() as nat,
                |i: int| range_value(self.scale_kind(), start + i * step),
            ),
            ScaleModel::Float { points, .. } => points.map_values(|b: u32| DataValue::Float(b)),
        }
    }

    /// The successive points on the scale: every integer from the start of
    /// a range scale to its end; the points of other scales.
    pub open spec fn ranged_points(&self) -> Seq<DataValue> {
        match self.model() {
            ScaleModel::Range { start, end, .. } => Seq::new(
                (end - start + 1) as nat,
                |i: int| range_value(self.scale_kind(), start + i),
            ),
            _ => self.scale_points(),
        }
    }

    /// The points an axis of the scale is laid out from: the successive
    /// points when `sequential` holds, else the points of the scale.
    pub open spec fn axis_source(&self, sequential: bool) -> Seq<DataValue> {
        if sequential {
            self.ranged_points()
        } else {
            self.scale_points()
        }
    }

    /// Whether the scale holds `d`: a categorical one among its values; a
    /// range or float one as a value of its kind from its first point to its
    /// last.
    pub open spec fn holds(&self, d: DataValue) -> bool {
        match self.model() {
            ScaleModel::Categorical(v) => among(v, d),
            ScaleModel::Range { start, step, .. } => of_kind(d, self.scale_kind()) && start <= num_of(d) <= start
                + (self.size() - 1) * step,
            ScaleModel::Float { start, points, .. } => d matches DataValue::Float(b) && f32_le(start, b) && f32_le(
                b,
                points[self.size() - 1],
            ),
        }
    }

    /// Returns the points on the scale.
    ///
    /// Categorical scales return all points used to generate the scale.
    ///
    /// Non-Categorical scales return a ordered generated range, guaranteed to contain all initial points.
    pub fn points(&self) -> (r: Vec<Data>)
        requires
            self.wf(),
            self.points_fit(),
        ensures
            values_of(r@) == self.scale_points(),
    {
        match &self.values {
            ScaleValues::Categorical(v) => copy_data(v),
            ScaleValues::Integer { start, step, .. } => {
                let n = self.length as i32;
                let mut out: Vec<Data> = Vec::new();
                let mut i: i32 = 0;
                while i < n
                    invariant
                        0 <= i <= n,
                        n == self.length,
                        n >= 1,
                        *step >= 0,
                        *start + (n - 1) * *step <= i32::MAX,
                        (n - 1) * *step <= i32::MAX,
                        out@.len() == i,
                        forall|k: int| 0 <= k < i ==> #[trigger] out@[k].value() == DataValue::Integer((*start + k * *step) as i32),
                    decreases n - i,
                {
                    assert(0 <= i * *step <= (n - 1) * *step) by (nonlinear_arith)
                        requires
                            0 <= i < n,
                            *step >= 0,
                    ;
                    let curr = *start + i * *step;
                    out.push(Data::Integer(curr));
                    i = i + 1;
                }
                assert(values_of(out@) =~= self.scale_points());
                out
            },
            ScaleValues::Number { start, step, .. } => {
                let n = self.length as isize;
                let mut out: Vec<Data> = Vec::new();
                let mut i: isize = 0;
                while i < n
                    invariant
                        0 <= i <= n,
                        n == self.length,
                        n >= 1,
                        *step >= 0,
                        *start + (n - 1) * *step <= isize::MAX,
                        (n - 1) * *step <= isize::MAX,
                        out@.len() == i,
                        forall|k: int| 0 <= k < i ==> #[trigger] out@[k].value() == DataValue::Number((*start + k * *step) as isize),
                    decreases n - i,
                {
                    assert(0 <= i * *step <= (n - 1) * *step) by (nonlinear_arith)
                        requires
                            0 <= i < n,
                            *step >= 0,
                    ;
                    let curr = *start + i * *step;
                    out.push(Data::Number(curr));
                    i = i + 1;
                }
                assert(values_of(out@) =~= self.scale_points());
                out
            },
            ScaleValues::Float { points, .. } => {
                let mut out: Vec<Data> = Vec::new();
                let mut i: usize = 0;
                while i < points.len()
                    invariant
                        i <= points@.len(),
                        out@.len() == i,
                        forall|k: int| 0 <= k < i ==> #[trigger] out@[k].value() == DataValue::Float(points@[k]),
                    decreases points@.len() - i,
                {
                    out.push(Data::Float(points[i]));
                    i = i + 1;
                }
                assert(values_of(out@) =~= self.scale_points());
                out
            },
        }
    }

    /// Returns the successive points on the scale. For categorical and floating
    /// point scales, this is the same as [`Scale::points`]
    pub fn ranged(&self) -> (r: Vec<Data>)
        requires
            self.wf(),
            self.points_fit(),
        ensures
            values_of(r@) == self.ranged_points(),
    {
        match &self.values {
            ScaleValues::Integer { start, end, .. } => {
                let mut out: Vec<Data> = Vec::new();
                let mut cur = *start;
                loop
                    invariant_except_break
                        out@.len() == cur - *start,
                        forall|k: int| 0 <= k < out@.len() ==> #[trigger] out@[k].value() == DataValue::Integer((*start + k) as i32),
                    invariant
                        *start <= cur <= *end,
                    ensures
                        out@.len() == *end - *start + 1,
                        forall|k: int| 0 <= k < out@.len() ==> #[trigger] out@[k].value() == DataValue::Integer((*start + k) as i32),
                    decreases *end - cur,
                {
                    out.push(Data::Integer(cur));
                    if cur == *end {
                        break;
                    }
                    cur = cur + 1;
                }
                assert(values_of(out@) =~= self.ranged_points());
                out
            },
            ScaleValues::Number { start, end, .. } => {
                let mut out: Vec<Data> = Vec::new();
                let mut cur = *start;
                loop
                    invariant_except_break
                        out@.len() == cur - *start,
                        forall|k: int| 0 <= k < out@.len() ==> #[trigger] out@[k].value() == DataValue::Number((*start + k) as isize),
                    invariant
                        *start <= cur <= *end,
                    ensures
                        out@.len() == *end - *start + 1,
                        forall|k: int| 0 <= k < out@.len() ==> #[trigger] out@[k].value() == DataValue::Number((*start + k) as isize),
                    decreases *end - cur,
                {
                    out.push(Data::Number(cur));
                    if cur == *end {
                        break;
                    }
                    cur = cur + 1;
                }
                assert(values_of(out@) =~= self.ranged_points());
                out
            },
            _ => self.points(),
        }
    }

    /// Returns true if the scale contains the given [`Data`].
    ///
    /// For non-categorical scales, true is returned if a valid data value falls
    /// the range min(Scale::points), max(Scale::points).
    pub fn contains(&self, value: &Data) -> (r: bool)
        requires
            self.wf(),
            self.points_fit(),
        ensures
            r == self.holds(value.value()),
    {
        match &self.values {
            ScaleValues::Categorical(values) => {
                let ghost vs = values_of(values@);
                assert(self.model() == ScaleModel::Categorical(vs));
                let mut found = false;
                let mut i: usize = 0;
                while i < values.len()
                    invariant
                        i <= values@.len(),
                        vs == values_of(values@),
                        self.model() == ScaleModel::Categorical(vs),
                        found <==> exists|k: int| 0 <= k < i && #[trigger] same_value(vs[k], value.value()),
                    decreases values@.len() - i,
                {
                    if same_data(&values[i], value) {
                        assert(same_value(vs[i as int], value.value()));
                        found = true;
                    }
                    i = i + 1;
                }
                found
            },
            ScaleValues::Number { start, step, .. } => match value {
                Data::Number(num) => {
                    assert(0 <= *step * (self.length - 1) == (self.length - 1) * *step) by (nonlinear_arith)
                        requires
                            *step >= 0,
                            self.length >= 1,
                    ;
                    let end = *start + (*step * (self.length - 1) as isize);
                    *start <= *num && *num <= end
                },
                _ => false,
            },
            ScaleValues::Integer { start, step, .. } => match value {
                Data::Integer(num) => {
                    assert(0 <= *step * (self.length - 1) == (self.length - 1) * *step) by (nonlinear_arith)
                        requires
                            *step >= 0,
                            self.length >= 1,
                    ;
                    let end = *start + (*step * (self.length - 1) as i32);
                    *start <= *num && *num <= end
                },
                _ => false,
            },
            ScaleValues::Float { start, points, .. } => match value {
                Data::Float(num) => {
                    let end = points[self.length - 1];
                    f32_at_most(*start, *num) && f32_at_most(*num, end)
                },
                _ => false,
            },
        }
    }

    /// Returns the points on the scale as a [`AxisPoints`]: the values of a
    /// categorical scale; else the points (the successive points when
    /// `sequential` holds, for integer and number scales) split into those
    /// below zero and the others, in order.
    pub fn axis_points(&self, sequential: bool) -> (r: AxisPoints)
        requires
            self.wf(),
            self.points_fit(),
        ensures
            self.model() matches ScaleModel::Categorical(v) ==> (r matches AxisPoints::Categorical(c) && values_of(c@)
                == v),
            !(self.model() is Categorical) ==> split_axis(
                r,
                if sequential {
                    self.ranged_points()
                } else {
                    self.scale_points()
                },
            ),
    {
        match &self.values {
            ScaleValues::Categorical(vals) => AxisPoints::Categorical(copy_data(vals)),
            _ => {
                let pts = if sequential {
                    self.ranged()
                } else {
                    self.points()
                };
                let positives = split_data(&pts, false);
                let negatives = split_data(&pts, true);
                AxisPoints::Numeric { positives, negatives }
            },
        }
    }

    /// Whether every point of the scale fits its type (see
    /// [`Scale::points_fit`]).
    pub fn all_points_fit(&self) -> (r: bool)
        requires
            self.wf(),
        ensures
            r == self.points_fit(),
    {
        let len = self.length as i128;
        match &self.values {
            ScaleValues::Integer { start, step, .. } => {
                if len > 2147483647 {
                    return false;
                }
                let st = *step as i128;
                assert(0 <= (len - 1) * st <= 0x8000_0000 * 0x8000_0000) by (nonlinear_arith)
                    requires
                        1 <= len <= 0x8000_0000,
                        0 <= st < 0x8000_0000,
                ;
                (len - 1) * st <= 2147483647 && (*start as i128) + (len - 1) * st <= 2147483647
            },
            ScaleValues::Number { start, step, .. } => {
                let m = isize::MAX as i128;
                if len > m {
                    return false;
                }
                let st = *step as i128;
                assert(0 <= (len - 1) * st <= 0x8000_0000_0000_0000 * 0x8000_0000_0000_0000) by (nonlinear_arith)
                    requires
                        1 <= len <= 0x8000_0000_0000_0000,
                        0 <= st < 0x8000_0000_0000_0000,
                ;
                (len - 1) * st <= m && (*start as i128) + (len - 1) * st <= m
            },
            ScaleValues::Float { .. } => self.length >= 1,
            ScaleValues::Categorical(_) => true,
        }
    }

    /// Returns true if the scale is categorical
    pub fn is_categorical(&self) -> (r: bool)
        ensures
            r == (self.scale_kind() is Categorical),
    {
        self.kind == ScaleKind::Categorical
    }

    /// Sorts the values of a categorical scale, keeping equal values in
    /// order; other scales are left as they are.
    pub fn sort(&mut self)
        ensures
            final(self).scale_kind() == old(self).scale_kind(),
            final(self).size() == old(self).size(),
            old(self).wf() ==> final(self).wf(),
            !(old(self).model() is Categorical) ==> final(self).model() == old(self).model(),
            old(self).model() matches ScaleModel::Categorical(v) ==> exists|p: Seq<usize>|
                #[trigger] is_perm(p, v.len()) && final(self).model() == ScaleModel::Categorical(permuted(v, p)) && (
                data_orderly(v, true) ==> data_sorted_stably(p, v, true, false)),
    {
        let ghost mut order: Seq<usize> = Seq::empty();
        let ghost before = *self;
        let sorted = match &self.values {
            ScaleValues::Categorical(values) => {
                let ghost v = values_of(values@);
                let p = sort_data_indices(values, true, false);
                let mut sorted: Vec<Data> = Vec::new();
                let mut i: usize = 0;
                while i < p.len()
                    invariant
                        i <= p@.len(),
                        is_perm(p@, values@.len()),
                        sorted@.len() == i,
                        forall|k: int| 0 <= k < i ==> #[trigger] sorted@[k].value() == values@[p@[k] as int].value(),
                    decreases p@.len() - i,
                {
                    sorted.push(values[p[i]].duplicate());
                    i = i + 1;
                }
                proof {
                    assert(values_of(sorted@) =~= permuted(values_of(values@), p@));
                    assert(values_of(values@) =~= values@.map_values(|d: Data| d.value()));
                    assert(is_perm(p@, v.len()));
                    order = p@;
                }
                Some(sorted)
            },
            _ => None,
        };
        if let Some(sorted) = sorted {
            let ghost sv = values_of(sorted@);
            self.values = ScaleValues::Categorical(sorted);
            proof {
                let v = match before.model() {
                    ScaleModel::Categorical(v) => v,
                    _ => Seq::empty(),
                };
                assert(self.model() == ScaleModel::Categorical(permuted(v, order)));
                assert(is_perm(order, v.len()));
            }
        }
    }
}

/// The position of the first of the values that the scale does not hold,
/// if any.
pub open spec fn first_outside(vals: Seq<DataValue>, scale: Scale) -> Option<int>
    decreases vals.len(),
{
    if vals.len() == 0 {
        None
    } else {
        match first_outside(vals.drop_last(), scale) {
            Some(i) => Some(i),
            None => if scale.holds(vals.last()) {
                None
            } else {
                Some(vals.len() - 1)
            },
        }
    }
}

pub proof fn lemma_first_outside(vals: Seq<DataValue>, scale: Scale)
    ensures
        first_outside(vals, scale) is None <==> forall|i: int| 0 <= i < vals.len() ==> scale.holds(#[trigger] vals[i]),
        first_outside(vals, scale) matches Some(i) ==> 0 <= i < vals.len() && !scale.holds(vals[i]) && forall|j: int|
            0 <= j < i ==> scale.holds(#[trigger] vals[j]),
    decreases vals.len(),
{
    if vals.len() > 0 {
        let d = vals.drop_last();
        lemma_first_outside(d, scale);
        assert forall|i: int| 0 <= i < d.len() implies #[trigger] d[i] == vals[i] by {}
        if first_outside(vals, scale) is None {
            assert forall|i: int| 0 <= i < vals.len() implies scale.holds(#[trigger] vals[i]) by {
                if i < d.len() {
                    assert(d[i] == vals[i]);
                }
            }
        }
        if forall|i: int| 0 <= i < vals.len() ==> scale.holds(#[trigger] vals[i]) {
            assert forall|i: int| 0 <= i < d.len() implies scale.holds(#[trigger] d[i]) by {
                assert(d[i] == vals[i]);
            }
            assert(scale.holds(vals[vals.len() - 1]));
        }
        if first_outside(d, scale) is None && first_outside(vals, scale) is Some {
            assert forall|j: int| 0 <= j < vals.len() - 1 implies scale.holds(#[trigger] vals[j]) by {
                assert(d[j] == vals[j]);
            }
        }
        if first_outside(d, scale) is Some {
            let i = first_outside(d, scale)->Some_0;
            assert(d[i] == vals[i]);
            assert forall|j: int| 0 <= j < i implies scale.holds(#[trigger] vals[j]) by {
                assert(d[j] == vals[j]);
            }
        }
    }
}

/// The position of the first of `vals` that the scale does not hold, if any.
pub fn find_outside(scale: &Scale, vals: &Vec<Data>) -> (r: Option<usize>)
    requires
        scale.wf(),
        scale.points_fit(),
    ensures
        r matches Some(i) ==> first_outside(values_of(vals@), *scale) == Some(i as int),
        r is None ==> first_outside(values_of(vals@), *scale) is None,
{
    let ghost vs = values_of(vals@);
    let mut i: usize = 0;
    while i < vals.len()
        invariant
            i <= vals@.len(),
            vs == values_of(vals@),
            scale.wf(),
            scale.points_fit(),
            first_outside(vs.take(i as int), *scale) is None,
        decreases vals@.len() - i,
    {
        assert(vs.take(i + 1).drop_last() =~= vs.take(i as int));
        if !scale.contains(&vals[i]) {
            proof {
                lemma_first_outside_prefix(vs, *scale, i + 1);
            }
            return Some(i);
        }
        i = i + 1;
    }
    assert(vs.take(i as int) =~= vs);
    None
}

proof fn lemma_first_outside_prefix(vals: Seq<DataValue>, scale: Scale, k: int)
    requires
        0 <= k <= vals.len(),
        first_outside(vals.take(k), scale) is Some,
    ensures
        first_outside(vals, scale) == first_outside(vals.take(k), scale),
    decreases vals.len() - k,
{
    if k < vals.len() {
        assert(vals.take(k + 1).drop_last() =~= vals.take(k));
        lemma_first_outside_prefix(vals, scale, k + 1);
    } else {
        assert(vals.take(k) =~= vals);
    }
}

/// The scale made of `s` for a scale of `kind` has every point fitting
/// its type: for an integer or number scale of points all of that kind, its
/// number of points, and its last point, fit the type.
pub open spec fn range_end_fits(s: Seq<DataValue>, kind: ScaleKind) -> bool {
    let ks = keep(s, kind, true);
    let nums = nums_of(ks);
    let lo = seq_min(nums);
    let hi = seq_max(nums);
    let c = dedup(ks).len() as int;
    let len = length_for(lo, hi, c);
    let step = step_for(hi - lo, c);
    (kind is Integer || kind is Number) && s.len() > 0 && keep(s, kind, false).len() == 0 ==> len <= kind_max(kind)
        && (len - 1) * step <= kind_max(kind) && lo + (len - 1) * step <= kind_max(kind)
}

/// A scale made where every point fits, by a float layout that always has a
/// point, has every point fitting.
pub proof fn lemma_made_scale_fits<R: Fn(&Vec<u32>) -> (u32, u32, u32, usize), A: Fn(u32, u32, usize) -> u32>(
    r: Scale,
    s: Seq<DataValue>,
    kind: ScaleKind,
    float_range: R,
    float_at: A,
)
    requires
        made_scale(r, s, kind, float_range, float_at),
        range_end_fits(s, kind),
        forall|v: Vec<u32>, res: (u32, u32, u32, usize)| #[trigger] call_ensures(float_range, (&v,), res) ==> res.3 >= 1,
    ensures
        r.points_fit(),
{
    let ks = keep(s, kind, true);
    let os = keep(s, kind, false);
    if kind is Float && s.len() > 0 && os.len() == 0 {
        let (v, res) = choose|v: Vec<u32>, res: (u32, u32, u32, usize)|
            {
                &&& v@ == bits_of(dedup(ks))
                &&& #[trigger] call_ensures(float_range, (&v,), res)
                &&& res.3 == r.size()
                &&& r.model() matches ScaleModel::Float { start, end, step, points }
                &&& start == res.0
                &&& end == res.1
                &&& step == res.2
                &&& points.len() == r.size()
                &&& forall|i: int|
                    0 <= i < r.size() ==> call_ensures(float_at, (start, step, i as usize), #[trigger] points[i])
            };
        assert(res.3 >= 1);
    }
}

proof fn lemma_keep_all(s: Seq<DataValue>, kind: ScaleKind)
    requires
        keep(s, kind, false).len() == 0,
    ensures
        keep(s, kind, true) == s,
        forall|i: int| 0 <= i < s.len() ==> of_kind(#[trigger] s[i], kind),
    decreases s.len(),
{
    if s.len() > 0 {
        let d = s.drop_last();
        if !of_kind(s.last(), kind) {
            assert(keep(s, kind, false).len() == keep(d, kind, false).len() + 1);
        }
        lemma_keep_all(d, kind);
        assert(keep(s, kind, true) =~= s);
        assert forall|i: int| 0 <= i < s.len() implies of_kind(#[trigger] s[i], kind) by {
            if i < d.len() {
                assert(d[i] == s[i]);
            }
        }
    }
}

proof fn lemma_min_max_contain(s: Seq<int>)
    ensures
        forall|i: int| 0 <= i < s.len() ==> seq_min(s) <= #[trigger] s[i] <= seq_max(s),
    decreases s.len(),
{
    if s.len() > 1 {
        let d = s.drop_last();
        lemma_min_max_contain(d);
        assert forall|i: int| 0 <= i < s.len() implies seq_min(s) <= #[trigger] s[i] <= seq_max(s) by {
            if i < d.len() {
                assert(d[i] == s[i]);
            }
        }
    }
}

proof fn lemma_range_reaches(lo: int, hi: int, c: int)
    requires
        lo <= hi,
        c >= 1,
    ensures
        hi <= lo + (length_for(lo, hi, c) - 1) * step_for(hi - lo, c),
{
    let d = hi - lo;
    let q = d / c;
    let step = step_for(d, c);
    if (c - 1) * step + lo < hi {
        if q * c != d {
            assert(c * (q + 1) >= d) by (nonlinear_arith)
                requires
                    d >= 0,
                    c >= 1,
                    q == d / c,
            ;
            assert(c * step >= d);
        } else {
            assert(c * q == d) by (nonlinear_arith)
                requires
                    q * c == d,
            ;
        }
        assert((c + 1 - 1) * step == c * step);
    }
}

proof fn lemma_dedup_among(s: Seq<DataValue>, i: int)
    requires
        0 <= i < s.len(),
        same_value(s[i], s[i]),
    ensures
        among(dedup(s), s[i]),
    decreases s.len(),
{
    let d = dedup(s.drop_last());
    if i < s.len() - 1 {
        assert(s.drop_last()[i] == s[i]);
        lemma_dedup_among(s.drop_last(), i);
        let j = choose|j: int| 0 <= j < d.len() && #[trigger] same_value(d[j], s[i]);
        if !(exists|k: int| 0 <= k < d.len() && #[trigger] same_value(d[k], s.last())) {
            assert(dedup(s)[j] == d[j]);
        }
    } else {
        if exists|k: int| 0 <= k < d.len() && #[trigger] same_value(d[k], s.last()) {
            let k = choose|k: int| 0 <= k < d.len() && #[trigger] same_value(d[k], s.last());
            lemma_same_value_symmetric_transitive(d[k], s.last());
        } else {
            assert(dedup(s)[d.len() as int] == s.last());
        }
    }
}

proof fn lemma_same_value_symmetric_transitive(a: DataValue, b: DataValue)
    requires
        same_value(a, b),
    ensures
        same_value(a, a) || same_value(b, b) ==> same_value(a, b),
{
}

/// Every value a scale of integers or numbers is made of lies on it: the
/// scale runs from the least to past the greatest.
pub proof fn law_range_scale_holds_its_values(r: Scale, s: Seq<DataValue>, kind: ScaleKind)
    requires
        kind is Integer || kind is Number,
        made_range_scale(r, s, kind),
        keep(s, kind, false).len() == 0,
    ensures
        forall|i: int| 0 <= i < s.len() ==> r.holds(#[trigger] s[i]),
{
    if s.len() > 0 {
        lemma_keep_all(s, kind);
        let ns = nums_of(s);
        lemma_min_max_contain(ns);
        lemma_dedup_len(s);
        let lo = seq_min(ns);
        let hi = seq_max(ns);
        let c = dedup(s).len() as int;
        assert(ns[0] == num_of(s[0]));
        lemma_range_reaches(lo, hi, c);
        assert forall|i: int| 0 <= i < s.len() implies r.holds(#[trigger] s[i]) by {
            assert(ns[i] == num_of(s[i]));
        }
    }
}

proof fn lemma_dedup_constant(s: Seq<DataValue>, v: DataValue)
    requires
        s.len() > 0,
        same_value(v, v),
        forall|i: int| 0 <= i < s.len() ==> #[trigger] s[i] == v,
    ensures
        dedup(s) == seq![v],
    decreases s.len(),
{
    if s.len() == 1 {
        assert(s.drop_last() =~= Seq::<DataValue>::empty());
        assert(dedup(s.drop_last()) =~= Seq::<DataValue>::empty());
        assert(dedup(s) =~= seq![v]);
    } else {
        lemma_dedup_constant(s.drop_last(), v);
        let d = dedup(s.drop_last());
        assert(same_value(d[0], s.last()));
    }
}

proof fn lemma_min_max_attained(s: Seq<int>)
    requires
        s.len() > 0,
    ensures
        exists|a: int| 0 <= a < s.len() && s[a] == seq_min(s),
        exists|b: int| 0 <= b < s.len() && s[b] == seq_max(s),
    decreases s.len(),
{
    if s.len() == 1 {
        assert(s[0] == seq_min(s));
        assert(s[0] == seq_max(s));
    } else {
        let d = s.drop_last();
        lemma_min_max_attained(d);
        let a = choose|a: int| 0 <= a < d.len() && d[a] == seq_min(d);
        let b = choose|b: int| 0 <= b < d.len() && d[b] == seq_max(d);
        assert(d[a] == s[a] && d[b] == s[b]);
        if s.last() < seq_min(d) {
            assert(s[s.len() - 1] == seq_min(s));
        } else {
            assert(s[a] == seq_min(s));
        }
        if s.last() > seq_max(d) {
            assert(s[s.len() - 1] == seq_max(s));
        } else {
            assert(s[b] == seq_max(s));
        }
    }
}

proof fn lemma_min_at_least(s: Seq<int>, m: int)
    requires
        s.len() > 0,
        forall|i: int| 0 <= i < s.len() ==> #[trigger] s[i] >= m,
    ensures
        seq_min(s) >= m,
    decreases s.len(),
{
    if s.len() > 1 {
        lemma_min_at_least(s.drop_last(), m);
    }
}

/// The layout of a scale of integers or numbers starts at the least value it
/// is made of and goes up by one step, greater than zero when there is more
/// than one point, to at least the greatest value. Where its points fit
/// their type (as [`Scale::points`] needs), the points are that layout:
/// strictly ascending by the step, each of the scale's kind.
pub proof fn law_range_scale_points(r: Scale, s: Seq<DataValue>, kind: ScaleKind)
    requires
        kind is Integer || kind is Number,
        made_range_scale(r, s, kind),
        keep(s, kind, false).len() == 0,
        s.len() > 0,
    ensures
        r.size() >= 1,
        r.model() matches ScaleModel::Range { start, end, step } && start == seq_min(nums_of(s)) && end == seq_max(
            nums_of(s),
        ) && step >= 0 && (r.size() > 1 ==> step > 0) && start + (r.size() - 1) * step >= end,
        r.points_fit() ==> {
            &&& r.scale_points().len() == r.size()
            &&& forall|i: int| 0 <= i < r.size() ==> of_kind(#[trigger] r.scale_points()[i], kind)
            &&& num_of(r.scale_points()[0]) == seq_min(nums_of(s))
            &&& num_of(r.scale_points()[r.size() - 1]) >= seq_max(nums_of(s))
            &&& r.model() matches ScaleModel::Range { step, .. } && forall|i: int|
                0 <= i < r.size() - 1 ==> num_of(#[trigger] r.scale_points()[i + 1]) == num_of(r.scale_points()[i])
                    + step
            &&& forall|i: int, j: int|
                0 <= i < j < r.size() ==> num_of(#[trigger] r.scale_points()[i]) < num_of(
                    #[trigger] r.scale_points()[j],
                )
        },
{
    lemma_keep_all(s, kind);
    let ns = nums_of(s);
    lemma_min_max_contain(ns);
    lemma_dedup_len(s);
    let lo = seq_min(ns);
    let hi = seq_max(ns);
    let c = dedup(s).len() as int;
    assert(ns[0] == num_of(s[0]));
    lemma_range_reaches(lo, hi, c);
    let step = step_for(hi - lo, c);
    let low = if kind is Integer { i32::MIN as int } else { isize::MIN as int };
    assert forall|i: int| 0 <= i < ns.len() implies #[trigger] ns[i] >= low by {
        assert(ns[i] == num_of(s[i]));
        assert(of_kind(s[i], kind));
    }
    lemma_min_at_least(ns, low);
    assert(step >= 0) by (nonlinear_arith)
        requires
            hi - lo >= 0,
            c >= 1,
            step == step_for(hi - lo, c),
    ;
    if lo == hi {
        assert forall|i: int| 0 <= i < s.len() implies #[trigger] s[i] == s[0] by {
            assert(ns[i] == num_of(s[i]));
            assert(of_kind(s[i], kind));
            assert(of_kind(s[0], kind));
        }
        lemma_dedup_constant(s, s[0]);
        assert(c == 1);
    } else {
        lemma_min_max_attained(ns);
        let a = choose|a: int| 0 <= a < ns.len() && ns[a] == lo;
        let b = choose|b: int| 0 <= b < ns.len() && ns[b] == hi;
        assert(ns[a] == num_of(s[a]) && ns[b] == num_of(s[b]));
        assert(of_kind(s[a], kind) && of_kind(s[b], kind));
        lemma_dedup_among(s, a);
        lemma_dedup_among(s, b);
        let d = dedup(s);
        let ka = choose|k: int| 0 <= k < d.len() && #[trigger] same_value(d[k], s[a]);
        let kb = choose|k: int| 0 <= k < d.len() && #[trigger] same_value(d[k], s[b]);
        assert(ka != kb);
        assert(c >= 2);
        assert(step > 0) by (nonlinear_arith)
            requires
                hi - lo >= 1,
                c >= 1,
                step == step_for(hi - lo, c),
        ;
    }
    let n = r.size() as int;
    let p = r.scale_points();
    if r.points_fit() {
        assert forall|i: int| 0 <= i < n implies #[trigger] num_of(p[i]) == lo + i * step && of_kind(p[i], kind) by {
            assert(0 <= i * step <= (n - 1) * step) by (nonlinear_arith)
                requires
                    0 <= i < n,
                    step >= 0,
            ;
        }
        assert forall|i: int, j: int| 0 <= i < j < n implies num_of(#[trigger] p[i]) < num_of(#[trigger] p[j]) by {
            assert(lo != hi);
            assert(i * step < j * step) by (nonlinear_arith)
                requires
                    0 <= i < j,
                    step > 0,
            ;
        }
        assert forall|i: int| 0 <= i < n - 1 implies num_of(#[trigger] p[i + 1]) == num_of(p[i]) + step by {
            assert((i + 1) * step == i * step + step) by (nonlinear_arith);
        }
    }
}

proof fn lemma_split_sorted(s: Seq<DataValue>)
    requires
        forall|i: int| 0 <= i < s.len() ==> #[trigger] s[i] is Integer || s[i] is Number,
        forall|i: int, j: int| 0 <= i < j < s.len() ==> num_of(#[trigger] s[i]) <= num_of(#[trigger] s[j]),
    ensures
        split(s, true) + split(s, false) == s,
        forall|i: int| 0 <= i < split(s, true).len() ==> below_zero(#[trigger] split(s, true)[i]),
        forall|i: int| 0 <= i < split(s, false).len() ==> !below_zero(#[trigger] split(s, false)[i]),
    decreases s.len(),
{
    if s.len() > 0 {
        let d = s.drop_last();
        let x = s.last();
        assert forall|i: int, j: int| 0 <= i < j < d.len() implies num_of(#[trigger] d[i]) <= num_of(#[trigger] d[j]) by {
            assert(d[i] == s[i] && d[j] == s[j]);
        }
        assert forall|i: int| 0 <= i < d.len() implies #[trigger] d[i] is Integer || d[i] is Number by {
            assert(d[i] == s[i]);
        }
        lemma_split_sorted(d);
        if below_zero(x) {
            assert(split(d, false).len() == 0) by {
                if split(d, false).len() > 0 {
                    let e = split(d, false)[0];
                    assert(split(d, true) + split(d, false) == d);
                    let k = split(d, true).len() as int;
                    assert(d[k] == e);
                    assert(s[k] == d[k]);
                    assert(num_of(s[k]) <= num_of(s[s.len() - 1]));
                    assert(s[k] is Integer || s[k] is Number);
                    assert(s[s.len() - 1] is Integer || s[s.len() - 1] is Number);
                }
            }
            assert(split(d, false) =~= Seq::<DataValue>::empty());
            assert(split(d, true) =~= split(d, true) + split(d, false));
            assert(s =~= d.push(x));
            assert(split(s, true) == split(d, true).push(x));
            assert(split(s, false) == split(d, false));
            assert(split(s, true) + split(s, false) =~= s);
        } else {
            assert(s =~= d.push(x));
            assert(split(s, true) == split(d, true));
            assert(split(s, false) == split(d, false).push(x));
            assert(split(d, true) + split(d, false).push(x) =~= (split(d, true) + split(d, false)).push(x));
            assert(split(s, true) + split(s, false) =~= s);
        }
    }
}

/// The points of an axis of a scale of integers or numbers: the points of
/// the scale (or, when sequential, every integer from its start to its end)
/// are the negative ones followed by the others, zero among the others; the
/// points go up, so each part does too.
pub proof fn law_range_axis_points(r: Scale, sequential: bool, a: AxisPoints)
    requires
        r.wf(),
        r.points_fit(),
        r.model() is Range,
        split_axis(a, r.axis_source(sequential)),
    ensures
        a matches AxisPoints::Numeric { positives, negatives } && values_of(negatives@) + values_of(positives@)
            == r.axis_source(sequential) && (forall|i: int|
            0 <= i < negatives@.len() ==> below_zero(#[trigger] values_of(negatives@)[i])) && (forall|i: int|
            0 <= i < positives@.len() ==> !below_zero(#[trigger] values_of(positives@)[i])),
        forall|i: int, j: int|
            0 <= i < j < r.axis_source(sequential).len() ==> num_of(#[trigger] r.axis_source(sequential)[i]) <= num_of(
                #[trigger] r.axis_source(sequential)[j],
            ),
{
    let pts = r.axis_source(sequential);
    let (start, end, step) = match r.model() {
        ScaleModel::Range { start, end, step } => (start, end, step),
        _ => (0, 0, 0),
    };
    let low = if r.scale_kind() is Integer { i32::MIN as int } else { isize::MIN as int };
    let high = kind_max(r.scale_kind());
    assert(low <= start <= end <= high && step >= 0);
    let n = r.size() as int;
    if sequential {
        assert forall|i: int| 0 <= i < pts.len() implies #[trigger] num_of(pts[i]) == start + i && (pts[i] is Integer
            || pts[i] is Number) by {}
    } else {
        assert forall|i: int| 0 <= i < pts.len() implies #[trigger] num_of(pts[i]) == start + i * step && (
        pts[i] is Integer || pts[i] is Number) by {
            assert(0 <= i * step <= (n - 1) * step) by (nonlinear_arith)
                requires
                    0 <= i < n,
                    step >= 0,
            ;
        }
    }
    assert forall|i: int, j: int| 0 <= i < j < pts.len() implies num_of(#[trigger] pts[i]) <= num_of(#[trigger] pts[j]) by {
        if !sequential {
            assert(i * step <= j * step) by (nonlinear_arith)
                requires
                    0 <= i < j,
                    step >= 0,
            ;
        }
    }
    lemma_split_sorted(pts);
}

/// Every value a categorical scale is made of, other than what is not a
/// number, is on it.
pub proof fn law_categorical_scale_holds_its_values(r: Scale, s: Seq<DataValue>)
    requires
        r.model() == ScaleModel::Categorical(dedup(s)),
    ensures
        forall|i: int| 0 <= i < s.len() && same_value(s[i], s[i]) ==> r.holds(#[trigger] s[i]),
{
    assert forall|i: int| 0 <= i < s.len() && same_value(s[i], s[i]) implies r.holds(#[trigger] s[i]) by {
        lemma_dedup_among(s, i);
    }
}

} // verus!
