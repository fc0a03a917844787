//! The order of the values of cells.
use std::cmp::Ordering;
use vstd::prelude::*;

use super::super::floats::{f32_rank, f32_to_f64_bits, f32_total_order, f64_of_f32, f64_of_int, f64_rank, f64_total_order, int_to_f64_bits};
use super::column::{CellRef, CellValue};
use super::sorting::lemma_cell_order_range;

verus! {

broadcast use vstd::string::axiom_spec_iter;

/// -1, 0 or 1 as `x` is below, equal to or above `y`.
pub open spec fn sign_of(x: int, y: int) -> int {
    if x < y {
        -1
    } else if x == y {
        0
    } else {
        1
    }
}

/// The pattern of the 64 bit float nearest to `x`.
pub open spec fn int_as_f64(x: int) -> u64 {
    if x < 0 {
        f64_of_int(true, (-x) as nat)
    } else {
        f64_of_int(false, x as nat)
    }
}

/// The lexicographic order of two texts, character by character.
pub open spec fn text_order(x: Seq<char>, y: Seq<char>) -> int
    decreases x.len(),
{
    if x.len() == 0 && y.len() == 0 {
        0
    } else if x.len() == 0 {
        -1
    } else if y.len() == 0 {
        1
    } else if (x[0] as u32) < (y[0] as u32) {
        -1
    } else if (x[0] as u32) > (y[0] as u32) {
        1
    } else {
        text_order(x.drop_first(), y.drop_first())
    }
}

/// The integer a cell of an integer type holds.
pub open spec fn int_of(v: CellValue) -> Option<int> {
    match v {
        CellValue::I32(x) => Some(x as int),
        CellValue::U32(x) => Some(x as int),
        CellValue::ISize(x) => Some(x as int),
        CellValue::USize(x) => Some(x as int),
        _ => None,
    }
}

/// Where a number falls among 64 bit floats in the total order of IEEE
/// 754: an integer and a 32 bit float by the 64 bit float they convert to.
pub open spec fn num_rank(v: CellValue) -> int {
    match v {
        CellValue::F32(x) => f64_rank(f64_of_f32(x)),
        CellValue::F64(x) => f64_rank(x),
        _ => f64_rank(int_as_f64(int_of(v)->Some_0)),
    }
}

/// The group a value sorts in: empty, boolean, number, text.
pub open spec fn group_of(v: CellValue) -> int {
    match v {
        CellValue::Null => 0,
        CellValue::Bool(_) => 1,
        CellValue::Text(_) => 3,
        _ => 2,
    }
}

/// The order of two cell values: -1, 0 or 1 as `a` sorts before, with or
/// after `b`. Empty cells come first, then booleans, numbers and text.
/// Integers of any types compare by value; two 32 bit floats in the total
/// order of IEEE 754; any other two numbers as the 64 bit floats they
/// convert to, in that total order.
pub open spec fn cell_order(a: CellValue, b: CellValue) -> int {
    if group_of(a) != group_of(b) {
        sign_of(group_of(a), group_of(b))
    } else {
        match (a, b) {
            (CellValue::Bool(x), CellValue::Bool(y)) => sign_of(if x { 1 } else { 0 }, if y { 1 } else { 0 }),
            (CellValue::Text(x), CellValue::Text(y)) => text_order(x, y),
            (CellValue::F32(x), CellValue::F32(y)) => sign_of(f32_rank(x), f32_rank(y)),
            (CellValue::Null, CellValue::Null) => 0,
            _ => if int_of(a) is Some && int_of(b) is Some {
                sign_of(int_of(a)->Some_0, int_of(b)->Some_0)
            } else {
                sign_of(num_rank(a), num_rank(b))
            },
        }
    }
}

fn order_of(x: i128, y: i128) -> (r: i8)
    ensures
        r == sign_of(x as int, y as int),
{
    if x < y {
        -1
    } else if x == y {
        0
    } else {
        1
    }
}

fn magnitude(x: i128) -> (r: u64)
    requires
        -0x1_0000_0000_0000_0000 < x < 0x1_0000_0000_0000_0000,
    ensures
        r == (if x < 0 { -x } else { x as int }),
{
    if x < 0 {
        (-x) as u64
    } else {
        x as u64
    }
}

fn chars_of(s: &str) -> (r: Vec<char>)
    ensures
        r@ == s@,
{
    let mut v: Vec<char> = Vec::new();
    for c in iter: s.chars()
        invariant
            v@ == iter.seq().take(iter.index() as int),
    {
        v.push(c);
    }
    v
}

/// Compares two texts character by character.
pub fn text_compare(x: &str, y: &str) -> (r: i8)
    ensures
        r == text_order(x@, y@),
{
    let a = chars_of(x);
    let b = chars_of(y);
    let mut i: usize = 0;
    proof {
        assert(a@.skip(0) =~= a@);
        assert(b@.skip(0) =~= b@);
    }
    while i < a.len() && i < b.len()
        invariant
            a@ == x@,
            b@ == y@,
            i <= a@.len(),
            i <= b@.len(),
            text_order(a@, b@) == text_order(a@.skip(i as int), b@.skip(i as int)),
        decreases a@.len() - i,
    {
        proof {
            assert(a@.skip(i as int)[0] == a@[i as int]);
            assert(b@.skip(i as int)[0] == b@[i as int]);
            assert(a@.skip(i as int).drop_first() =~= a@.skip(i + 1));
            assert(b@.skip(i as int).drop_first() =~= b@.skip(i + 1));
        }
        if (a[i] as u32) < (b[i] as u32) {
            return -1;
        }
        if (a[i] as u32) > (b[i] as u32) {
            return 1;
        }
        i = i + 1;
    }
    if i == a.len() && i == b.len() {
        0
    } else if i == a.len() {
        -1
    } else {
        1
    }
}

/// The integer a cell of an integer type holds.
fn int_value(a: &CellRef) -> (r: Option<i128>)
    ensures
        match int_of(a.value()) {
            Some(v) => r == Some(v as i128),
            None => r is None,
        },
{
    match a {
        CellRef::I32(x) => Some(*x as i128),
        CellRef::U32(x) => Some(*x as i128),
        CellRef::ISize(x) => Some(*x as i128),
        CellRef::USize(x) => Some(*x as i128),
        _ => None,
    }
}

/// The 64 bit float a number converts to.
fn as_f64_bits(a: &CellRef) -> (r: u64)
    requires
        group_of(a.value()) == 2,
    ensures
        f64_rank(r) == num_rank(a.value()),
{
    match a {
        CellRef::F32(x) => f32_to_f64_bits(*x),
        CellRef::F64(x) => *x,
        CellRef::I32(x) => int_to_f64_bits(*x < 0, magnitude(*x as i128)),
        CellRef::U32(x) => int_to_f64_bits(false, *x as u64),
        CellRef::ISize(x) => int_to_f64_bits(*x < 0, magnitude(*x as i128)),
        CellRef::USize(x) => int_to_f64_bits(false, *x as u64),
        _ => 0,
    }
}

fn group(a: &CellRef) -> (r: u8)
    ensures
        r == group_of(a.value()),
{
    match a {
        CellRef::Null => 0,
        CellRef::Bool(_) => 1,
        CellRef::Text(_) => 3,
        _ => 2,
    }
}

/// Compares the values of two cells.
pub fn compare_cells(a: &CellRef, b: &CellRef) -> (r: i8)
    ensures
        r == cell_order(a.value(), b.value()),
{
    let ga = group(a);
    let gb = group(b);
    if ga != gb {
        return if ga < gb {
            -1
        } else {
            1
        };
    }
    match (a, b) {
        (CellRef::Null, CellRef::Null) => 0,
        (CellRef::Bool(x), CellRef::Bool(y)) => if *x == *y {
            0
        } else if !*x {
            -1
        } else {
            1
        },
        (CellRef::Text(x), CellRef::Text(y)) => text_compare(x, y),
        (CellRef::F32(x), CellRef::F32(y)) => f32_total_order(*x, *y),
        _ => match (int_value(a), int_value(b)) {
            (Some(x), Some(y)) => order_of(x, y),
            _ => f64_total_order(as_f64_bits(a), as_f64_bits(b)),
        },
    }
}

impl<'a> CellRef<'a> {
    /// Compares the values of two cells: empty cells come first and text
    /// last; numbers of different types are compared by value, and with
    /// floats as 64 bit floats, in the total order of IEEE 754.
    ///
    /// Integers of different types compare by value in both directions, so
    /// that comparing the other way round always gives the reverse:
    /// `U32(5)` is after `I32(3)`, and `I32(3)` before `U32(5)`.
    pub fn cmp(&self, b: &Self) -> (r: Ordering)
        ensures
            (r == Ordering::Less) == (cell_order(self.value(), b.value()) == -1),
            (r == Ordering::Equal) == (cell_order(self.value(), b.value()) == 0),
            (r == Ordering::Greater) == (cell_order(self.value(), b.value()) == 1),
    {
        let order = compare_cells(self, b);
        proof {
            lemma_cell_order_range(self.value(), b.value());
        }
        if order < 0 {
            Ordering::Less
        } else if order == 0 {
            Ordering::Equal
        } else {
            Ordering::Greater
        }
    }
}

} // verus!
