//! How two values of cells compare with `partial_cmp` and `<`.
use std::cmp::Ordering;

use vstd::prelude::*;

use super::super::floats::{f32_is_nan, f32_nan};
use super::utils::{Data, DataValue};
use super::{compare_whole, data_order};

verus! {

/// The ordering that a comparison yielding `c` stands for: less below zero,
/// equal at zero, greater above.
pub open spec fn ordering_of(c: int) -> Ordering {
    if c < 0 {
        Ordering::Less
    } else if c == 0 {
        Ordering::Equal
    } else {
        Ordering::Greater
    }
}

/// How two values compare: by [`data_order`], except that two floats of
/// which one is not a number do not compare.
pub open spec fn partial_order(a: DataValue, b: DataValue) -> Option<Ordering> {
    match (a, b) {
        (DataValue::Float(x), DataValue::Float(y)) => if f32_is_nan(x) || f32_is_nan(y) {
            None
        } else {
            Some(ordering_of(data_order(a, b)))
        },
        _ => Some(ordering_of(data_order(a, b))),
    }
}

fn ordering(c: i8) -> (r: Ordering)
    ensures
        c < 0 ==> r == Ordering::Less,
        c == 0 ==> r == Ordering::Equal,
        c > 0 ==> r == Ordering::Greater,
{
    if c < 0 {
        Ordering::Less
    } else if c == 0 {
        Ordering::Equal
    } else {
        Ordering::Greater
    }
}

impl PartialOrd for Data {
    fn partial_cmp(&self, other: &Self) -> (r: Option<Ordering>) {
        if let (Data::Float(x), Data::Float(y)) = (self, other) {
            if f32_nan(*x) || f32_nan(*y) {
                return None;
            }
        }
        Some(ordering(compare_whole(self, other)))
    }
}

impl vstd::std_specs::cmp::PartialOrdSpecImpl for Data {
    open spec fn obeys_partial_cmp_spec() -> bool {
        true
    }

    open spec fn partial_cmp_spec(&self, other: &Self) -> Option<Ordering> {
        partial_order(self.value(), other.value())
    }
}

} // verus!
