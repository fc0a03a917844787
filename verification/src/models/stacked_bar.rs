use vstd::prelude::*;

verus! {

/// Why a stacked bar chart could not be made.
#[derive(Debug, Clone, PartialEq, Eq)]
pub enum StackedBarChartError {
    /// A point lies outside its axis' scale: the axis, then the point's value.
    OutOfRange(String, String),
}

} // verus!
