use vstd::prelude::*;

verus! {

/// Data types supported by the current implementation of Apache Arrow.
#[derive(Debug, Clone, Copy, PartialEq, Eq, Structural)]
pub enum DataType {
    Int32,
    UInt32,
    ISize,
    USize,
    Boolean,
    F32,
    F64,
    Text,
    Union,
}

} // verus!
