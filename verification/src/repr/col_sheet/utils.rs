use vstd::prelude::*;

use super::super::parse::{read_bool, read_i32, read_isize, read_u32, read_usize, spec_read_bool, spec_read_i32, spec_read_isize, spec_read_u32, spec_read_usize};

verus! {

/// Data types supported by the current implementation.
#[derive(Debug, Clone, Copy, PartialEq, Eq, Structural)]
pub enum DataType {
    I32,
    U32,
    ISize,
    USize,
    Bool,
    F32,
    F64,
    Text,
}

impl Default for DataType {
    fn default() -> (r: Self)
        ensures
            r == DataType::Text,
    {
        DataType::Text
    }
}

/// Whether a column of type `from` converts to one of type `to` without loss.
pub open spec fn lossless(from: DataType, to: DataType) -> bool {
    if to == DataType::Text {
        true
    } else if from == DataType::Text {
        false
    } else {
        from == to || (from == DataType::U32 && (to == DataType::USize || to == DataType::ISize
            || to == DataType::F64)) || (from == DataType::I32 && (to == DataType::ISize || to
            == DataType::F64)) || (from == DataType::F32 && to == DataType::F64)
    }
}

impl DataType {
    /// Returns true if a lossless conversion can be made.
    pub fn can_convert(from: Self, to: Self) -> (r: bool)
        ensures
            r == lossless(from, to),
    {
        match (from, to) {
            (Self::Text, Self::Text) => true,
            (_, Self::Text) => true,
            (Self::Text, _) => false,
            (Self::U32, Self::U32) => true,
            (Self::U32, Self::USize) => true,
            (Self::U32, Self::ISize) => true,
            (Self::U32, Self::F64) => true,
            (Self::U32, _) => false,
            (Self::I32, Self::I32) => true,
            (Self::I32, Self::ISize) => true,
            (Self::I32, Self::F64) => true,
            (Self::I32, _) => false,
            (Self::ISize, Self::ISize) => true,
            (Self::ISize, _) => false,
            (Self::USize, Self::USize) => true,
            (Self::USize, _) => false,
            (Self::F32, Self::F32) => true,
            (Self::F32, Self::F64) => true,
            (Self::F32, _) => false,
            (Self::F64, Self::F64) => true,
            (Self::F64, _) => false,
            (Self::Bool, Self::Bool) => true,
            (Self::Bool, _) => false,
        }
    }
}

/// Every type converts losslessly to itself.
pub proof fn lossless_reflexive(t: DataType)
    ensures
        lossless(t, t),
{
}

/// Lossless conversions compose: converting `a` to `b` and `b` to `c`
/// without loss converts `a` to `c` without loss.
pub proof fn lossless_transitive(a: DataType, b: DataType, c: DataType)
    requires
        lossless(a, b),
        lossless(b, c),
    ensures
        lossless(a, c),
{
}

/// `s` with the elements at `x` and `y` exchanged.
pub open spec fn swap_seq<T>(s: Seq<T>, x: int, y: int) -> Seq<T> {
    s.update(x, s[y]).update(y, s[x])
}

/// `s` after exchanging, for each position `p` of `indices` in order, the
/// elements at `p` and `indices[p]`.
pub open spec fn swaps_applied<T>(s: Seq<T>, indices: Seq<usize>) -> Seq<T>
    decreases indices.len(),
{
    if indices.len() == 0 {
        s
    } else {
        swap_seq(
            swaps_applied(s, indices.drop_last()),
            indices.len() - 1,
            indices.last() as int,
        )
    }
}

/// The header of a column: its label, if any, and its data type.
#[derive(Debug, PartialEq)]
pub struct ColumnHeader<'a> {
    pub header: Option<&'a str>,
    pub kind: DataType,
}

/// Element types that can be read from text.
pub trait Readable: Sized {
    /// What reading `s` yields, if it spells a value of this type.
    spec fn spec_read(s: Seq<char>) -> Option<Self>;

    fn read(s: &str) -> (r: Option<Self>)
        ensures
            r == Self::spec_read(s@),
    ;
}

impl Readable for i32 {
    open spec fn spec_read(s: Seq<char>) -> Option<i32> {
        spec_read_i32(s)
    }

    fn read(s: &str) -> (r: Option<i32>) {
        read_i32(s)
    }
}

impl Readable for u32 {
    open spec fn spec_read(s: Seq<char>) -> Option<u32> {
        spec_read_u32(s)
    }

    fn read(s: &str) -> (r: Option<u32>) {
        read_u32(s)
    }
}

impl Readable for isize {
    open spec fn spec_read(s: Seq<char>) -> Option<isize> {
        spec_read_isize(s)
    }

    fn read(s: &str) -> (r: Option<isize>) {
        read_isize(s)
    }
}

impl Readable for usize {
    open spec fn spec_read(s: Seq<char>) -> Option<usize> {
        spec_read_usize(s)
    }

    fn read(s: &str) -> (r: Option<usize>) {
        read_usize(s)
    }
}

impl Readable for bool {
    open spec fn spec_read(s: Seq<char>) -> Option<bool> {
        spec_read_bool(s)
    }

    fn read(s: &str) -> (r: Option<bool>) {
        read_bool(s)
    }
}

/// Whether `input` stands for an empty cell: it is empty or equals `null`.
pub open spec fn is_null_text(input: Seq<char>, null: Seq<char>) -> bool {
    input.len() == 0 || input == null
}

/// What reading `input` into a cell of type `T` gives: `Ok(None)` for a null
/// input, `Ok(Some(v))` when it reads as `v`, and `Err(())` otherwise.
pub open spec fn spec_parse_cell<T: Readable>(input: Seq<char>, null: Seq<char>) -> Result<
    Option<T>,
    (),
> {
    if is_null_text(input, null) {
        Ok(None)
    } else {
        match T::spec_read(input) {
            Some(v) => Ok(Some(v)),
            None => Err(()),
        }
    }
}

/// What reading `input` into a cell of type `T` gives, failures read as empty.
pub open spec fn spec_parse_cell_lossy<T: Readable>(input: Seq<char>, null: Seq<char>) -> Option<
    T,
> {
    match spec_parse_cell::<T>(input, null) {
        Ok(v) => v,
        Err(_) => None,
    }
}

/// Compares two strings by their characters.
pub fn str_equal(a: &str, b: &str) -> (r: bool)
    ensures
        r == (a@ == b@),
{
    let x = a.to_owned();
    let y = b.to_owned();
    x == y
}

/// Parses `input` into given type, taking note of both empty and null strings.
///
/// On error, `()` is returned.
pub fn parse_helper<T: Readable>(input: &str, null: &str) -> (r: Result<Option<T>, ()>)
    ensures
        r == spec_parse_cell::<T>(input@, null@),
{
    if input.is_empty() || str_equal(input, null) {
        return Ok(None);
    }
    match T::read(input) {
        Some(v) => Ok(Some(v)),
        None => Err(()),
    }
}

/// Discards the error from `parse_helper`.
pub fn parse_unchecked<T: Readable>(input: &str, null: &str) -> (r: Option<T>)
    ensures
        r == spec_parse_cell_lossy::<T>(input@, null@),
{
    match parse_helper::<T>(input, null) {
        Ok(v) => v,
        Err(_) => None,
    }
}

/// Reads `input` as a text cell: null inputs are empty, all else is kept.
pub fn parse_text(input: &str, null: &str) -> (r: Option<String>)
    ensures
        is_null_text(input@, null@) ==> r is None,
        !is_null_text(input@, null@) ==> r is Some && r->0@ == input@,
{
    if input.is_empty() || str_equal(input, null) {
        None
    } else {
        Some(input.to_owned())
    }
}

/// A field of text, with what reading it as a 32 bit and as a 64 bit
/// floating point number gives (as bit patterns), where it reads as one.
///
/// Only a floating point reader can supply the two readings; every use of a
/// `Reading` takes them to be what such a reader makes of `text`.
#[derive(Debug)]
pub struct Reading {
    pub text: String,
    pub as_f32: Option<u32>,
    pub as_f64: Option<u64>,
}

impl Reading {
    pub fn new(text: String, as_f32: Option<u32>, as_f64: Option<u64>) -> (r: Self)
        ensures
            r.text@ == text@,
            r.as_f32 == as_f32,
            r.as_f64 == as_f64,
    {
        Reading { text, as_f32, as_f64 }
    }
}

/// What reading a field into a 32 bit float cell gives.
pub open spec fn spec_parse_f32_cell(r: Reading, null: Seq<char>) -> Result<Option<u32>, ()> {
    if is_null_text(r.text@, null) {
        Ok(None)
    } else {
        match r.as_f32 {
            Some(b) => Ok(Some(b)),
            None => Err(()),
        }
    }
}

/// What reading a field into a 64 bit float cell gives.
pub open spec fn spec_parse_f64_cell(r: Reading, null: Seq<char>) -> Result<Option<u64>, ()> {
    if is_null_text(r.text@, null) {
        Ok(None)
    } else {
        match r.as_f64 {
            Some(b) => Ok(Some(b)),
            None => Err(()),
        }
    }
}

pub open spec fn spec_parse_f32_cell_lossy(r: Reading, null: Seq<char>) -> Option<u32> {
    match spec_parse_f32_cell(r, null) {
        Ok(v) => v,
        Err(_) => None,
    }
}

pub open spec fn spec_parse_f64_cell_lossy(r: Reading, null: Seq<char>) -> Option<u64> {
    match spec_parse_f64_cell(r, null) {
        Ok(v) => v,
        Err(_) => None,
    }
}

pub fn parse_f32_reading(value: &Reading, null: &str) -> (r: Result<Option<u32>, ()>)
    ensures
        r == spec_parse_f32_cell(*value, null@),
{
    if value.text.as_str().is_empty() || str_equal(value.text.as_str(), null) {
        return Ok(None);
    }
    match value.as_f32 {
        Some(b) => Ok(Some(b)),
        None => Err(()),
    }
}

pub fn parse_f64_reading(value: &Reading, null: &str) -> (r: Result<Option<u64>, ()>)
    ensures
        r == spec_parse_f64_cell(*value, null@),
{
    if value.text.as_str().is_empty() || str_equal(value.text.as_str(), null) {
        return Ok(None);
    }
    match value.as_f64 {
        Some(b) => Ok(Some(b)),
        None => Err(()),
    }
}

pub fn parse_f32_reading_lossy(value: &Reading, null: &str) -> (r: Option<u32>)
    ensures
        r == spec_parse_f32_cell_lossy(*value, null@),
{
    match parse_f32_reading(value, null) {
        Ok(v) => v,
        Err(_) => None,
    }
}

pub fn parse_f64_reading_lossy(value: &Reading, null: &str) -> (r: Option<u64>)
    ensures
        r == spec_parse_f64_cell_lossy(*value, null@),
{
    match parse_f64_reading(value, null) {
        Ok(v) => v,
        Err(_) => None,
    }
}

} // verus!
