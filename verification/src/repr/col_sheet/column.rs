use vstd::prelude::*;

use super::arraybool::ArrayBool;
use super::arrayf32::ArrayF32;
use super::arrayf64::ArrayF64;
use super::arrayi32::ArrayI32;
use super::arrayisize::ArrayISize;
use super::arraytext::{spec_text_cell, ArrayText};
use super::arrayu32::ArrayU32;
use super::arrayusize::ArrayUSize;
use super::utils::{
    spec_parse_cell, spec_parse_f32_cell, spec_parse_f64_cell, swap_seq, swaps_applied, DataType,
    Reading,
};

verus! {

/// The value held by one cell of a column.
pub enum CellValue {
    I32(i32),
    U32(u32),
    ISize(isize),
    USize(usize),
    Bool(bool),
    /// A 32 bit float, by its bit pattern.
    F32(u32),
    /// A 64 bit float, by its bit pattern.
    F64(u64),
    Text(Seq<char>),
    Null,
}

/// Reference to the data within a column's cell.
#[derive(Debug, PartialEq)]
pub enum CellRef<'a> {
    I32(i32),
    U32(u32),
    ISize(isize),
    USize(usize),
    Bool(bool),
    /// A 32 bit float, by its bit pattern.
    F32(u32),
    /// A 64 bit float, by its bit pattern.
    F64(u64),
    Text(&'a str),
    Null,
}

impl<'a> CellRef<'a> {
    /// The value the reference stands for.
    pub open spec fn value(&self) -> CellValue {
        match *self {
            CellRef::I32(v) => CellValue::I32(v),
            CellRef::U32(v) => CellValue::U32(v),
            CellRef::ISize(v) => CellValue::ISize(v),
            CellRef::USize(v) => CellValue::USize(v),
            CellRef::Bool(v) => CellValue::Bool(v),
            CellRef::F32(v) => CellValue::F32(v),
            CellRef::F64(v) => CellValue::F64(v),
            CellRef::Text(t) => CellValue::Text(t@),
            CellRef::Null => CellValue::Null,
        }
    }
}

pub open spec fn opt_value<T>(o: Option<T>, f: spec_fn(T) -> CellValue) -> CellValue {
    match o {
        Some(v) => f(v),
        None => CellValue::Null,
    }
}

/// What a cell of type `kind` holds after reading `r`, or `Err` when `r` is
/// neither null nor a value of that type.
pub open spec fn spec_read_cell(kind: DataType, r: Reading, null: Seq<char>) -> Result<
    CellValue,
    (),
> {
    match kind {
        DataType::I32 => match spec_parse_cell::<i32>(r.text@, null) {
            Ok(v) => Ok(opt_value(v, |x: i32| CellValue::I32(x))),
            Err(_) => Err(()),
        },
        DataType::U32 => match spec_parse_cell::<u32>(r.text@, null) {
            Ok(v) => Ok(opt_value(v, |x: u32| CellValue::U32(x))),
            Err(_) => Err(()),
        },
        DataType::ISize => match spec_parse_cell::<isize>(r.text@, null) {
            Ok(v) => Ok(opt_value(v, |x: isize| CellValue::ISize(x))),
            Err(_) => Err(()),
        },
        DataType::USize => match spec_parse_cell::<usize>(r.text@, null) {
            Ok(v) => Ok(opt_value(v, |x: usize| CellValue::USize(x))),
            Err(_) => Err(()),
        },
        DataType::Bool => match spec_parse_cell::<bool>(r.text@, null) {
            Ok(v) => Ok(opt_value(v, |x: bool| CellValue::Bool(x))),
            Err(_) => Err(()),
        },
        DataType::F32 => match spec_parse_f32_cell(r, null) {
            Ok(v) => Ok(opt_value(v, |x: u32| CellValue::F32(x))),
            Err(_) => Err(()),
        },
        DataType::F64 => match spec_parse_f64_cell(r, null) {
            Ok(v) => Ok(opt_value(v, |x: u64| CellValue::F64(x))),
            Err(_) => Err(()),
        },
        DataType::Text => Ok(
            match spec_text_cell(r.text@, null) {
                Some(t) => CellValue::Text(t),
                None => CellValue::Null,
            },
        ),
    }
}

/// Like [`spec_read_cell`], with an unreadable field read as an empty cell.
pub open spec fn spec_read_cell_lossy(kind: DataType, r: Reading, null: Seq<char>) -> CellValue {
    match spec_read_cell(kind, r, null) {
        Ok(v) => v,
        Err(_) => CellValue::Null,
    }
}

/// A column of a [`super::ColumnSheet`], of one of the supported data types.
#[derive(Debug, PartialEq)]
pub enum Column {
    I32(ArrayI32),
    U32(ArrayU32),
    ISize(ArrayISize),
    USize(ArrayUSize),
    Bool(ArrayBool),
    F32(ArrayF32),
    F64(ArrayF64),
    Text(ArrayText),
}

impl Column {
    /// The header label of the column.
    pub open spec fn label_view(&self) -> Option<Seq<char>> {
        match self {
            Column::I32(a) => a.label_view(),
            Column::U32(a) => a.label_view(),
            Column::ISize(a) => a.label_view(),
            Column::USize(a) => a.label_view(),
            Column::Bool(a) => a.label_view(),
            Column::F32(a) => a.label_view(),
            Column::F64(a) => a.label_view(),
            Column::Text(a) => a.label_view(),
        }
    }

    /// The data type of the column.
    pub open spec fn kind_view(&self) -> DataType {
        match self {
            Column::I32(_) => DataType::I32,
            Column::U32(_) => DataType::U32,
            Column::ISize(_) => DataType::ISize,
            Column::USize(_) => DataType::USize,
            Column::Bool(_) => DataType::Bool,
            Column::F32(_) => DataType::F32,
            Column::F64(_) => DataType::F64,
            Column::Text(_) => DataType::Text,
        }
    }

    /// The cells of the column, top to bottom.
    pub open spec fn cells(&self) -> Seq<CellValue> {
        match self {
            Column::I32(a) => a.cells_view().map_values(
                |c: Option<i32>| opt_value(c, |x: i32| CellValue::I32(x)),
            ),
            Column::U32(a) => a.cells_view().map_values(
                |c: Option<u32>| opt_value(c, |x: u32| CellValue::U32(x)),
            ),
            Column::ISize(a) => a.cells_view().map_values(
                |c: Option<isize>| opt_value(c, |x: isize| CellValue::ISize(x)),
            ),
            Column::USize(a) => a.cells_view().map_values(
                |c: Option<usize>| opt_value(c, |x: usize| CellValue::USize(x)),
            ),
            Column::Bool(a) => a.cells_view().map_values(
                |c: Option<bool>| opt_value(c, |x: bool| CellValue::Bool(x)),
            ),
            Column::F32(a) => a.cells_view().map_values(
                |c: Option<u32>| opt_value(c, |x: u32| CellValue::F32(x)),
            ),
            Column::F64(a) => a.cells_view().map_values(
                |c: Option<u64>| opt_value(c, |x: u64| CellValue::F64(x)),
            ),
            Column::Text(a) => a.cells_view().map_values(
                |c: Option<Seq<char>>| opt_value(c, |x: Seq<char>| CellValue::Text(x)),
            ),
        }
    }

    /// Returns the header label of the column.
    pub fn label(&self) -> (r: Option<&str>)
        ensures
            r matches Some(s) ==> self.label_view() == Some(s@),
            r is None ==> self.label_view() is None,
    {
        match self {
            Column::I32(a) => a.label(),
            Column::U32(a) => a.label(),
            Column::ISize(a) => a.label(),
            Column::USize(a) => a.label(),
            Column::Bool(a) => a.label(),
            Column::F32(a) => a.label(),
            Column::F64(a) => a.label(),
            Column::Text(a) => a.label(),
        }
    }

    /// Returns the type of data within the column.
    pub fn kind(&self) -> (r: DataType)
        ensures
            r == self.kind_view(),
    {
        match self {
            Column::I32(_) => DataType::I32,
            Column::U32(_) => DataType::U32,
            Column::ISize(_) => DataType::ISize,
            Column::USize(_) => DataType::USize,
            Column::Bool(_) => DataType::Bool,
            Column::F32(_) => DataType::F32,
            Column::F64(_) => DataType::F64,
            Column::Text(_) => DataType::Text,
        }
    }

    /// Returns the length of the column.
    pub fn len(&self) -> (r: usize)
        ensures
            r == self.cells().len(),
    {
        match self {
            Column::I32(a) => a.len(),
            Column::U32(a) => a.len(),
            Column::ISize(a) => a.len(),
            Column::USize(a) => a.len(),
            Column::Bool(a) => a.len(),
            Column::F32(a) => a.len(),
            Column::F64(a) => a.len(),
            Column::Text(a) => a.len(),
        }
    }

    /// Returns true if the column has no element; empty cells are elements.
    pub fn is_empty(&self) -> (r: bool)
        ensures
            r == (self.cells().len() == 0),
    {
        self.len() == 0
    }

    /// Returns the data at `idx`, if `idx` is in range.
    pub fn data_ref(&self, idx: usize) -> (r: Option<CellRef<'_>>)
        ensures
            r is Some <==> idx < self.cells().len(),
            r matches Some(c) ==> c.value() == self.cells()[idx as int],
    {
        if idx >= self.len() {
            return None;
        }
        match self {
            Column::I32(a) => Some(
                match a.get(idx) {
                    Some(v) => CellRef::I32(v),
                    None => CellRef::Null,
                },
            ),
            Column::U32(a) => Some(
                match a.get(idx) {
                    Some(v) => CellRef::U32(v),
                    None => CellRef::Null,
                },
            ),
            Column::ISize(a) => Some(
                match a.get(idx) {
                    Some(v) => CellRef::ISize(v),
                    None => CellRef::Null,
                },
            ),
            Column::USize(a) => Some(
                match a.get(idx) {
                    Some(v) => CellRef::USize(v),
                    None => CellRef::Null,
                },
            ),
            Column::Bool(a) => Some(
                match a.get(idx) {
                    Some(v) => CellRef::Bool(v),
                    None => CellRef::Null,
                },
            ),
            Column::F32(a) => Some(
                match a.get(idx) {
                    Some(v) => CellRef::F32(v),
                    None => CellRef::Null,
                },
            ),
            Column::F64(a) => Some(
                match a.get(idx) {
                    Some(v) => CellRef::F64(v),
                    None => CellRef::Null,
                },
            ),
            Column::Text(a) => Some(
                match a.get_ref(idx) {
                    Some(v) => CellRef::Text(v.as_str()),
                    None => CellRef::Null,
                },
            ),
        }
    }

    /// Sets the header label for the column.
    pub fn set_header(&mut self, header: String)
        ensures
            final(self).label_view() == Some(header@),
            final(self).kind_view() == old(self).kind_view(),
            final(self).cells() == old(self).cells(),
    {
        match self {
            Column::I32(a) => {
                a.set_header(header);
            },
            Column::U32(a) => {
                a.set_header(header);
            },
            Column::ISize(a) => {
                a.set_header(header);
            },
            Column::USize(a) => {
                a.set_header(header);
            },
            Column::Bool(a) => {
                a.set_header(header);
            },
            Column::F32(a) => {
                a.set_header(header);
            },
            Column::F64(a) => {
                a.set_header(header);
            },
            Column::Text(a) => {
                a.set_header(header);
            },
        }
    }

    /// Pushes `value` to the end of the column, read as the column's type. A
    /// null or unreadable value pushes an empty cell.
    pub fn push(&mut self, value: &Reading, null: &str)
        ensures
            final(self).label_view() == old(self).label_view(),
            final(self).kind_view() == old(self).kind_view(),
            final(self).cells() == old(self).cells().push(
                spec_read_cell_lossy(old(self).kind_view(), *value, null@),
            ),
    {
        let ghost old_cells = self.cells();
        match self {
            Column::I32(a) => a.push(value.text.as_str(), null),
            Column::U32(a) => a.push(value.text.as_str(), null),
            Column::ISize(a) => a.push(value.text.as_str(), null),
            Column::USize(a) => a.push(value.text.as_str(), null),
            Column::Bool(a) => a.push(value.text.as_str(), null),
            Column::F32(a) => a.push(value, null),
            Column::F64(a) => a.push(value, null),
            Column::Text(a) => a.push(value.text.as_str(), null),
        }
        assert(self.cells() =~= old_cells.push(
            spec_read_cell_lossy(old(self).kind_view(), *value, null@),
        ));
    }

    /// Removes the value at `idx` if any, shifting the remaining values up.
    pub fn remove(&mut self, idx: usize)
        ensures
            final(self).label_view() == old(self).label_view(),
            final(self).kind_view() == old(self).kind_view(),
            final(self).cells() == (if idx < old(self).cells().len() {
                old(self).cells().remove(idx as int)
            } else {
                old(self).cells()
            }),
    {
        let ghost old_cells = self.cells();
        match self {
            Column::I32(a) => a.remove(idx),
            Column::U32(a) => a.remove(idx),
            Column::ISize(a) => a.remove(idx),
            Column::USize(a) => a.remove(idx),
            Column::Bool(a) => a.remove(idx),
            Column::F32(a) => a.remove(idx),
            Column::F64(a) => a.remove(idx),
            Column::Text(a) => a.remove(idx),
        }
        proof {
            if idx < old_cells.len() {
                assert(self.cells() =~= old_cells.remove(idx as int));
            } else {
                assert(self.cells() =~= old_cells);
            }
        }
    }

    /// Removes all values within the column.
    pub fn remove_all(&mut self)
        ensures
            final(self).label_view() == old(self).label_view(),
            final(self).kind_view() == old(self).kind_view(),
            final(self).cells() == Seq::<CellValue>::empty(),
    {
        match self {
            Column::I32(a) => a.remove_all(),
            Column::U32(a) => a.remove_all(),
            Column::ISize(a) => a.remove_all(),
            Column::USize(a) => a.remove_all(),
            Column::Bool(a) => a.remove_all(),
            Column::F32(a) => a.remove_all(),
            Column::F64(a) => a.remove_all(),
            Column::Text(a) => a.remove_all(),
        }
        assert(self.cells() =~= Seq::<CellValue>::empty());
    }

    /// Inserts `value`, read as the column's type, at `idx`, shifting all
    /// values after it down. A null or unreadable value inserts an empty cell.
    /// Nothing happens if `idx` is past the end.
    pub fn insert(&mut self, value: &Reading, idx: usize, null: &str)
        ensures
            final(self).label_view() == old(self).label_view(),
            final(self).kind_view() == old(self).kind_view(),
            final(self).cells() == (if idx <= old(self).cells().len() {
                old(self).cells().insert(
                    idx as int,
                    spec_read_cell_lossy(old(self).kind_view(), *value, null@),
                )
            } else {
                old(self).cells()
            }),
    {
        let ghost old_cells = self.cells();
        match self {
            Column::I32(a) => a.insert(value.text.as_str(), idx, null),
            Column::U32(a) => a.insert(value.text.as_str(), idx, null),
            Column::ISize(a) => a.insert(value.text.as_str(), idx, null),
            Column::USize(a) => a.insert(value.text.as_str(), idx, null),
            Column::Bool(a) => a.insert(value.text.as_str(), idx, null),
            Column::F32(a) => a.insert(value, idx, null),
            Column::F64(a) => a.insert(value, idx, null),
            Column::Text(a) => a.insert(value.text.as_str(), idx, null),
        }
        proof {
            if idx <= old_cells.len() {
                assert(self.cells() =~= old_cells.insert(
                    idx as int,
                    spec_read_cell_lossy(old(self).kind_view(), *value, null@),
                ));
            } else {
                assert(self.cells() =~= old_cells);
            }
        }
    }

    /// Overwrites the value at `idx` with `value` read as the column's type.
    ///
    /// Returns false, changing nothing, if `value` is neither null nor of the
    /// column's type. An out of range `idx` changes nothing.
    pub fn set_position(&mut self, value: &Reading, idx: usize, null: &str) -> (r: bool)
        ensures
            r == spec_read_cell(old(self).kind_view(), *value, null@) is Ok,
            !r ==> *final(self) == *old(self),
            final(self).label_view() == old(self).label_view(),
            final(self).kind_view() == old(self).kind_view(),
            final(self).cells() == (match spec_read_cell(old(self).kind_view(), *value, null@) {
                Ok(v) => if idx < old(self).cells().len() {
                    old(self).cells().update(idx as int, v)
                } else {
                    old(self).cells()
                },
                Err(_) => old(self).cells(),
            }),
    {
        let ghost old_cells = self.cells();
        let r = match self {
            Column::I32(a) => a.set_position(value.text.as_str(), idx, null),
            Column::U32(a) => a.set_position(value.text.as_str(), idx, null),
            Column::ISize(a) => a.set_position(value.text.as_str(), idx, null),
            Column::USize(a) => a.set_position(value.text.as_str(), idx, null),
            Column::Bool(a) => a.set_position(value.text.as_str(), idx, null),
            Column::F32(a) => a.set_position(value, idx, null),
            Column::F64(a) => a.set_position(value, idx, null),
            Column::Text(a) => a.set_position(value.text.as_str(), idx, null),
        };
        proof {
            match spec_read_cell(old(self).kind_view(), *value, null@) {
                Ok(v) => if idx < old_cells.len() {
                    assert(self.cells() =~= old_cells.update(idx as int, v));
                } else {
                    assert(self.cells() =~= old_cells);
                },
                Err(_) => {
                    assert(self.cells() =~= old_cells);
                },
            }
        }
        r
    }

    /// Swaps the value at `x` with that at `y`. No swap occurs if either is out of range.
    pub fn swap(&mut self, x: usize, y: usize)
        ensures
            final(self).label_view() == old(self).label_view(),
            final(self).kind_view() == old(self).kind_view(),
            final(self).cells() == (if x < old(self).cells().len() && y < old(self).cells().len() {
                swap_seq(old(self).cells(), x as int, y as int)
            } else {
                old(self).cells()
            }),
    {
        let ghost old_cells = self.cells();
        match self {
            Column::I32(a) => a.swap(x, y),
            Column::U32(a) => a.swap(x, y),
            Column::ISize(a) => a.swap(x, y),
            Column::USize(a) => a.swap(x, y),
            Column::Bool(a) => a.swap(x, y),
            Column::F32(a) => a.swap(x, y),
            Column::F64(a) => a.swap(x, y),
            Column::Text(a) => a.swap(x, y),
        }
        proof {
            if x < old_cells.len() && y < old_cells.len() {
                assert(self.cells() =~= swap_seq(old_cells, x as int, y as int));
            } else {
                assert(self.cells() =~= old_cells);
            }
        }
    }

    /// Discards the value at `idx` leaving an empty cell in its place.
    pub fn clear(&mut self, idx: usize)
        ensures
            final(self).label_view() == old(self).label_view(),
            final(self).kind_view() == old(self).kind_view(),
            final(self).cells() == (if idx < old(self).cells().len() {
                old(self).cells().update(idx as int, CellValue::Null)
            } else {
                old(self).cells()
            }),
    {
        let ghost old_cells = self.cells();
        match self {
            Column::I32(a) => a.clear(idx),
            Column::U32(a) => a.clear(idx),
            Column::ISize(a) => a.clear(idx),
            Column::USize(a) => a.clear(idx),
            Column::Bool(a) => a.clear(idx),
            Column::F32(a) => a.clear(idx),
            Column::F64(a) => a.clear(idx),
            Column::Text(a) => a.clear(idx),
        }
        proof {
            if idx < old_cells.len() {
                assert(self.cells() =~= old_cells.update(idx as int, CellValue::Null));
            } else {
                assert(self.cells() =~= old_cells);
            }
        }
    }

    /// Replaces all values within the column with empty cells.
    pub fn clear_all(&mut self)
        ensures
            final(self).label_view() == old(self).label_view(),
            final(self).kind_view() == old(self).kind_view(),
            final(self).cells() == Seq::new(old(self).cells().len(), |i: int| CellValue::Null),
    {
        let ghost old_cells = self.cells();
        match self {
            Column::I32(a) => a.clear_all(),
            Column::U32(a) => a.clear_all(),
            Column::ISize(a) => a.clear_all(),
            Column::USize(a) => a.clear_all(),
            Column::Bool(a) => a.clear_all(),
            Column::F32(a) => a.clear_all(),
            Column::F64(a) => a.clear_all(),
            Column::Text(a) => a.clear_all(),
        }
        assert(self.cells() =~= Seq::new(old_cells.len(), |i: int| CellValue::Null));
    }

    /// Applies the provided swap indices to the column.
    pub fn apply_index_swap(&mut self, indices: &[usize])
        requires
            forall|i: int| 0 <= i < indices@.len() ==> #[trigger] indices@[i] < old(self).cells().len(),
            indices@.len() <= old(self).cells().len(),
        ensures
            final(self).label_view() == old(self).label_view(),
            final(self).kind_view() == old(self).kind_view(),
            final(self).cells() == swaps_applied(old(self).cells(), indices@),
    {
        let ghost old_cells = self.cells();
        match self {
            Column::I32(a) => {
                a.apply_index_swap(indices);
                proof {
                    lemma_swaps_map(old(self)->I32_0.cells_view(), indices@, |c: Option<i32>| opt_value(c, |x: i32| CellValue::I32(x)));
                }
            },
            Column::U32(a) => {
                a.apply_index_swap(indices);
                proof {
                    lemma_swaps_map(old(self)->U32_0.cells_view(), indices@, |c: Option<u32>| opt_value(c, |x: u32| CellValue::U32(x)));
                }
            },
            Column::ISize(a) => {
                a.apply_index_swap(indices);
                proof {
                    lemma_swaps_map(old(self)->ISize_0.cells_view(), indices@, |c: Option<isize>| opt_value(c, |x: isize| CellValue::ISize(x)));
                }
            },
            Column::USize(a) => {
                a.apply_index_swap(indices);
                proof {
                    lemma_swaps_map(old(self)->USize_0.cells_view(), indices@, |c: Option<usize>| opt_value(c, |x: usize| CellValue::USize(x)));
                }
            },
            Column::Bool(a) => {
                a.apply_index_swap(indices);
                proof {
                    lemma_swaps_map(old(self)->Bool_0.cells_view(), indices@, |c: Option<bool>| opt_value(c, |x: bool| CellValue::Bool(x)));
                }
            },
            Column::F32(a) => {
                a.apply_index_swap(indices);
                proof {
                    lemma_swaps_map(old(self)->F32_0.cells_view(), indices@, |c: Option<u32>| opt_value(c, |x: u32| CellValue::F32(x)));
                }
            },
            Column::F64(a) => {
                a.apply_index_swap(indices);
                proof {
                    lemma_swaps_map(old(self)->F64_0.cells_view(), indices@, |c: Option<u64>| opt_value(c, |x: u64| CellValue::F64(x)));
                }
            },
            Column::Text(a) => {
                a.apply_index_swap(indices);
                proof {
                    lemma_swaps_map(old(self)->Text_0.cells_view(), indices@, |c: Option<Seq<char>>| opt_value(c, |x: Seq<char>| CellValue::Text(x)));
                }
            },
        }
    }

    /// A copy of the column.
    pub fn duplicate(&self) -> (r: Self)
        ensures
            r.label_view() == self.label_view(),
            r.kind_view() == self.kind_view(),
            r.cells() == self.cells(),
    {
        match self {
            Column::I32(a) => Column::I32(a.duplicate()),
            Column::U32(a) => Column::U32(a.duplicate()),
            Column::ISize(a) => Column::ISize(a.duplicate()),
            Column::USize(a) => Column::USize(a.duplicate()),
            Column::Bool(a) => Column::Bool(a.duplicate()),
            Column::F32(a) => Column::F32(a.duplicate()),
            Column::F64(a) => Column::F64(a.duplicate()),
            Column::Text(a) => Column::Text(a.duplicate()),
        }
    }
}

/// Exchanging elements commutes with mapping them.
pub proof fn lemma_swaps_map<A, B>(s: Seq<A>, indices: Seq<usize>, f: spec_fn(A) -> B)
    requires
        forall|i: int| 0 <= i < indices.len() ==> #[trigger] indices[i] < s.len(),
        indices.len() <= s.len(),
    ensures
        swaps_applied(s, indices).map_values(f) == swaps_applied(s.map_values(f), indices),
        swaps_applied(s, indices).len() == s.len(),
    decreases indices.len(),
{
    if indices.len() > 0 {
        let d = indices.drop_last();
        assert forall|i: int| 0 <= i < d.len() implies #[trigger] d[i] < s.len() by {
            assert(d[i] == indices[i]);
        }
        lemma_swaps_map(s, d, f);
        let t = swaps_applied(s, d);
        assert(indices[indices.len() - 1] < s.len());
        assert(swap_seq(t, indices.len() - 1, indices.last() as int).map_values(f) =~= swap_seq(
            t.map_values(f),
            indices.len() - 1,
            indices.last() as int,
        ));
    }
}

} // verus!
