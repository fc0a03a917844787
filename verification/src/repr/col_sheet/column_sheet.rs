use vstd::prelude::*;

use super::super::sheet::utils::TypesStrategy;
use super::building::{create_columns, is_parsed_column, label_of, present, strategy_at, ColumnStrategy};
use super::column::{spec_read_cell, spec_read_cell_lossy, CellRef, CellValue, Column};
use super::converting::{converted, convertible};
use super::sorting::{
    ident, index_sort_swap, is_perm, key_of, lemma_cells_fit_kind, lemma_same_kind_orderly,
    lemma_swaps_follow_order, orderly, permuted, sort_indices, sorted_stably, swap_plan,
};
use super::utils::{lossless, swap_seq, swaps_applied, ColumnHeader, DataType, Reading};

verus! {

/// The ways an operation on a [`ColumnSheet`] can fail.
#[derive(Debug)]
pub enum Error {
    /// The delimited text could not be read; the reader's message.
    CSV(String),
    InvalidColumn(usize),
    InvalidRow(usize),
    InvalidPrimary(usize),
    InvalidColumnHeight { own: usize, other: usize },
    InvalidRowWidth { own: usize, other: usize },
    InvalidInsertion(usize),
    InvalidCellInput { col: usize, row: usize },
    InvalidColConversion { col: usize, from: DataType, to: DataType },
}

/// A sheet of data held column by column.
pub struct ColumnSheet {
    /// The columns of the sheet.
    columns: Vec<Column>,
    /// The primary column of the sheet; none for a sheet without columns.
    primary: Option<usize>,
    /// The number of cells in a column.
    height: usize,
    /// The string which should be considered null.
    null_string: String,
}

/// The two columns have the same label and type.
pub open spec fn same_header(a: Column, b: Column) -> bool {
    a.label_view() == b.label_view() && a.kind_view() == b.kind_view()
}

/// The two columns hold the same things.
pub open spec fn same_column(a: Column, b: Column) -> bool {
    same_header(a, b) && a.cells() == b.cells()
}

impl ColumnSheet {
    /// The columns of the sheet, left to right.
    pub closed spec fn cols(&self) -> Seq<Column> {
        self.columns@
    }

    /// The index of the primary column, if any.
    pub closed spec fn primary_col(&self) -> Option<usize> {
        self.primary
    }

    /// The number of rows of the sheet.
    pub closed spec fn rows(&self) -> nat {
        self.height as nat
    }

    /// The text read as an empty cell.
    pub closed spec fn null_text(&self) -> Seq<char> {
        self.null_string@
    }

    /// The two sheets hold the same columns, primary column, rows and null text.
    pub open spec fn same_sheet(&self, other: Self) -> bool {
        &&& self.cols() == other.cols()
        &&& self.primary_col() == other.primary_col()
        &&& self.rows() == other.rows()
        &&& self.null_text() == other.null_text()
    }

    /// Every column holds exactly as many cells as the sheet has rows.
    pub open spec fn uniform(&self) -> bool {
        forall|c: int| 0 <= c < self.cols().len() ==> #[trigger] self.cols()[c].cells().len() == self.rows()
    }

    /// The sheet is `prev` with the columns at `x` and `y` swapped; the
    /// primary column follows its column.
    pub open spec fn cols_swapped(&self, prev: Self, x: usize, y: usize) -> bool {
        &&& self.cols() == swap_seq(prev.cols(), x as int, y as int)
        &&& self.primary_col() == (match prev.primary_col() {
            None => None,
            Some(p) => if x == p {
                Some(y)
            } else if y == p {
                Some(x)
            } else {
                Some(p)
            },
        })
        &&& self.rows() == prev.rows()
        &&& self.null_text() == prev.null_text()
    }

    /// The sheet is `prev` with the cells of rows `x` and `y` swapped in
    /// every column that has both.
    pub open spec fn rows_swapped(&self, prev: Self, x: usize, y: usize) -> bool {
        &&& self.cols().len() == prev.cols().len()
        &&& forall|c: int|
            0 <= c < prev.cols().len() ==> same_header(#[trigger] self.cols()[c], prev.cols()[c])
                && self.cols()[c].cells() == (if x < prev.cols()[c].cells().len() && y < prev.cols()[c].cells().len() {
                swap_seq(prev.cols()[c].cells(), x as int, y as int)
            } else {
                prev.cols()[c].cells()
            })
        &&& self.rows() == prev.rows()
        &&& self.primary_col() == prev.primary_col()
        &&& self.null_text() == prev.null_text()
    }

    /// The sheet is `prev` with the cell at `col`, `row` holding what `value`
    /// reads as in that column.
    pub open spec fn cell_written(&self, prev: Self, value: Reading, col: usize, row: usize) -> bool {
        &&& self.cols() == prev.cols().update(col as int, self.cols()[col as int])
        &&& self.cols()[col as int].kind_view() == prev.cols()[col as int].kind_view()
        &&& self.cols()[col as int].label_view() == prev.cols()[col as int].label_view()
        &&& self.cols()[col as int].cells() == (if row < prev.cols()[col as int].cells().len() {
            prev.cols()[col as int].cells().update(
                row as int,
                spec_read_cell(prev.cols()[col as int].kind_view(), value, prev.null_text())->Ok_0,
            )
        } else {
            prev.cols()[col as int].cells()
        })
    }

    /// The sheet holds the same columns, cell for cell, as `other`, and the
    /// same primary column, height and null text.
    pub open spec fn equivalent(&self, other: Self) -> bool {
        &&& self.cols().len() == other.cols().len()
        &&& forall|c: int| 0 <= c < self.cols().len() ==> same_column(#[trigger] self.cols()[c], other.cols()[c])
        &&& self.primary_col() == other.primary_col()
        &&& self.rows() == other.rows()
        &&& self.null_text() == other.null_text()
    }

    /// The sheet is `prev` with the column at `idx` converted to type `to`.
    pub open spec fn col_converted<F: Fn(u32) -> String, P: Fn(&String) -> Option<u32>, Q: Fn(&String) -> Option<u64>>(
        &self,
        prev: Self,
        idx: usize,
        to: DataType,
        float_text: F,
        read_f32: P,
        read_f64: Q,
    ) -> bool {
        &&& self.cols().len() == prev.cols().len()
        &&& forall|c: int| 0 <= c < prev.cols().len() && c != idx ==> #[trigger] self.cols()[c] == prev.cols()[c]
        &&& converted(self.cols()[idx as int], prev.cols()[idx as int], to, float_text, read_f32, read_f64)
        &&& self.primary_col() == prev.primary_col()
        &&& self.rows() == prev.rows()
        &&& self.null_text() == prev.null_text()
    }

    /// The primary column, when there is one, is a column of the sheet.
    pub open spec fn primary_in_range(&self) -> bool {
        self.primary_col() matches Some(p) ==> p < self.cols().len()
    }

    /// Assembles a sheet from its parts.
    pub fn from_columns(columns: Vec<Column>, primary: Option<usize>, height: usize, null_string: String) -> (r: Self)
        ensures
            r.cols() == columns@,
            r.primary_col() == primary,
            r.rows() == height,
            r.null_text() == null_string@,
    {
        ColumnSheet { columns, primary, height, null_string }
    }

    /// Returns a reference to the value within the cell at column `col`, row `row`.
    pub fn get_cell(&self, col: usize, row: usize) -> (r: Option<CellRef<'_>>)
        ensures
            r is Some <==> col < self.cols().len() && row < self.cols()[col as int].cells().len(),
            r matches Some(c) ==> c.value() == self.cols()[col as int].cells()[row as int],
    {
        if col < self.columns.len() {
            self.columns[col].data_ref(row)
        } else {
            None
        }
    }

    /// Overwrites the cell at `col`, `row` with `value` if it reads as a
    /// value of the column's type, or as null.
    pub fn set_cell(&mut self, value: &Reading, col: usize, row: usize) -> (r: Result<(), Error>)
        ensures
            old(self).uniform() ==> final(self).uniform(),
            col >= old(self).cols().len() ==> r == Err::<(), Error>(Error::InvalidColumn(col)),
            col < old(self).cols().len() && row >= old(self).rows() ==> r == Err::<(), Error>(
                Error::InvalidRow(row),
            ),
            col < old(self).cols().len() && row < old(self).rows() && spec_read_cell(
                old(self).cols()[col as int].kind_view(),
                *value,
                old(self).null_text(),
            ) is Err ==> r == Err::<(), Error>(Error::InvalidCellInput { col, row }),
            r is Err ==> final(self).same_sheet(*old(self)),
            r is Ok ==> col < old(self).cols().len() && row < old(self).rows(),
            r is Ok <==> col < old(self).cols().len() && row < old(self).rows() && spec_read_cell(
                old(self).cols()[col as int].kind_view(),
                *value,
                old(self).null_text(),
            ) is Ok,
            r is Ok ==> final(self).cell_written(*old(self), *value, col, row),
            final(self).primary_col() == old(self).primary_col(),
            final(self).rows() == old(self).rows(),
            final(self).null_text() == old(self).null_text(),
    {
        if col >= self.width() {
            return Err(Error::InvalidColumn(col));
        }
        if row >= self.height() {
            return Err(Error::InvalidRow(row));
        }
        let null = self.null_string.clone();
        let success = self.columns[col].set_position(value, row, null.as_str());
        if !success {
            proof {
                assert(self.columns@ =~= old(self).columns@);
            }
            return Err(Error::InvalidCellInput { col, row });
        }
        Ok(())
    }

    /// Returns the row at index `row` within the sheet, if any.
    pub fn get_row(&self, row: usize) -> (r: Option<Vec<CellRef<'_>>>)
        ensures
            r is Some <==> row < self.rows() && forall|c: int|
                0 <= c < self.cols().len() ==> row < #[trigger] self.cols()[c].cells().len(),
            r matches Some(v) ==> v@.len() == self.cols().len() && forall|c: int|
                0 <= c < v@.len() ==> #[trigger] v@[c].value() == self.cols()[c].cells()[row as int],
    {
        if row >= self.height {
            return None;
        }
        let mut output: Vec<CellRef<'_>> = Vec::new();
        let mut i: usize = 0;
        while i < self.columns.len()
            invariant
                i <= self.cols().len(),
                output@.len() == i,
                forall|c: int| 0 <= c < i ==> row < #[trigger] self.cols()[c].cells().len(),
                forall|c: int| 0 <= c < i ==> #[trigger] output@[c].value() == self.cols()[c].cells()[row as int],
            decreases self.cols().len() - i,
        {
            match self.columns[i].data_ref(row) {
                Some(data) => output.push(data),
                None => {
                    return None;
                },
            }
            i = i + 1;
        }
        Some(output)
    }

    /// Returns the headers of the sheet's columns.
    pub fn headers(&self) -> (r: Vec<ColumnHeader<'_>>)
        ensures
            r@.len() == self.cols().len(),
            forall|c: int|
                0 <= c < r@.len() ==> (match #[trigger] r@[c].header {
                    Some(s) => self.cols()[c].label_view() == Some(s@),
                    None => self.cols()[c].label_view() is None,
                }) && r@[c].kind == self.cols()[c].kind_view(),
    {
        let mut out: Vec<ColumnHeader<'_>> = Vec::new();
        let mut i: usize = 0;
        while i < self.columns.len()
            invariant
                i <= self.cols().len(),
                out@.len() == i,
                forall|c: int|
                    0 <= c < i ==> (match #[trigger] out@[c].header {
                        Some(s) => self.cols()[c].label_view() == Some(s@),
                        None => self.cols()[c].label_view() is None,
                    }) && out@[c].kind == self.cols()[c].kind_view(),
            decreases self.cols().len() - i,
        {
            let column = &self.columns[i];
            out.push(ColumnHeader { header: column.label(), kind: column.kind() });
            i = i + 1;
        }
        out
    }

    /// Sets the header of the column at `col` to `header`.
    pub fn set_col_header(&mut self, col: usize, header: String) -> (r: Result<(), Error>)
        ensures
            old(self).uniform() ==> final(self).uniform(),
            r is Ok <==> col < old(self).cols().len(),
            r is Err ==> r == Err::<(), Error>(Error::InvalidColumn(col)) && final(self).same_sheet(*old(self)),
            r is Ok ==> final(self).cols().len() == old(self).cols().len() && (forall|c: int|
                0 <= c < old(self).cols().len() && c != col ==> #[trigger] final(self).cols()[c]
                    == old(self).cols()[c]) && final(self).cols()[col as int].label_view() == Some(
                header@,
            ) && final(self).cols()[col as int].kind_view() == old(self).cols()[col as int].kind_view()
                && final(self).cols()[col as int].cells() == old(self).cols()[col as int].cells(),
            final(self).primary_col() == old(self).primary_col(),
            final(self).rows() == old(self).rows(),
            final(self).null_text() == old(self).null_text(),
    {
        if col >= self.width() {
            return Err(Error::InvalidColumn(col));
        }
        self.columns[col].set_header(header);
        Ok(())
    }

    /// Returns the width of the sheet: its number of columns.
    pub fn width(&self) -> (r: usize)
        ensures
            r == self.cols().len(),
    {
        self.columns.len()
    }

    /// Returns the height of the sheet: the number of cells in a column.
    pub fn height(&self) -> (r: usize)
        ensures
            r == self.rows(),
    {
        self.height
    }

    /// Sets the primary column of the sheet; an invalid `primary` changes nothing.
    pub fn set_primary(&mut self, primary: usize) -> (r: Result<(), Error>)
        ensures
            old(self).uniform() ==> final(self).uniform(),
            r is Ok <==> primary < old(self).cols().len(),
            r is Err ==> r == Err::<(), Error>(Error::InvalidPrimary(primary)) && final(self).same_sheet(*old(self)),
            r is Ok ==> final(self).primary_col() == Some(primary),
            final(self).cols() == old(self).cols(),
            final(self).rows() == old(self).rows(),
            final(self).null_text() == old(self).null_text(),
    {
        if primary >= self.width() {
            return Err(Error::InvalidPrimary(primary));
        }
        self.primary = Some(primary);
        Ok(())
    }

    /// Returns the index of the primary column, if any.
    pub fn get_primary(&self) -> (r: Option<usize>)
        ensures
            r == self.primary_col(),
    {
        self.primary
    }

    /// Returns the string considered as a null input.
    pub fn get_null_string(&self) -> (r: &str)
        ensures
            r@ == self.null_text(),
    {
        self.null_string.as_str()
    }

    /// Sets the primary column of the sheet to none.
    pub fn clear_primary(&mut self)
        ensures
            old(self).uniform() ==> final(self).uniform(),
            final(self).primary_col() is None,
            final(self).cols() == old(self).cols(),
            final(self).rows() == old(self).rows(),
            final(self).null_text() == old(self).null_text(),
    {
        self.primary = None;
        assert(self.cols() == old(self).cols());
    }

    /// Returns a shared reference to the column at `idx`, if any.
    pub fn get_col(&self, idx: usize) -> (r: Option<&Column>)
        ensures
            r is Some <==> idx < self.cols().len(),
            r matches Some(c) ==> *c == self.cols()[idx as int],
    {
        if idx < self.columns.len() {
            Some(&self.columns[idx])
        } else {
            None
        }
    }

    /// Returns true if the sheet has no rows; it may still have columns.
    pub fn is_empty(&self) -> (r: bool)
        ensures
            r == (self.rows() == 0),
    {
        self.height == 0
    }

    /// Appends a column to the right of the sheet.
    ///
    /// Returns `Err` if `column` has a different height than the sheet.
    pub fn push_col(&mut self, column: Column) -> (r: Result<(), Error>)
        requires
            old(self).primary_col() is Some || old(self).cols().len() == 0 || column.cells().len()
                != old(self).rows(),
            old(self).primary_col() != Some(usize::MAX),
        ensures
            old(self).uniform() && (old(self).cols().len() > 0 || column.cells().len() == old(self).rows()) ==> final(self).uniform(),
            final(self).inserted_col(*old(self), column, old(self).cols().len() as int, r),
    {
        let w = self.width();
        self.insert_col(column, w)
    }

    /// What inserting `column` at `idx` into `prev` gives, by its result `r`.
    pub open spec fn inserted_col(&self, prev: Self, column: Column, idx: int, r: Result<(), Error>) -> bool {
        let own = prev.rows();
        let other = column.cells().len();
        &&& (other != own && prev.cols().len() != 0) ==> r == Err::<(), Error>(
            Error::InvalidColumnHeight { own: own as usize, other: other as usize },
        )
        &&& !(other != own && prev.cols().len() != 0) && idx > prev.cols().len() ==> r == Err::<
            (),
            Error,
        >(Error::InvalidInsertion(idx as usize))
        &&& r is Ok <==> !(other != own && prev.cols().len() != 0) && idx <= prev.cols().len()
        &&& r is Err ==> self.same_sheet(prev)
        &&& r is Ok ==> {
            &&& self.cols().len() == prev.cols().len() + 1
            &&& forall|c: int| 0 <= c < idx ==> #[trigger] self.cols()[c] == prev.cols()[c]
            &&& forall|c: int| idx < c < self.cols().len() ==> #[trigger] self.cols()[c] == prev.cols()[c - 1]
            &&& same_column(self.cols()[idx], column)
            &&& self.primary_col() == (if prev.cols().len() == 0 {
                Some(0usize)
            } else if idx <= prev.primary_col()->Some_0 {
                Some((prev.primary_col()->Some_0 + 1) as usize)
            } else {
                prev.primary_col()
            })
            &&& self.rows() == (if prev.cols().len() == 0 {
                other
            } else {
                own
            })
            &&& self.null_text() == prev.null_text()
        }
    }

    /// Inserts a column at `idx`, shifting the columns after it right. A
    /// sheet without columns takes the column's height.
    ///
    /// Returns `Err` if `idx` is past the last column, or if `column` has a
    /// different height than a sheet that has columns.
    pub fn insert_col(&mut self, column: Column, idx: usize) -> (r: Result<(), Error>)
        requires
            old(self).primary_col() is Some || old(self).cols().len() == 0 || idx > old(self).cols().len()
                || column.cells().len() != old(self).rows(),
            old(self).primary_col() != Some(usize::MAX),
        ensures
            old(self).uniform() ==> final(self).uniform(),
            final(self).inserted_col(*old(self), column, idx as int, r),
    {
        let other = column.len();
        let own = self.height;
        if other != own && !self.true_is_empty() {
            return Err(Error::InvalidColumnHeight { own, other });
        }
        if idx > self.width() {
            return Err(Error::InvalidInsertion(idx));
        }
        self.columns.insert(idx, column);
        if self.width() == 1 {
            self.primary = Some(0);
            self.height = other;
            return Ok(());
        }
        let primary = self.primary.unwrap();
        if idx <= primary {
            self.primary = Some(primary + 1);
        }
        Ok(())
    }

    /// Duplicates the column at `idx`; the copy is inserted at `idx`, shifting
    /// the columns from `idx` on right.
    pub fn duplicate_col(&mut self, idx: usize) -> (r: Result<(), Error>)
        requires
            old(self).primary_col() is Some || idx >= old(self).cols().len() || old(self).cols()[idx as int].cells().len()
                != old(self).rows(),
            old(self).primary_col() != Some(usize::MAX),
        ensures
            old(self).uniform() ==> final(self).uniform(),
            idx >= old(self).cols().len() ==> r == Err::<(), Error>(Error::InvalidColumn(idx))
                && final(self).same_sheet(*old(self)),
            idx < old(self).cols().len() ==> final(self).inserted_col(
                *old(self),
                old(self).cols()[idx as int],
                idx as int,
                r,
            ),
    {
        if idx >= self.width() {
            return Err(Error::InvalidColumn(idx));
        }
        let copy = self.columns[idx].duplicate();
        self.insert_col(copy, idx)
    }

    /// Converts the column at `idx` to a column of type `to`, as
    /// [`Column::convert_col`] does.
    ///
    /// Unlike [`ColumnSheet::convert_col`], this does not check that the
    /// conversion loses nothing.
    pub fn convert_col_unchecked<F: Fn(u32) -> String, P: Fn(&String) -> Option<u32>, Q: Fn(&String) -> Option<u64>>(
        &mut self,
        idx: usize,
        to: DataType,
        float_text: &F,
        read_f32: &P,
        read_f64: &Q,
    ) -> (r: Result<(), Error>)
        requires
            idx < old(self).cols().len() ==> convertible(old(self).cols()[idx as int].kind_view()),
            forall|b: u32| call_requires(*float_text, (b,)),
            forall|s: &String| call_requires(*read_f32, (s,)),
            forall|s: &String| call_requires(*read_f64, (s,)),
        ensures
            old(self).uniform() ==> final(self).uniform(),
            idx >= old(self).cols().len() ==> r == Err::<(), Error>(Error::InvalidColumn(idx))
                && final(self).same_sheet(*old(self)),
            idx < old(self).cols().len() ==> r is Ok && final(self).col_converted(
                *old(self),
                idx,
                to,
                *float_text,
                *read_f32,
                *read_f64,
            ),
    {
        if idx >= self.width() {
            return Err(Error::InvalidColumn(idx));
        }
        let new = self.columns[idx].convert_col(to, float_text, read_f32, read_f64);
        self.columns.push(new);
        self.columns.swap_remove(idx);
        proof {
            assert forall|c: int| 0 <= c < self.cols().len() && old(self).uniform() implies #[trigger] self.cols()[c].cells().len() == self.rows() by {
                if c != idx {
                    assert(self.cols()[c] == old(self).cols()[c]);
                }
            }
        }
        Ok(())
    }

    /// Converts the column at `idx` to a column of type `to`, as
    /// [`Column::convert_col`] does.
    ///
    /// Returns an error if the column's type does not convert to `to`
    /// without loss.
    pub fn convert_col<F: Fn(u32) -> String, P: Fn(&String) -> Option<u32>, Q: Fn(&String) -> Option<u64>>(
        &mut self,
        idx: usize,
        to: DataType,
        float_text: &F,
        read_f32: &P,
        read_f64: &Q,
    ) -> (r: Result<(), Error>)
        requires
            idx < old(self).cols().len() && lossless(old(self).cols()[idx as int].kind_view(), to)
                ==> convertible(old(self).cols()[idx as int].kind_view()),
            forall|b: u32| call_requires(*float_text, (b,)),
            forall|s: &String| call_requires(*read_f32, (s,)),
            forall|s: &String| call_requires(*read_f64, (s,)),
        ensures
            old(self).uniform() ==> final(self).uniform(),
            idx >= old(self).cols().len() ==> r == Err::<(), Error>(Error::InvalidColumn(idx))
                && final(self).same_sheet(*old(self)),
            idx < old(self).cols().len() && !lossless(old(self).cols()[idx as int].kind_view(), to) ==> r
                == Err::<(), Error>(
                Error::InvalidColConversion { col: idx, from: old(self).cols()[idx as int].kind_view(), to },
            ) && final(self).same_sheet(*old(self)),
            idx < old(self).cols().len() && lossless(old(self).cols()[idx as int].kind_view(), to) ==> r is Ok
                && final(self).col_converted(*old(self), idx, to, *float_text, *read_f32, *read_f64),
    {
        if idx >= self.width() {
            return Err(Error::InvalidColumn(idx));
        }
        let from = self.columns[idx].kind();
        if DataType::can_convert(from, to) {
            self.convert_col_unchecked(idx, to, float_text, read_f32, read_f64)
        } else {
            Err(Error::InvalidColConversion { col: idx, from, to })
        }
    }

    /// The columns of the sheet, left to right.
    pub fn iter(&self) -> (r: core::slice::Iter<'_, Column>)
        ensures
            vstd::std_specs::iter::IteratorSpec::remaining(&r).unref() == self.cols(),
    {
        broadcast use vstd::std_specs::slice::axiom_spec_slice_iter;
        self.columns.as_slice().iter()
    }

    /// The columns of the sheet, to change in place, left to right.
    pub fn iter_mut(&mut self) -> (r: &mut [Column])
        ensures
            r@ == old(self).cols(),
            final(self).cols() == final(r)@,
            final(self).primary_col() == old(self).primary_col(),
            final(self).rows() == old(self).rows(),
            final(self).null_text() == old(self).null_text(),
    {
        self.columns.as_mut_slice()
    }

    /// The column at `idx`, to change in place, if there is one there.
    pub fn get_col_mut(&mut self, idx: usize) -> (r: Option<&mut Column>)
        ensures
            idx >= old(self).cols().len() ==> r is None && final(self).same_sheet(*old(self)),
            idx < old(self).cols().len() ==> r is Some && *r->Some_0 == old(self).cols()[idx as int]
                && final(self).cols() == old(self).cols().update(idx as int, *final(r->Some_0)),
            final(self).primary_col() == old(self).primary_col(),
            final(self).rows() == old(self).rows(),
            final(self).null_text() == old(self).null_text(),
    {
        if idx >= self.columns.len() {
            return None;
        }
        Some(&mut self.columns[idx])
    }

    /// Removes and returns the last column.
    pub fn pop_col(&mut self) -> (r: Result<Column, Error>)
        ensures
            old(self).uniform() ==> final(self).uniform(),
            old(self).cols().len() == 0 ==> r == Err::<Column, Error>(Error::InvalidColumn(0))
                && final(self).same_sheet(*old(self)),
            old(self).cols().len() > 0 ==> final(self).removed_col(*old(self), old(self).cols().len() - 1, r),
    {
        if self.width() == 0 {
            return Err(Error::InvalidColumn(0));
        }
        let last = self.width() - 1;
        self.remove_col(last)
    }

    /// What removing the column at `idx` from `prev` gives, by its result `r`.
    pub open spec fn removed_col(&self, prev: Self, idx: int, r: Result<Column, Error>) -> bool {
        &&& idx >= prev.cols().len() ==> r == Err::<Column, Error>(Error::InvalidColumn(idx as usize))
            && self.same_sheet(prev)
        &&& idx < prev.cols().len() ==> {
            &&& r == Ok::<Column, Error>(prev.cols()[idx])
            &&& self.cols() == prev.cols().remove(idx)
            &&& self.primary_col() == (match prev.primary_col() {
                None => None,
                Some(p) => if prev.cols().len() == 1 {
                    None
                } else if idx <= p && p != 0 {
                    Some((p - 1) as usize)
                } else {
                    Some(p)
                },
            })
            &&& self.rows() == prev.rows()
            &&& self.null_text() == prev.null_text()
        }
    }

    /// Removes and returns the column at `idx`, shifting the columns after it left.
    pub fn remove_col(&mut self, idx: usize) -> (r: Result<Column, Error>)
        ensures
            old(self).uniform() ==> final(self).uniform(),
            final(self).removed_col(*old(self), idx as int, r),
    {
        if idx >= self.width() {
            return Err(Error::InvalidColumn(idx));
        }
        let removed = self.columns.remove(idx);
        let primary = match self.primary {
            Some(p) => p,
            None => {
                return Ok(removed);
            },
        };
        if self.true_is_empty() {
            self.primary = None;
        } else if idx <= primary && primary != 0 {
            self.primary = Some(primary - 1);
        }
        Ok(removed)
    }

    /// Removes all columns.
    pub fn remove_all_cols(&mut self)
        ensures
            old(self).uniform() ==> final(self).uniform(),
            final(self).cols().len() == 0,
            final(self).rows() == 0,
            final(self).primary_col() is None,
            final(self).null_text() == old(self).null_text(),
    {
        self.columns.clear();
        self.height = 0;
        self.primary = None;
    }

    /// Removes the last row.
    pub fn pop_row(&mut self) -> (r: Result<(), Error>)
        ensures
            old(self).uniform() ==> final(self).uniform(),
            old(self).rows() == 0 ==> r == Err::<(), Error>(Error::InvalidRow(0)) && final(self).same_sheet(
                *old(self),
            ),
            old(self).rows() > 0 ==> final(self).removed_row(*old(self), old(self).rows() - 1, r),
    {
        if self.is_empty() {
            return Err(Error::InvalidRow(0));
        }
        let last = self.height - 1;
        self.remove_row(last)
    }

    /// What removing row `idx` from `prev` gives, by its result `r`.
    pub open spec fn removed_row(&self, prev: Self, idx: int, r: Result<(), Error>) -> bool {
        &&& idx >= prev.rows() ==> r == Err::<(), Error>(Error::InvalidRow(idx as usize)) && self.same_sheet(prev)
        &&& idx < prev.rows() ==> {
            &&& r is Ok
            &&& self.cols().len() == prev.cols().len()
            &&& forall|c: int|
                0 <= c < prev.cols().len() ==> same_header(#[trigger] self.cols()[c], prev.cols()[c])
                    && self.cols()[c].cells() == (if idx < prev.cols()[c].cells().len() {
                    prev.cols()[c].cells().remove(idx)
                } else {
                    prev.cols()[c].cells()
                })
            &&& self.rows() == prev.rows() - 1
            &&& self.primary_col() == prev.primary_col()
            &&& self.null_text() == prev.null_text()
        }
    }

    /// Removes row `idx`, shifting the rows after it up.
    pub fn remove_row(&mut self, idx: usize) -> (r: Result<(), Error>)
        ensures
            old(self).uniform() ==> final(self).uniform(),
            final(self).removed_row(*old(self), idx as int, r),
    {
        if idx >= self.height {
            return Err(Error::InvalidRow(idx));
        }
        let mut i: usize = 0;
        while i < self.columns.len()
            invariant
                self.cols().len() == old(self).cols().len(),
                i <= self.cols().len(),
                forall|c: int|
                    0 <= c < i ==> same_header(#[trigger] self.cols()[c], old(self).cols()[c])
                        && self.cols()[c].cells() == (if idx < old(self).cols()[c].cells().len() {
                        old(self).cols()[c].cells().remove(idx as int)
                    } else {
                        old(self).cols()[c].cells()
                    }),
                forall|c: int| i <= c < self.cols().len() ==> #[trigger] self.cols()[c] == old(self).cols()[c],
                self.primary == old(self).primary,
                self.height == old(self).height,
                self.null_string == old(self).null_string,
            decreases self.cols().len() - i,
        {
            self.columns[i].remove(idx);
            i = i + 1;
        }
        self.height = self.height - 1;
        Ok(())
    }

    /// Removes every cell of the sheet; the columns stay, empty.
    pub fn remove_all_rows(&mut self)
        ensures
            old(self).uniform() ==> final(self).uniform(),
            final(self).cols().len() == old(self).cols().len(),
            forall|c: int|
                0 <= c < old(self).cols().len() ==> same_header(#[trigger] final(self).cols()[c], old(self).cols()[c])
                    && final(self).cols()[c].cells().len() == 0,
            final(self).rows() == 0,
            final(self).primary_col() == old(self).primary_col(),
            final(self).null_text() == old(self).null_text(),
    {
        let mut i: usize = 0;
        while i < self.columns.len()
            invariant
                self.cols().len() == old(self).cols().len(),
                i <= self.cols().len(),
                forall|c: int|
                    0 <= c < i ==> same_header(#[trigger] self.cols()[c], old(self).cols()[c])
                        && self.cols()[c].cells().len() == 0,
                forall|c: int| i <= c < self.cols().len() ==> #[trigger] self.cols()[c] == old(self).cols()[c],
                self.primary == old(self).primary,
                self.null_string == old(self).null_string,
            decreases self.cols().len() - i,
        {
            self.columns[i].remove_all();
            i = i + 1;
        }
        self.height = 0;
    }

    /// Swaps the columns at `x` and `y`; the primary column follows its column.
    pub fn swap_cols(&mut self, x: usize, y: usize) -> (r: Result<(), Error>)
        ensures
            old(self).uniform() ==> final(self).uniform(),
            x >= old(self).cols().len() ==> r == Err::<(), Error>(Error::InvalidColumn(x)),
            x < old(self).cols().len() && y >= old(self).cols().len() ==> r == Err::<(), Error>(
                Error::InvalidColumn(y),
            ),
            r is Ok <==> x < old(self).cols().len() && y < old(self).cols().len(),
            r is Err ==> final(self).same_sheet(*old(self)),
            r is Ok ==> final(self).cols_swapped(*old(self), x, y),
    {
        if x >= self.width() {
            return Err(Error::InvalidColumn(x));
        }
        if y >= self.width() {
            return Err(Error::InvalidColumn(y));
        }
        swap_columns(&mut self.columns, x, y);
        if let Some(primary) = self.primary {
            if x == primary {
                self.primary = Some(y);
            } else if y == primary {
                self.primary = Some(x);
            }
        }
        Ok(())
    }

    /// Swaps the values of row `x` with those of row `y`.
    pub fn swap_rows(&mut self, x: usize, y: usize) -> (r: Result<(), Error>)
        ensures
            old(self).uniform() ==> final(self).uniform(),
            x >= old(self).rows() ==> r == Err::<(), Error>(Error::InvalidRow(x)),
            x < old(self).rows() && y >= old(self).rows() ==> r == Err::<(), Error>(Error::InvalidRow(y)),
            r is Ok <==> x < old(self).rows() && y < old(self).rows(),
            r is Err ==> final(self).same_sheet(*old(self)),
            r is Ok ==> final(self).rows_swapped(*old(self), x, y),
    {
        let height = self.height;
        if x >= height {
            return Err(Error::InvalidRow(x));
        }
        if y >= height {
            return Err(Error::InvalidRow(y));
        }
        let mut i: usize = 0;
        while i < self.columns.len()
            invariant
                self.cols().len() == old(self).cols().len(),
                i <= self.cols().len(),
                forall|c: int|
                    0 <= c < i ==> same_header(#[trigger] self.cols()[c], old(self).cols()[c])
                        && self.cols()[c].cells() == (if x < old(self).cols()[c].cells().len() && y
                        < old(self).cols()[c].cells().len() {
                        swap_seq(old(self).cols()[c].cells(), x as int, y as int)
                    } else {
                        old(self).cols()[c].cells()
                    }),
                forall|c: int| i <= c < self.cols().len() ==> #[trigger] self.cols()[c] == old(self).cols()[c],
                self.primary == old(self).primary,
                self.height == old(self).height,
                self.null_string == old(self).null_string,
            decreases self.cols().len() - i,
        {
            self.columns[i].swap(x, y);
            i = i + 1;
        }
        Ok(())
    }

    /// Empties every cell of the column at `idx`.
    pub fn clear_col(&mut self, idx: usize) -> (r: Result<(), Error>)
        ensures
            old(self).uniform() ==> final(self).uniform(),
            r is Ok <==> idx < old(self).cols().len(),
            r is Err ==> r == Err::<(), Error>(Error::InvalidColumn(idx)) && final(self).same_sheet(*old(self)),
            r is Ok ==> final(self).cols() == old(self).cols().update(idx as int, final(self).cols()[idx as int])
                && same_header(final(self).cols()[idx as int], old(self).cols()[idx as int])
                && final(self).cols()[idx as int].cells() == Seq::new(
                old(self).cols()[idx as int].cells().len(),
                |i: int| CellValue::Null,
            ) && final(self).rows() == old(self).rows() && final(self).primary_col() == old(
                self,
            ).primary_col() && final(self).null_text() == old(self).null_text(),
    {
        if idx >= self.width() {
            return Err(Error::InvalidColumn(idx));
        }
        self.columns[idx].clear_all();
        Ok(())
    }

    /// Empties every cell of row `idx`.
    pub fn clear_row(&mut self, idx: usize) -> (r: Result<(), Error>)
        ensures
            old(self).uniform() ==> final(self).uniform(),
            r is Ok <==> idx < old(self).rows(),
            r is Err ==> r == Err::<(), Error>(Error::InvalidRow(idx)) && final(self).same_sheet(*old(self)),
            r is Ok ==> final(self).cols().len() == old(self).cols().len() && (forall|c: int|
                0 <= c < old(self).cols().len() ==> same_header(#[trigger] final(self).cols()[c], old(self).cols()[c])
                    && final(self).cols()[c].cells() == (if idx < old(self).cols()[c].cells().len() {
                    old(self).cols()[c].cells().update(idx as int, CellValue::Null)
                } else {
                    old(self).cols()[c].cells()
                })) && final(self).rows() == old(self).rows() && final(self).primary_col() == old(
                self,
            ).primary_col() && final(self).null_text() == old(self).null_text(),
    {
        if idx >= self.height() {
            return Err(Error::InvalidRow(idx));
        }
        let mut i: usize = 0;
        while i < self.columns.len()
            invariant
                self.cols().len() == old(self).cols().len(),
                i <= self.cols().len(),
                forall|c: int|
                    0 <= c < i ==> same_header(#[trigger] self.cols()[c], old(self).cols()[c])
                        && self.cols()[c].cells() == (if idx < old(self).cols()[c].cells().len() {
                        old(self).cols()[c].cells().update(idx as int, CellValue::Null)
                    } else {
                        old(self).cols()[c].cells()
                    }),
                forall|c: int| i <= c < self.cols().len() ==> #[trigger] self.cols()[c] == old(self).cols()[c],
                self.primary == old(self).primary,
                self.height == old(self).height,
                self.null_string == old(self).null_string,
            decreases self.cols().len() - i,
        {
            self.columns[i].clear(idx);
            i = i + 1;
        }
        Ok(())
    }

    /// Empties the cell of column `col` at row `row`.
    pub fn clear_cell(&mut self, col: usize, row: usize) -> (r: Result<(), Error>)
        ensures
            old(self).uniform() ==> final(self).uniform(),
            col >= old(self).cols().len() ==> r == Err::<(), Error>(Error::InvalidColumn(col)),
            col < old(self).cols().len() && row >= old(self).rows() ==> r == Err::<(), Error>(
                Error::InvalidRow(row),
            ),
            r is Ok <==> col < old(self).cols().len() && row < old(self).rows(),
            r is Err ==> final(self).same_sheet(*old(self)),
            r is Ok ==> final(self).cols() == old(self).cols().update(col as int, final(self).cols()[col as int])
                && same_header(final(self).cols()[col as int], old(self).cols()[col as int])
                && final(self).cols()[col as int].cells() == (if row < old(self).cols()[col as int].cells().len() {
                old(self).cols()[col as int].cells().update(row as int, CellValue::Null)
            } else {
                old(self).cols()[col as int].cells()
            }) && final(self).rows() == old(self).rows() && final(self).primary_col() == old(
                self,
            ).primary_col() && final(self).null_text() == old(self).null_text(),
    {
        if col >= self.width() {
            return Err(Error::InvalidColumn(col));
        }
        if row >= self.height() {
            return Err(Error::InvalidRow(row));
        }
        self.columns[col].clear(row);
        Ok(())
    }

    /// What inserting `row` at `idx` into `prev` gives, by its result `r`.
    pub open spec fn inserted_row(&self, prev: Self, row: Seq<Reading>, idx: int, r: Result<(), Error>) -> bool {
        let own = prev.cols().len();
        let other = row.len();
        &&& (other != own && own != 0) ==> r == Err::<(), Error>(
            Error::InvalidRowWidth { own: own as usize, other: other as usize },
        )
        &&& !(other != own && own != 0) && idx > prev.rows() ==> r == Err::<(), Error>(
            Error::InvalidInsertion(idx as usize),
        )
        &&& r is Ok <==> !(other != own && own != 0) && idx <= prev.rows()
        &&& r is Err ==> self.same_sheet(prev)
        &&& r is Ok ==> {
            &&& self.rows() == prev.rows() + 1
            &&& self.null_text() == prev.null_text()
            &&& prev.rows() == 0 ==> {
                &&& self.cols().len() == row.len()
                &&& forall|c: int|
                    0 <= c < row.len() ==> #[trigger] is_parsed_column(
                        self.cols()[c],
                        seq![Some(row[c])],
                        None,
                        ColumnStrategy::Infer,
                        prev.null_text(),
                    )
                &&& self.primary_col() == (if row.len() == 0 {
                    prev.primary_col()
                } else {
                    Some(0usize)
                })
            }
            &&& prev.rows() != 0 ==> {
                &&& self.cols().len() == prev.cols().len()
                &&& forall|c: int|
                    0 <= c < prev.cols().len() ==> same_header(#[trigger] self.cols()[c], prev.cols()[c])
                        && self.cols()[c].cells() == (if idx <= prev.cols()[c].cells().len() {
                        prev.cols()[c].cells().insert(
                            idx,
                            spec_read_cell_lossy(prev.cols()[c].kind_view(), row[c], prev.null_text()),
                        )
                    } else {
                        prev.cols()[c].cells()
                    })
                &&& self.primary_col() == prev.primary_col()
            }
        }
    }

    /// Appends a row at the bottom of the sheet.
    ///
    /// Returns `Err` if `row` has a different width than a sheet with columns.
    pub fn push_row(&mut self, row: Vec<Reading>) -> (r: Result<(), Error>)
        requires
            old(self).rows() < usize::MAX,
        ensures
            old(self).uniform() ==> final(self).uniform(),
            final(self).inserted_row(*old(self), row@, old(self).rows() as int, r),
    {
        let h = self.height;
        self.insert_row(row, h)
    }

    /// Inserts a row at `idx`, shifting the rows from `idx` on down. Each value
    /// is read as its column's type; a null or unreadable value leaves the
    /// cell empty. A sheet without rows takes new columns, typed by what the
    /// values read as.
    ///
    /// Returns `Err` if `idx` is past the last row, or if `row` has a
    /// different width than a sheet with columns.
    pub fn insert_row(&mut self, row: Vec<Reading>, idx: usize) -> (r: Result<(), Error>)
        requires
            old(self).rows() < usize::MAX,
        ensures
            old(self).uniform() ==> final(self).uniform(),
            final(self).inserted_row(*old(self), row@, idx as int, r),
    {
        let own = self.width();
        let other = row.len();
        if other != own && !self.true_is_empty() {
            return Err(Error::InvalidRowWidth { own, other });
        }
        if idx > self.height() {
            return Err(Error::InvalidInsertion(idx));
        }
        let ghost values = row@;
        if self.is_empty() {
            let mut cols: Vec<Vec<Reading>> = Vec::new();
            let mut headers: Vec<Option<String>> = Vec::new();
            let mut row = row;
            while row.len() > 0
                invariant
                    row@.len() + cols@.len() == values.len(),
                    headers@.len() == cols@.len(),
                    forall|k: int| 0 <= k < row@.len() ==> #[trigger] row@[k] == values[k],
                    forall|k: int| 0 <= k < cols@.len() ==> (#[trigger] cols@[k])@ == seq![values[values.len() - 1 - k]],
                    forall|k: int| 0 <= k < headers@.len() ==> #[trigger] headers@[k] is None,
                decreases row@.len(),
            {
                let value = row.pop().unwrap();
                cols.push(vec![value]);
                headers.push(None);
            }
            let mut ordered: Vec<Vec<Reading>> = Vec::new();
            while cols.len() > 0
                invariant
                    cols@.len() + ordered@.len() == values.len(),
                    forall|k: int| 0 <= k < cols@.len() ==> (#[trigger] cols@[k])@ == seq![values[values.len() - 1 - k]],
                    forall|k: int| 0 <= k < ordered@.len() ==> (#[trigger] ordered@[k])@ == seq![values[k]],
                decreases cols@.len(),
            {
                let col = cols.pop().unwrap();
                ordered.push(col);
            }
            let len = ordered.len();
            let ghost hs = headers@;
            let ghost os = ordered@;
            let columns = create_columns(ordered, headers, TypesStrategy::Infer, self.null_string.as_str());
            proof {
                assert forall|c: int| 0 <= c < values.len() implies #[trigger] is_parsed_column(
                    columns@[c],
                    seq![Some(values[c])],
                    None,
                    ColumnStrategy::Infer,
                    self.null_string@,
                ) by {
                    assert(present(os[c]@) =~= seq![Some(values[c])]);
                    assert(hs[c] is None);
                    assert(is_parsed_column(
                        columns@[c],
                        present(os[c]@),
                        label_of(hs[c]),
                        strategy_at(TypesStrategy::Infer, c)->Some_0,
                        self.null_string@,
                    ));
                }
            }
            self.columns = columns;
            if len != 0 {
                self.primary = Some(0);
            }
        } else {
            let mut i: usize = 0;
            while i < self.columns.len()
                invariant
                    self.cols().len() == old(self).cols().len(),
                    row@ == values,
                    self.cols().len() == 0 || values.len() == self.cols().len(),
                    i <= self.cols().len(),
                    forall|c: int|
                        0 <= c < i ==> same_header(#[trigger] self.cols()[c], old(self).cols()[c])
                            && self.cols()[c].cells() == (if idx <= old(self).cols()[c].cells().len() {
                            old(self).cols()[c].cells().insert(
                                idx as int,
                                spec_read_cell_lossy(old(self).cols()[c].kind_view(), values[c], old(self).null_text()),
                            )
                        } else {
                            old(self).cols()[c].cells()
                        }),
                    forall|c: int| i <= c < self.cols().len() ==> #[trigger] self.cols()[c] == old(self).cols()[c],
                    self.primary == old(self).primary,
                    self.height == old(self).height,
                    self.null_string == old(self).null_string,
                decreases self.cols().len() - i,
            {
                let null = self.null_string.clone();
                self.columns[i].insert(&row[i], idx, null.as_str());
                i = i + 1;
            }
        }
        self.height = self.height + 1;
        proof {
            if old(self).uniform() {
                assert forall|c: int| 0 <= c < self.cols().len() implies #[trigger] self.cols()[c].cells().len()
                    == self.rows() by {
                    if old(self).rows() != 0 {
                        assert(old(self).cols()[c].cells().len() == old(self).rows());
                    } else {
                        assert(is_parsed_column(
                            self.cols()[c],
                            seq![Some(values[c])],
                            None,
                            ColumnStrategy::Infer,
                            old(self).null_text(),
                        ));
                    }
                }
            }
        }
        Ok(())
    }

    /// The keys rows are sorted by: the cells of column `cell`.
    pub open spec fn row_keys(&self, cell: int) -> Seq<Option<CellValue>> {
        Seq::new(self.rows(), |i: int| Some(self.cols()[cell].cells()[i]))
    }

    /// The keys columns are sorted by: each column's cell at row `cell`, if
    /// it has one.
    pub open spec fn col_keys(&self, cell: int) -> Seq<Option<CellValue>> {
        Seq::new(
            self.cols().len(),
            |c: int|
                if cell < self.cols()[c].cells().len() {
                    Some(self.cols()[c].cells()[cell])
                } else {
                    None
                },
        )
    }

    /// `self` is `prev` with its rows stably sorted by the cells of column
    /// `cell` (in reverse when `rev` holds); nothing changes when there is no
    /// such column.
    pub open spec fn rows_sorted(&self, prev: Self, cell: int, rev: bool) -> bool {
        if cell >= prev.cols().len() {
            self.same_sheet(prev)
        } else {
            exists|p: Seq<usize>|
                #[trigger] is_perm(p, prev.rows()) && sorted_stably(p, prev.row_keys(cell), rev)
                    && self.cols().len() == prev.cols().len() && (forall|c: int|
                    0 <= c < prev.cols().len() ==> same_header(#[trigger] self.cols()[c], prev.cols()[c])
                        && self.cols()[c].cells() == permuted(prev.cols()[c].cells(), p)) && self.rows()
                    == prev.rows() && self.primary_col() == prev.primary_col() && self.null_text()
                    == prev.null_text()
        }
    }

    /// `self` is `prev` with its columns stably sorted by their cells at row
    /// `cell` (in reverse when `rev` holds), as far as those cells are
    /// ordered consistently ([`orderly`]; by `sorting::lemma_families_orderly` they
    /// are, unless an integer of magnitude 2^53 or more or a NaN of 32 bits
    /// meets a number of another family); nothing changes when there is no
    /// such row. The primary column stays the same column.
    pub open spec fn cols_sorted(&self, prev: Self, cell: int, rev: bool) -> bool {
        if cell >= prev.rows() {
            self.same_sheet(prev)
        } else {
            exists|p: Seq<usize>|
                #[trigger] is_perm(p, prev.cols().len()) && (orderly(prev.col_keys(cell)) ==> sorted_stably(
                    p,
                    prev.col_keys(cell),
                    rev,
                )) && self.cols() == permuted(prev.cols(), p) && follows_primary(
                    self.primary_col(),
                    prev.primary_col(),
                    p,
                ) && self.rows() == prev.rows() && self.null_text() == prev.null_text()
        }
    }

    fn sort_col_helper(&mut self, cell: usize, rev: bool)
        ensures
            final(self).cols_sorted(*old(self), cell as int, rev),
    {
        if cell >= self.height {
            return;
        }
        let ghost keys_view = self.col_keys(cell as int);
        let mut keys: Vec<Option<CellRef<'_>>> = Vec::new();
        let mut j: usize = 0;
        while j < self.columns.len()
            invariant
                j <= self.cols().len(),
                keys@.len() == j,
                forall|c: int| 0 <= c < j ==> #[trigger] key_of(keys@[c]) == keys_view[c],
                keys_view == self.col_keys(cell as int),
            decreases self.cols().len() - j,
        {
            keys.push(self.columns[j].data_ref(cell));
            j = j + 1;
        }
        assert(keys@.map_values(|k: Option<CellRef>| key_of(k)) =~= keys_view);
        let mut indices = sort_indices(&keys, rev);
        let ghost p = indices@;
        let new_primary = match self.primary {
            Some(x) => match position_of(&indices, x) {
                Some(i) => Some(i),
                None => Some(x),
            },
            None => None,
        };
        proof {
            if let Some(x) = self.primary {
                if x < p.len() && !(new_primary matches Some(y) && y < p.len() && p[y as int] == x) {
                    lemma_perm_onto(p, x as int);
                }
            }
        }
        index_sort_swap(&mut indices);
        let ghost q = indices@;
        let mut pos: usize = 0;
        proof {
            assert(q.take(0) =~= Seq::<usize>::empty());
        }
        while pos < indices.len()
            invariant
                indices@ == q,
                pos <= q.len(),
                q.len() == old(self).cols().len(),
                forall|i: int| 0 <= i < q.len() ==> #[trigger] q[i] < q.len(),
                self.cols() == swaps_applied(old(self).cols(), q.take(pos as int)),
                self.cols().len() == old(self).cols().len(),
                self.primary == old(self).primary,
                self.height == old(self).height,
                self.null_string == old(self).null_string,
            decreases q.len() - pos,
        {
            let elem = indices[pos];
            swap_columns(&mut self.columns, pos, elem);
            proof {
                assert(q.take(pos + 1).drop_last() =~= q.take(pos as int));
            }
            pos = pos + 1;
        }
        proof {
            assert(q.take(q.len() as int) =~= q);
            lemma_swaps_follow_order(old(self).cols(), q, p);
        }
        self.primary = new_primary;
    }

    /// Sorts the columns by comparing their cells at row 0, if the sheet has
    /// columns.
    pub fn sort_col(&mut self)
        ensures
            old(self).uniform() ==> final(self).uniform(),
            old(self).cols().len() == 0 ==> final(self).same_sheet(*old(self)),
            old(self).cols().len() > 0 ==> final(self).cols_sorted(*old(self), 0, false),
    {
        if !self.true_is_empty() {
            self.sort_col_by(0)
        }
    }

    /// Sorts the columns by comparing their cells at row `cell`.
    pub fn sort_col_by(&mut self, cell: usize)
        ensures
            old(self).uniform() ==> final(self).uniform(),
            final(self).cols_sorted(*old(self), cell as int, false),
    {
        self.sort_col_helper(cell, false)
    }

    /// Sorts the columns like `sort_col_by`, in reverse order.
    pub fn sort_col_by_rev(&mut self, cell: usize)
        ensures
            old(self).uniform() ==> final(self).uniform(),
            final(self).cols_sorted(*old(self), cell as int, true),
    {
        self.sort_col_helper(cell, true)
    }

    /// Sorts the columns like `sort_col`, in reverse order.
    pub fn sort_col_rev(&mut self)
        ensures
            old(self).uniform() ==> final(self).uniform(),
            old(self).cols().len() == 0 ==> final(self).same_sheet(*old(self)),
            old(self).cols().len() > 0 ==> final(self).cols_sorted(*old(self), 0, true),
    {
        if !self.true_is_empty() {
            self.sort_col_by_rev(0)
        }
    }

    fn sort_row_helper(&mut self, cell: usize, rev: bool)
        requires
            cell < old(self).cols().len() ==> forall|c: int|
                0 <= c < old(self).cols().len() ==> #[trigger] old(self).cols()[c].cells().len() >= old(self).rows(),
        ensures
            final(self).rows_sorted(*old(self), cell as int, rev),
    {
        if cell >= self.width() {
            return;
        }
        let ghost keys_view = self.row_keys(cell as int);
        let mut keys: Vec<Option<CellRef<'_>>> = Vec::new();
        let mut i: usize = 0;
        while i < self.height
            invariant
                i <= self.rows(),
                cell < self.cols().len(),
                self.cols()[cell as int].cells().len() >= self.rows(),
                keys@.len() == i,
                forall|r: int| 0 <= r < i ==> #[trigger] key_of(keys@[r]) == keys_view[r],
                keys_view == self.row_keys(cell as int),
            decreases self.rows() - i,
        {
            keys.push(self.columns[cell].data_ref(i));
            i = i + 1;
        }
        assert(keys@.map_values(|k: Option<CellRef>| key_of(k)) =~= keys_view);
        proof {
            lemma_cells_fit_kind(self.cols()[cell as int]);
            lemma_same_kind_orderly(keys_view, self.cols()[cell as int].kind_view());
        }
        let mut indices = sort_indices(&keys, rev);
        let ghost p = indices@;
        index_sort_swap(&mut indices);
        let ghost q = indices@;
        let mut c: usize = 0;
        while c < self.columns.len()
            invariant
                indices@ == q,
                q.len() == old(self).rows(),
                forall|k: int| 0 <= k < q.len() ==> #[trigger] q[k] < q.len(),
                swaps_applied(ident(q.len()), q) == p,
                p.len() == q.len(),
                self.cols().len() == old(self).cols().len(),
                c <= self.cols().len(),
                forall|k: int|
                    0 <= k < c ==> same_header(#[trigger] self.cols()[k], old(self).cols()[k])
                        && self.cols()[k].cells() == permuted(old(self).cols()[k].cells(), p),
                forall|k: int| c <= k < self.cols().len() ==> #[trigger] self.cols()[k] == old(self).cols()[k],
                forall|k: int| 0 <= k < old(self).cols().len() ==> #[trigger] old(self).cols()[k].cells().len() >= old(self).rows(),
                self.primary == old(self).primary,
                self.height == old(self).height,
                self.null_string == old(self).null_string,
            decreases self.cols().len() - c,
        {
            proof {
                lemma_swaps_follow_order(self.cols()[c as int].cells(), q, p);
            }
            self.columns[c].apply_index_swap(indices.as_slice());
            c = c + 1;
        }
        assert(is_perm(p, old(self).rows()));
    }

    /// Sorts the rows by the primary column, or by the first column when there
    /// is no primary column, if the sheet has rows.
    pub fn sort_row(&mut self)
        requires
            old(self).rows() > 0 ==> (match old(self).primary_col() {
                Some(p) => p as int,
                None => 0int,
            }) < old(self).cols().len() ==> forall|c: int|
                0 <= c < old(self).cols().len() ==> #[trigger] old(self).cols()[c].cells().len() >= old(self).rows(),
        ensures
            old(self).uniform() ==> final(self).uniform(),
            old(self).rows() == 0 ==> final(self).same_sheet(*old(self)),
            old(self).rows() > 0 ==> final(self).rows_sorted(
                *old(self),
                match old(self).primary_col() {
                    Some(p) => p as int,
                    None => 0int,
                },
                false,
            ),
    {
        if !self.is_empty() {
            let cell = match self.primary {
                Some(p) => p,
                None => 0,
            };
            self.sort_row_by(cell)
        }
    }

    /// Sorts the rows by the first column, in reverse order, if the sheet has rows.
    pub fn sort_row_rev(&mut self)
        requires
            old(self).rows() > 0 && 0 < old(self).cols().len() ==> forall|c: int|
                0 <= c < old(self).cols().len() ==> #[trigger] old(self).cols()[c].cells().len() >= old(self).rows(),
        ensures
            old(self).uniform() ==> final(self).uniform(),
            old(self).rows() == 0 ==> final(self).same_sheet(*old(self)),
            old(self).rows() > 0 ==> final(self).rows_sorted(*old(self), 0, true),
    {
        if !self.is_empty() {
            self.sort_row_by_rev(0)
        }
    }

    /// Sorts the rows by comparing their cells in column `cell`.
    pub fn sort_row_by(&mut self, cell: usize)
        requires
            cell < old(self).cols().len() ==> forall|c: int|
                0 <= c < old(self).cols().len() ==> #[trigger] old(self).cols()[c].cells().len() >= old(self).rows(),
        ensures
            old(self).uniform() ==> final(self).uniform(),
            final(self).rows_sorted(*old(self), cell as int, false),
    {
        self.sort_row_helper(cell, false)
    }

    /// Sorts the rows like `sort_row_by`, in reverse order.
    pub fn sort_row_by_rev(&mut self, cell: usize)
        requires
            cell < old(self).cols().len() ==> forall|c: int|
                0 <= c < old(self).cols().len() ==> #[trigger] old(self).cols()[c].cells().len() >= old(self).rows(),
        ensures
            old(self).uniform() ==> final(self).uniform(),
            final(self).rows_sorted(*old(self), cell as int, true),
    {
        self.sort_row_helper(cell, true)
    }

    /// Returns true if the sheet has no columns.
    pub fn true_is_empty(&self) -> (r: bool)
        ensures
            r == (self.cols().len() == 0),
    {
        self.width() == 0
    }
}

/// Exchanges the columns at `x` and `y`.
fn swap_columns(v: &mut Vec<Column>, x: usize, y: usize)
    requires
        x < old(v)@.len(),
        y < old(v)@.len(),
    ensures
        final(v)@ == swap_seq(old(v)@, x as int, y as int),
{
    if x != y {
        let cx = v.remove(x);
        let cy = if x < y {
            v.remove(y - 1)
        } else {
            v.remove(y)
        };
        if x < y {
            v.insert(x, cy);
            v.insert(y, cx);
        } else {
            v.insert(y, cx);
            v.insert(x, cy);
        }
    }
    assert(v@ =~= swap_seq(old(v)@, x as int, y as int));
}

/// `new` is where the primary column `prev` sits once the columns are put in
/// the order `p`: the place that takes the column; a primary column that is
/// none of the columns stays as it is.
pub open spec fn follows_primary(new: Option<usize>, prev: Option<usize>, p: Seq<usize>) -> bool {
    match prev {
        Some(x) => if x < p.len() {
            new matches Some(y) && y < p.len() && p[y as int] == x
        } else {
            new == prev
        },
        None => new is None,
    }
}

/// Where `x` is in `v`, if anywhere.
fn position_of(v: &Vec<usize>, x: usize) -> (r: Option<usize>)
    ensures
        r matches Some(i) ==> i < v@.len() && v@[i as int] == x,
        r is None ==> forall|i: int| 0 <= i < v@.len() ==> v@[i] != x,
{
    let mut i: usize = 0;
    while i < v.len()
        invariant
            i <= v@.len(),
            forall|j: int| 0 <= j < i ==> v@[j] != x,
        decreases v@.len() - i,
    {
        if v[i] == x {
            return Some(i);
        }
        i = i + 1;
    }
    None
}

/// A permutation of `0..n` takes every value below `n`.
proof fn lemma_perm_onto(p: Seq<usize>, x: int)
    requires
        is_perm(p, p.len()),
        0 <= x < p.len(),
    ensures
        exists|i: int| 0 <= i < p.len() && p[i] == x,
{
    if !(exists|i: int| 0 <= i < p.len() && p[i] == x) {
        let n = p.len() as int;
        let f = |i: int| p[i] as int;
        let r = vstd::set_lib::set_int_range(0, n);
        let t = r.map(f);
        vstd::set_lib::lemma_int_range(0, n);
        assert(vstd::relations::injective_on(f, r));
        vstd::set_lib::lemma_map_size(r, t, f);
        let u = r.remove(x);
        assert(t.subset_of(u)) by {
            assert forall|v: int| t.contains(v) implies u.contains(v) by {
                let i = choose|i: int| r.contains(i) && f(i) == v;
                assert(p[i] < n);
            }
        }
        vstd::set_lib::lemma_len_subset(t, u);
        assert(false);
    }
}

} // verus!
