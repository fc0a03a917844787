//! A row oriented sheet.
use vstd::prelude::*;

pub mod error;
pub mod utils;
pub mod builders;
pub mod charts;
pub mod laws;
pub mod ranking;
pub use error::Error;
pub use utils::{
    BarChartAxisLabelStrategy, BarChartBarLabels, ColumnHeader, ColumnType, Data, DataValue,
    HeaderLabelStrategy, HeaderTypesStrategy, LineLabelStrategy, StackedBarChartAxisLabelStrategy,
    TypesStrategy,
};

use super::col_sheet::building::{lemma_record_width, record_width};
use super::col_sheet::utils::Reading;
use super::col_sheet::column::CellValue;
use super::col_sheet::ordering::{sign_of, text_compare, text_order};
use super::col_sheet::sorting::{
    index_sort_swap, is_perm, lemma_cell_order_range, lemma_swaps_follow_order, lemma_text_order, permuted,
};
use super::col_sheet::utils::{swap_seq, swaps_applied};
use super::floats::{f32_rank, f32_total_order, f32_value_compare, f32_value_order};
use super::text::{int_text, int_to_text};
use utils::{data_of, fits_column, is_text_of, kind_of};

verus! {

/// A message followed by the decimal text of `n`.
pub open spec fn message_with(prefix: Seq<char>, n: usize) -> Seq<char> {
    prefix + int_text(n as int)
}

fn message(prefix: &str, n: usize) -> (r: String)
    ensures
        r@ == message_with(prefix@, n),
{
    let mut s = prefix.to_owned();
    let t = int_to_text(n as i128);
    s.append(t.as_str());
    s
}

/// A cell of a sheet: its data and an id unique within its row.
#[derive(Debug, Clone, PartialEq)]
pub struct Cell {
    id: usize,
    data: Data,
}

impl Cell {
    /// The id of the cell.
    pub closed spec fn cell_id(&self) -> usize {
        self.id
    }

    /// What the cell holds.
    pub closed spec fn content(&self) -> DataValue {
        self.data.value()
    }

    pub fn new(id: usize, data: Data) -> (r: Self)
        ensures
            r.cell_id() == id,
            r.content() == data.value(),
    {
        Cell { id, data }
    }

    pub fn get_data(&self) -> (r: &Data)
        ensures
            r.value() == self.content(),
    {
        &self.data
    }

    pub fn get_id(&self) -> (r: usize)
        ensures
            r == self.cell_id(),
    {
        self.id
    }

    /// The data of the cell, to change in place.
    pub fn get_data_mut(&mut self) -> (r: &mut Data)
        ensures
            r.value() == old(self).content(),
            final(self).content() == final(r).value(),
            final(self).cell_id() == old(self).cell_id(),
    {
        &mut self.data
    }

    /// Modifies the data in this cell.
    pub fn set_data(&mut self, new_data: Data)
        ensures
            final(self).content() == new_data.value(),
            final(self).cell_id() == old(self).cell_id(),
    {
        self.data = new_data;
    }

    /// A copy of the cell.
    pub fn duplicate(&self) -> (r: Self)
        ensures
            r.cell_id() == self.cell_id(),
            r.content() == self.content(),
    {
        Cell { id: self.id, data: self.data.duplicate() }
    }
}

/// A row of a sheet.
#[derive(Debug, Clone, PartialEq)]
pub struct Row {
    id: usize,
    cells: Vec<Cell>,
    primary: usize,
    id_counter: usize,
}

/// The contents of a run of cells.
pub open spec fn contents_of(cells: Seq<Cell>) -> Seq<DataValue> {
    cells.map_values(|c: Cell| c.content())
}

/// Every cell of a row may stand in its header's column, and the row has a
/// cell for every header.
pub open spec fn row_fits(contents: Seq<DataValue>, headers: Seq<ColumnHeader>) -> bool {
    contents.len() == headers.len() && forall|i: int|
        0 <= i < contents.len() ==> #[trigger] fits_column(headers[i].kind, contents[i])
}

impl Row {
    /// The id of the row.
    pub closed spec fn row_id(&self) -> usize {
        self.id
    }

    /// The cells of the row, left to right.
    pub closed spec fn cell_seq(&self) -> Seq<Cell> {
        self.cells@
    }

    /// What the cells of the row hold, left to right.
    pub open spec fn contents(&self) -> Seq<DataValue> {
        contents_of(self.cell_seq())
    }

    /// The index of the row's primary cell.
    pub closed spec fn primary_index(&self) -> usize {
        self.primary
    }

    /// The id the next cell added to the row takes.
    pub closed spec fn next_id(&self) -> usize {
        self.id_counter
    }

    /// A row with the data that the fields of `record` stand for, its cells
    /// numbered from 0.
    pub fn new(record: Vec<Reading>, id: usize, primary_index: usize) -> (r: Self)
        ensures
            r.row_id() == id,
            r.primary_index() == primary_index,
            r.next_id() == record@.len(),
            r.contents() == record@.map_values(|f: Reading| data_of(f)),
            forall|i: int| 0 <= i < record@.len() ==> #[trigger] r.cell_seq()[i].cell_id() == i,
    {
        let mut cells: Vec<Cell> = Vec::new();
        let mut counter: usize = 0;
        while counter < record.len()
            invariant
                counter <= record@.len(),
                cells@.len() == counter,
                forall|i: int| 0 <= i < counter ==> #[trigger] cells@[i].content() == data_of(record@[i])
                    && cells@[i].cell_id() == i,
            decreases record@.len() - counter,
        {
            let data = Data::from_reading(&record[counter]);
            cells.push(Cell::new(counter, data));
            counter = counter + 1;
        }
        let r = Row { id, cells, primary: primary_index, id_counter: counter };
        assert(r.contents() =~= record@.map_values(|f: Reading| data_of(f)));
        assert forall|i: int| 0 <= i < record@.len() implies #[trigger] r.cell_seq()[i].cell_id() == i by {
            assert(r.cell_seq()[i] == r.cells@[i]);
            assert(r.cells@[i].content() == data_of(record@[i]));
        }
        r
    }

    fn is_key_valid(&self, key: usize) -> (r: bool)
        ensures
            r == (key < self.cell_seq().len()),
    {
        self.cells.len() > key
    }

    /// Whether the row has a cell at its primary index.
    pub fn is_primary_key_valid(&self) -> (r: Result<(), Error>)
        ensures
            r is Ok <==> self.primary_index() < self.cell_seq().len(),
            r is Err ==> r->Err_0 is InvalidPrimaryKey,
    {
        if !self.is_key_valid(self.primary) {
            return Err(
                Error::InvalidPrimaryKey(message("Primary key is invalid for row with id: ", self.id)),
            );
        }
        Ok(())
    }

    /// Checks the row against the headers: one cell per header, each fitting
    /// its header's column.
    pub fn validate_all_cols(&self, headers: &Vec<ColumnHeader>) -> (r: Result<(), Error>)
        ensures
            r is Ok <==> row_fits(self.contents(), headers@),
            r is Err && self.cell_seq().len() != headers@.len() ==> r->Err_0 is InvalidColumnLength,
            r is Err && self.cell_seq().len() == headers@.len() ==> r->Err_0 is InvalidColumnType,
    {
        if self.cells.len() != headers.len() {
            return Err(
                Error::InvalidColumnLength(message("Unbalanced cells in row with id: ", self.id)),
            );
        }
        let mut i: usize = 0;
        while i < self.cells.len()
            invariant
                self.cell_seq().len() == headers@.len(),
                i <= self.cell_seq().len(),
                forall|j: int| 0 <= j < i ==> #[trigger] fits_column(headers@[j].kind, self.contents()[j]),
            decreases self.cell_seq().len() - i,
        {
            if !headers[i].crosscheck_type(&self.cells[i].data) {
                assert(!fits_column(headers@[i as int].kind, self.contents()[i as int]));
                return Err(
                    Error::InvalidColumnType(
                        message("Unexpected type of cell in row with id: ", self.id),
                    ),
                );
            }
            i = i + 1;
        }
        Ok(())
    }

    /// Checks the cell at `col` against `header`.
    pub fn validate_col(&self, header: &ColumnHeader, col: usize) -> (r: Result<(), Error>)
        ensures
            r is Ok <==> col < self.cell_seq().len() && fits_column(header.kind, self.contents()[col as int]),
            r is Err && col >= self.cell_seq().len() ==> r->Err_0 is InvalidColumnLength,
            r is Err && col < self.cell_seq().len() ==> r->Err_0 is InvalidColumnType,
    {
        if col >= self.cells.len() {
            proof {
                reveal_strlit("Tried to validate out of bounds column");
            }
            return Err(Error::InvalidColumnLength("Tried to validate out of bounds column".to_owned()));
        }
        if header.crosscheck_type(&self.cells[col].data) {
            Ok(())
        } else {
            Err(Error::InvalidColumnType(message("Unexpected type of cell in row with id: ", self.id)))
        }
    }

    /// Sets the row's primary cell; fails, changing nothing, if there is no
    /// cell at `new_primary`.
    pub fn set_primary_key(&mut self, new_primary: usize) -> (r: Result<(), Error>)
        ensures
            r is Ok <==> new_primary < old(self).cell_seq().len(),
            r is Err ==> r->Err_0 is InvalidPrimaryKey && final(self).primary_index() == old(self).primary_index(),
            r is Ok ==> final(self).primary_index() == new_primary,
            final(self).row_id() == old(self).row_id(),
            final(self).cell_seq() == old(self).cell_seq(),
            final(self).next_id() == old(self).next_id(),
    {
        if new_primary < self.cells.len() {
            self.primary = new_primary;
            Ok(())
        } else {
            proof {
                reveal_strlit("Tried to set primary key to invalid value");
            }
            Err(Error::InvalidPrimaryKey("Tried to set primary key to invalid value".to_owned()))
        }
    }

    /// The cells of the row, left to right.
    pub fn iter_cells(&self) -> (r: core::slice::Iter<'_, Cell>)
        ensures
            vstd::std_specs::iter::IteratorSpec::remaining(&r).unref() == self.cell_seq(),
    {
        broadcast use vstd::std_specs::slice::axiom_spec_slice_iter;
        self.cells.as_slice().iter()
    }

    /// The cells of the row, to change in place, left to right.
    pub fn iter_cells_mut(&mut self) -> (r: &mut [Cell])
        ensures
            r@ == old(self).cell_seq(),
            final(self).cell_seq() == final(r)@,
            final(self).row_id() == old(self).row_id(),
            final(self).primary_index() == old(self).primary_index(),
            final(self).next_id() == old(self).next_id(),
    {
        self.cells.as_mut_slice()
    }

    pub fn get_id(&self) -> (r: usize)
        ensures
            r == self.row_id(),
    {
        self.id
    }

    pub fn get_primary_key(&self) -> (r: usize)
        ensures
            r == self.primary_index(),
    {
        self.primary
    }

    /// Returns the number of cells of the row.
    pub fn len(&self) -> (r: usize)
        ensures
            r == self.cell_seq().len(),
    {
        self.cells.len()
    }

    pub fn get_primary_cell(&self) -> (r: Option<&Cell>)
        ensures
            r is Some <==> self.primary_index() < self.cell_seq().len(),
            r matches Some(c) ==> *c == self.cell_seq()[self.primary_index() as int],
    {
        if self.primary < self.cells.len() {
            Some(&self.cells[self.primary])
        } else {
            None
        }
    }

    /// Returns the first cell with the given id, if any.
    pub fn get_cell_by_id(&self, id: usize) -> (r: Option<&Cell>)
        ensures
            r is Some <==> exists|i: int| 0 <= i < self.cell_seq().len() && #[trigger] self.cell_seq()[i].cell_id() == id,
            r matches Some(c) ==> exists|i: int|
                0 <= i < self.cell_seq().len() && *c == #[trigger] self.cell_seq()[i] && c.cell_id() == id
                    && forall|j: int| 0 <= j < i ==> #[trigger] self.cell_seq()[j].cell_id() != id,
    {
        let mut i: usize = 0;
        while i < self.cells.len()
            invariant
                i <= self.cell_seq().len(),
                forall|j: int| 0 <= j < i ==> #[trigger] self.cell_seq()[j].cell_id() != id,
            decreases self.cell_seq().len() - i,
        {
            if self.cells[i].id == id {
                assert(self.cell_seq()[i as int].cell_id() == id);
                return Some(&self.cells[i]);
            }
            i = i + 1;
        }
        None
    }

    pub fn get_cell_by_index(&self, index: usize) -> (r: Option<&Cell>)
        ensures
            r is Some <==> index < self.cell_seq().len(),
            r matches Some(c) ==> *c == self.cell_seq()[index as int],
    {
        if index < self.cells.len() {
            Some(&self.cells[index])
        } else {
            None
        }
    }

    /// Fills the row with empty cells up to length `len`, numbering them on
    /// from the row's next id.
    fn balance_cells(&mut self, len: usize)
        requires
            old(self).cell_seq().len() < len ==> old(self).next_id() + (len - old(self).cell_seq().len()) <= usize::MAX,
        ensures
            final(self).row_id() == old(self).row_id(),
            final(self).primary_index() == old(self).primary_index(),
            old(self).cell_seq().len() >= len ==> final(self).cell_seq() == old(self).cell_seq()
                && final(self).next_id() == old(self).next_id(),
            old(self).cell_seq().len() < len ==> {
                &&& final(self).cell_seq().len() == len
                &&& final(self).cell_seq().subrange(0, old(self).cell_seq().len() as int) == old(self).cell_seq()
                &&& forall|i: int|
                    old(self).cell_seq().len() <= i < len ==> (#[trigger] final(self).cell_seq()[i]).content()
                        is Empty && final(self).cell_seq()[i].cell_id() == old(self).next_id() + (i
                        - old(self).cell_seq().len())
                &&& final(self).next_id() == old(self).next_id() + (len - old(self).cell_seq().len())
            },
    {
        let ln = self.cells.len();
        if ln >= len {
            return;
        }
        let mut k: usize = 0;
        while k < len - ln
            invariant
                ln == old(self).cell_seq().len(),
                ln < len,
                k <= len - ln,
                old(self).next_id() + (len - ln) <= usize::MAX,
                self.cells@.len() == ln + k,
                self.cells@.subrange(0, ln as int) == old(self).cell_seq(),
                forall|i: int|
                    ln <= i < ln + k ==> (#[trigger] self.cells@[i]).content() is Empty
                        && self.cells@[i].cell_id() == old(self).next_id() + (i - ln),
                self.id_counter == old(self).next_id() + k,
                self.id == old(self).id,
                self.primary == old(self).primary,
            decreases len - ln - k,
        {
            let empty = Cell::new(self.id_counter, Data::Empty);
            self.cells.push(empty);
            self.id_counter = self.id_counter + 1;
            k = k + 1;
            assert(self.cells@.subrange(0, ln as int) =~= old(self).cell_seq());
        }
    }
}

/// A sheet of data held row by row, under a header per column.
#[derive(Debug, Clone, PartialEq)]
pub struct Sheet {
    rows: Vec<Row>,
    headers: Vec<ColumnHeader>,
    id_counter: usize,
    primary_key: usize,
}

/// `lst` padded with `pad` up to length `size`, or trimmed down to it.
pub open spec fn balanced<T>(lst: Seq<T>, size: nat, pad: T) -> Seq<T> {
    if lst.len() < size {
        lst + Seq::new((size - lst.len()) as nat, |i: int| pad)
    } else {
        lst.take(size as int)
    }
}

/// The primary key suits the headers: it is below their number, or zero.
pub open spec fn primary_fits(headers: nat, pk: nat) -> bool {
    !((headers == pk && pk != 0) || headers < pk)
}

/// The index of the first row that does not fit the headers, if any.
pub open spec fn first_misfit(rows: Seq<Row>, headers: Seq<ColumnHeader>) -> Option<int>
    decreases rows.len(),
{
    if rows.len() == 0 {
        None
    } else {
        match first_misfit(rows.drop_last(), headers) {
            Some(i) => Some(i),
            None => if row_fits(rows.last().contents(), headers) {
                None
            } else {
                Some(rows.len() - 1)
            },
        }
    }
}

proof fn lemma_first_misfit(rows: Seq<Row>, headers: Seq<ColumnHeader>)
    ensures
        first_misfit(rows, headers) is None <==> forall|i: int|
            0 <= i < rows.len() ==> row_fits(#[trigger] rows[i].contents(), headers),
        first_misfit(rows, headers) matches Some(i) ==> 0 <= i < rows.len() && !row_fits(
            rows[i].contents(),
            headers,
        ),
    decreases rows.len(),
{
    if rows.len() > 0 {
        let d = rows.drop_last();
        lemma_first_misfit(d, headers);
        if first_misfit(rows, headers) is None {
            assert forall|i: int| 0 <= i < rows.len() implies row_fits(#[trigger] rows[i].contents(), headers) by {
                if i < d.len() {
                    assert(d[i] == rows[i]);
                }
            }
        } else if first_misfit(d, headers) is Some {
            let i = first_misfit(d, headers)->Some_0;
            assert(d[i] == rows[i]);
        }
        if forall|i: int| 0 <= i < rows.len() ==> row_fits(#[trigger] rows[i].contents(), headers) {
            assert forall|i: int| 0 <= i < d.len() implies row_fits(#[trigger] d[i].contents(), headers) by {
                assert(d[i] == rows[i]);
            }
            assert(row_fits(rows[rows.len() - 1].contents(), headers));
        }
    }
}

impl Sheet {
    /// The rows of the sheet, top to bottom.
    pub closed spec fn row_seq(&self) -> Seq<Row> {
        self.rows@
    }

    /// The headers of the sheet, left to right.
    pub closed spec fn header_seq(&self) -> Seq<ColumnHeader> {
        self.headers@
    }

    /// The primary key of the sheet.
    pub closed spec fn primary(&self) -> usize {
        self.primary_key
    }

    /// The id the next row added to the sheet takes.
    pub closed spec fn next_id(&self) -> usize {
        self.id_counter
    }

    /// The primary key is valid: it suits the headers, and every row has a
    /// cell at its primary index.
    pub open spec fn primary_valid(&self) -> bool {
        &&& primary_fits(self.header_seq().len(), self.primary() as nat)
        &&& forall|i: int|
            0 <= i < self.row_seq().len() ==> #[trigger] self.row_seq()[i].primary_index()
                < self.row_seq()[i].cell_seq().len()
    }

    /// Every row has one cell per header, each fitting its header's column.
    pub open spec fn cols_valid(&self) -> bool {
        forall|i: int| 0 <= i < self.row_seq().len() ==> row_fits(#[trigger] self.row_seq()[i].contents(), self.header_seq())
    }

    /// The sheet is valid: its primary key and its columns are.
    pub open spec fn valid(&self) -> bool {
        self.primary_valid() && self.cols_valid()
    }

    /// No two rows share an id.
    pub open spec fn unique_ids(&self) -> bool {
        forall|i: int, j: int|
            0 <= i < self.row_seq().len() && 0 <= j < self.row_seq().len() && i != j ==> #[trigger] self.row_seq()[i].row_id()
                != #[trigger] self.row_seq()[j].row_id()
    }

    /// What validating the sheet gives: `Ok` for a valid sheet; a primary key
    /// error first, then the error of the first row that does not fit.
    pub open spec fn validation(&self, r: Result<(), Error>) -> bool {
        &&& r is Ok <==> self.valid()
        &&& !self.primary_valid() ==> r is Err && r->Err_0 is InvalidPrimaryKey
        &&& self.primary_valid() && !self.cols_valid() ==> r is Err && match first_misfit(self.row_seq(), self.header_seq()) {
            Some(i) => if self.row_seq()[i].cell_seq().len() != self.header_seq().len() {
                r->Err_0 is InvalidColumnLength
            } else {
                r->Err_0 is InvalidColumnType
            },
            None => false,
        }
    }

    /// Checks the primary key and every row against the headers.
    pub fn validate(&self) -> (r: Result<(), Error>)
        ensures
            self.validation(r),
    {
        match self.is_primary_valid() {
            Ok(()) => {},
            Err(e) => {
                return Err(e);
            },
        }
        self.validate_all_cols()
    }

    fn validate_all_cols(&self) -> (r: Result<(), Error>)
        ensures
            r is Ok <==> self.cols_valid(),
            r is Err ==> match first_misfit(self.row_seq(), self.header_seq()) {
                Some(i) => if self.row_seq()[i].cell_seq().len() != self.header_seq().len() {
                    r->Err_0 is InvalidColumnLength
                } else {
                    r->Err_0 is InvalidColumnType
                },
                None => false,
            },
    {
        let mut i: usize = 0;
        proof {
            lemma_first_misfit(self.row_seq(), self.header_seq());
        }
        while i < self.rows.len()
            invariant
                i <= self.row_seq().len(),
                forall|j: int| 0 <= j < i ==> row_fits(#[trigger] self.row_seq()[j].contents(), self.header_seq()),
                first_misfit(self.row_seq().take(i as int), self.header_seq()) is None,
            decreases self.row_seq().len() - i,
        {
            let ghost t = self.row_seq().take(i + 1);
            assert(t.drop_last() =~= self.row_seq().take(i as int));
            match self.rows[i].validate_all_cols(&self.headers) {
                Ok(()) => {},
                Err(e) => {
                    proof {
                        assert(first_misfit(t, self.header_seq()) == Some(i as int));
                        lemma_first_misfit_prefix(self.row_seq(), self.header_seq(), i as int + 1);
                    }
                    return Err(e);
                },
            }
            i = i + 1;
        }
        proof {
            assert(self.row_seq().take(i as int) =~= self.row_seq());
        }
        Ok(())
    }

    fn is_primary_valid(&self) -> (r: Result<(), Error>)
        ensures
            r is Ok <==> self.primary_valid(),
            r is Err ==> r->Err_0 is InvalidPrimaryKey,
    {
        let len = self.headers.len();
        let pk = self.primary_key;
        if (len == pk && pk != 0) || len < pk {
            proof {
                reveal_strlit("Primary key out of column range");
            }
            return Err(Error::InvalidPrimaryKey("Primary key out of column range".to_owned()));
        }
        let mut i: usize = 0;
        while i < self.rows.len()
            invariant
                i <= self.row_seq().len(),
                forall|j: int|
                    0 <= j < i ==> #[trigger] self.row_seq()[j].primary_index() < self.row_seq()[j].cell_seq().len(),
            decreases self.row_seq().len() - i,
        {
            match self.rows[i].is_primary_key_valid() {
                Ok(()) => {},
                Err(e) => {
                    return Err(e);
                },
            }
            i = i + 1;
        }
        Ok(())
    }

    /// The rows of the sheet, top to bottom.
    pub fn iter_rows(&self) -> (r: core::slice::Iter<'_, Row>)
        ensures
            vstd::std_specs::iter::IteratorSpec::remaining(&r).unref() == self.row_seq(),
    {
        broadcast use vstd::std_specs::slice::axiom_spec_slice_iter;
        self.rows.as_slice().iter()
    }

    /// The rows of the sheet, to change in place, top to bottom.
    pub fn iter_rows_mut(&mut self) -> (r: &mut [Row])
        ensures
            r@ == old(self).row_seq(),
            final(self).row_seq() == final(r)@,
            final(self).header_seq() == old(self).header_seq(),
            final(self).primary() == old(self).primary(),
            final(self).next_id() == old(self).next_id(),
    {
        self.rows.as_mut_slice()
    }

    pub fn get_row_by_index(&self, index: usize) -> (r: Option<&Row>)
        ensures
            r is Some <==> index < self.row_seq().len(),
            r matches Some(row) ==> *row == self.row_seq()[index as int],
    {
        if index < self.rows.len() {
            Some(&self.rows[index])
        } else {
            None
        }
    }

    /// Returns the first row with the given id, if any.
    pub fn get_row_by_id(&self, id: usize) -> (r: Option<&Row>)
        ensures
            r is Some <==> exists|i: int| 0 <= i < self.row_seq().len() && #[trigger] self.row_seq()[i].row_id() == id,
            r matches Some(row) ==> exists|i: int|
                0 <= i < self.row_seq().len() && *row == #[trigger] self.row_seq()[i] && row.row_id() == id
                    && forall|j: int| 0 <= j < i ==> #[trigger] self.row_seq()[j].row_id() != id,
    {
        let mut i: usize = 0;
        while i < self.rows.len()
            invariant
                i <= self.row_seq().len(),
                forall|j: int| 0 <= j < i ==> #[trigger] self.row_seq()[j].row_id() != id,
            decreases self.row_seq().len() - i,
        {
            if self.rows[i].id == id {
                assert(self.row_seq()[i as int].row_id() == id);
                return Some(&self.rows[i]);
            }
            i = i + 1;
        }
        None
    }

    pub fn get_primary_key(&self) -> (r: usize)
        ensures
            r == self.primary(),
    {
        self.primary_key
    }

    pub fn get_headers(&self) -> (r: &Vec<ColumnHeader>)
        ensures
            r@ == self.header_seq(),
    {
        &self.headers
    }

    /// Returns the number of rows.
    pub fn height(&self) -> (r: usize)
        ensures
            r == self.row_seq().len(),
    {
        self.rows.len()
    }

    /// Sets the primary key of the sheet and of every row, if every row has
    /// a cell there; otherwise nothing changes.
    fn set_primary_key(&mut self, new_key: usize) -> (r: Result<(), Error>)
        ensures
            r is Ok <==> forall|i: int|
                0 <= i < old(self).row_seq().len() ==> new_key < #[trigger] old(self).row_seq()[i].cell_seq().len(),
            r is Err ==> r->Err_0 is InvalidPrimaryKey && *final(self) == *old(self),
            r is Ok ==> final(self).primary() == new_key && final(self).header_seq() == old(self).header_seq()
                && final(self).row_seq().len() == old(self).row_seq().len() && forall|i: int|
                0 <= i < old(self).row_seq().len() ==> (#[trigger] final(self).row_seq()[i]).primary_index()
                    == new_key && final(self).row_seq()[i].cell_seq() == old(self).row_seq()[i].cell_seq()
                    && final(self).row_seq()[i].row_id() == old(self).row_seq()[i].row_id(),
    {
        let mut i: usize = 0;
        while i < self.rows.len()
            invariant
                i <= self.row_seq().len(),
                forall|j: int| 0 <= j < i ==> new_key < #[trigger] self.row_seq()[j].cell_seq().len(),
            decreases self.row_seq().len() - i,
        {
            if !self.rows[i].is_key_valid(new_key) {
                proof {
                    reveal_strlit("Tried setting primary key to invalid value");
                }
                return Err(Error::InvalidPrimaryKey("Tried setting primary key to invalid value".to_owned()));
            }
            i = i + 1;
        }
        self.primary_key = new_key;
        let mut k: usize = 0;
        while k < self.rows.len()
            invariant
                k <= self.row_seq().len(),
                self.row_seq().len() == old(self).row_seq().len(),
                self.headers == old(self).headers,
                self.primary_key == new_key,
                forall|j: int| 0 <= j < self.row_seq().len() ==> new_key < #[trigger] old(self).row_seq()[j].cell_seq().len(),
                forall|j: int|
                    0 <= j < k ==> (#[trigger] self.row_seq()[j]).primary_index() == new_key
                        && self.row_seq()[j].cell_seq() == old(self).row_seq()[j].cell_seq()
                        && self.row_seq()[j].row_id() == old(self).row_seq()[j].row_id(),
                forall|j: int| k <= j < self.row_seq().len() ==> #[trigger] self.row_seq()[j] == old(self).row_seq()[j],
            decreases self.row_seq().len() - k,
        {
            let _ = self.rows[k].set_primary_key(new_key);
            k = k + 1;
        }
        Ok(())
    }
}

proof fn lemma_first_misfit_prefix(rows: Seq<Row>, headers: Seq<ColumnHeader>, k: int)
    requires
        0 <= k <= rows.len(),
        first_misfit(rows.take(k), headers) is Some,
    ensures
        first_misfit(rows, headers) == first_misfit(rows.take(k), headers),
    decreases rows.len() - k,
{
    if k < rows.len() {
        assert(rows.take(k + 1).drop_last() =~= rows.take(k));
        lemma_first_misfit_prefix(rows, headers, k + 1);
    } else {
        assert(rows.take(k) =~= rows);
    }
}

/// Folds the type of one more cell into what is known of its column:
/// nothing until a cell that is not empty, then the type of such cells while
/// they all share one, and no type in particular once two differ.
pub open spec fn combine(ac: Option<ColumnType>, cr: ColumnType) -> Option<ColumnType> {
    match ac {
        None => if cr == ColumnType::Untyped {
            None
        } else {
            Some(cr)
        },
        Some(a) => if cr == ColumnType::Untyped || a == cr {
            Some(a)
        } else {
            Some(ColumnType::Untyped)
        },
    }
}

/// Folds the first `j` cell types of a row into what is known of the columns.
pub open spec fn fold_row(acc: Seq<Option<ColumnType>>, kinds: Seq<ColumnType>, j: nat) -> Seq<Option<ColumnType>>
    decreases j,
{
    if j == 0 {
        Seq::empty()
    } else {
        fold_row(acc, kinds, (j - 1) as nat).push(combine(acc[j - 1], kinds[j - 1]))
    }
}

/// The smaller of two numbers.
pub open spec fn smaller(a: nat, b: nat) -> nat {
    if a < b {
        a
    } else {
        b
    }
}

/// What is known of the columns after folding in the first `k` rows, each
/// given by the types of its cells; the fold of a row covers as many columns
/// as both it and what is known have.
pub open spec fn fold_rows(rows: Seq<Seq<ColumnType>>, len: nat, k: nat) -> Seq<Option<ColumnType>>
    decreases k,
{
    if k == 0 {
        Seq::new(len, |i: int| None::<ColumnType>)
    } else {
        let acc = fold_rows(rows, len, (k - 1) as nat);
        fold_row(acc, rows[k - 1], smaller(acc.len(), rows[k - 1].len()))
    }
}

proof fn lemma_fold_row_len(acc: Seq<Option<ColumnType>>, kinds: Seq<ColumnType>, j: nat)
    ensures
        fold_row(acc, kinds, j).len() == j,
    decreases j,
{
    if j > 0 {
        lemma_fold_row_len(acc, kinds, (j - 1) as nat);
    }
}

/// Folding in rows at least `len` long keeps what is known of `len` columns.
proof fn lemma_fold_rows_len(rows: Seq<Seq<ColumnType>>, len: nat, k: nat)
    requires
        k <= rows.len(),
        forall|i: int| 0 <= i < k ==> (#[trigger] rows[i]).len() >= len,
    ensures
        fold_rows(rows, len, k).len() == len,
    decreases k,
{
    if k > 0 {
        lemma_fold_rows_len(rows, len, (k - 1) as nat);
        let acc = fold_rows(rows, len, (k - 1) as nat);
        lemma_fold_row_len(acc, rows[k - 1], smaller(acc.len(), rows[k - 1].len()));
    }
}

/// The types of the cells of a row.
pub open spec fn kinds_of(contents: Seq<DataValue>) -> Seq<ColumnType> {
    contents.map_values(|d: DataValue| kind_of(d))
}

/// The types inferred for the columns of the given rows, starting from `len`
/// columns; a column nothing is known of has no type in particular.
pub open spec fn inferred_kinds(rows: Seq<Row>, len: nat) -> Seq<ColumnType> {
    fold_rows(rows.map_values(|r: Row| kinds_of(r.contents())), len, rows.len()).map_values(
        |o: Option<ColumnType>|
            match o {
                Some(k) => k,
                None => ColumnType::Untyped,
            },
    )
}

fn combine_kinds(ac: Option<ColumnType>, cr: ColumnType) -> (r: Option<ColumnType>)
    ensures
        r == combine(ac, cr),
{
    match ac {
        None => if cr == ColumnType::Untyped {
            None
        } else {
            Some(cr)
        },
        Some(a) => if cr == ColumnType::Untyped || a == cr {
            Some(a)
        } else {
            Some(ColumnType::Untyped)
        },
    }
}

impl Sheet {
    /// Sets the type of each column to the one its cells show.
    fn infer_col_kinds(&mut self, header_len: usize)
        ensures
            final(self).row_seq() == old(self).row_seq(),
            final(self).primary() == old(self).primary(),
            final(self).next_id() == old(self).next_id(),
            final(self).header_seq().len() == old(self).header_seq().len(),
            forall|j: int|
                0 <= j < old(self).header_seq().len() ==> (#[trigger] final(self).header_seq()[j]).label
                    == old(self).header_seq()[j].label && final(self).header_seq()[j].kind == (if j
                    < inferred_kinds(old(self).row_seq(), header_len as nat).len() {
                    inferred_kinds(old(self).row_seq(), header_len as nat)[j]
                } else {
                    old(self).header_seq()[j].kind
                }),
    {
        let ghost kind_rows = self.row_seq().map_values(|r: Row| kinds_of(r.contents()));
        let mut acc: Vec<Option<ColumnType>> = Vec::new();
        let mut c: usize = 0;
        while c < header_len
            invariant
                c <= header_len,
                acc@.len() == c,
                forall|j: int| 0 <= j < c ==> #[trigger] acc@[j] is None,
            decreases header_len - c,
        {
            acc.push(None);
            c = c + 1;
        }
        assert(acc@ =~= fold_rows(kind_rows, header_len as nat, 0));
        let mut k: usize = 0;
        while k < self.rows.len()
            invariant
                k <= self.row_seq().len(),
                kind_rows == self.row_seq().map_values(|r: Row| kinds_of(r.contents())),
                acc@ == fold_rows(kind_rows, header_len as nat, k as nat),
            decreases self.row_seq().len() - k,
        {
            let row = &self.rows[k];
            let n = if acc.len() < row.cells.len() {
                acc.len()
            } else {
                row.cells.len()
            };
            let ghost kinds = kind_rows[k as int];
            assert(kinds == kinds_of(row.contents()));
            let mut next: Vec<Option<ColumnType>> = Vec::new();
            let mut j: usize = 0;
            while j < n
                invariant
                    j <= n,
                    n <= acc@.len(),
                    n <= row.cells@.len(),
                    kinds == kinds_of(row.contents()),
                    next@ == fold_row(acc@, kinds, j as nat),
                decreases n - j,
            {
                let cr = row.cells[j].data.kind();
                assert(cr == kinds[j as int]);
                let cc = combine_kinds(acc[j], cr);
                next.push(cc);
                j = j + 1;
            }
            acc = next;
            k = k + 1;
        }
        assert(self.row_seq().len() == kind_rows.len());
        let ghost kinds = inferred_kinds(self.row_seq(), header_len as nat);
        assert(acc@.len() == kinds.len());
        let mut h: usize = 0;
        while h < self.headers.len()
            invariant
                h <= self.header_seq().len(),
                self.header_seq().len() == old(self).header_seq().len(),
                self.rows == old(self).rows,
                self.primary_key == old(self).primary_key,
                self.id_counter == old(self).id_counter,
                acc@.len() == kinds.len(),
                kinds == inferred_kinds(old(self).row_seq(), header_len as nat),
                forall|q: int| 0 <= q < acc@.len() ==> match #[trigger] acc@[q] {
                    Some(x) => kinds[q] == x,
                    None => kinds[q] == ColumnType::Untyped,
                },
                forall|j: int|
                    0 <= j < h ==> (#[trigger] self.header_seq()[j]).label == old(self).header_seq()[j].label
                        && self.header_seq()[j].kind == (if j < kinds.len() {
                        kinds[j]
                    } else {
                        old(self).header_seq()[j].kind
                    }),
                forall|j: int| h <= j < self.header_seq().len() ==> #[trigger] self.header_seq()[j] == old(self).header_seq()[j],
            decreases self.header_seq().len() - h,
        {
            if h < acc.len() {
                let knd = match acc[h] {
                    Some(x) => x,
                    None => ColumnType::Untyped,
                };
                self.headers[h].kind = knd;
            }
            h = h + 1;
        }
    }
}

/// The contents of the row read from the fields `rec`, padded with empty
/// cells up to `width` when the text is flexible.
pub open spec fn record_contents(rec: Seq<Reading>, width: nat, flexible: bool) -> Seq<DataValue> {
    let c = rec.map_values(|f: Reading| data_of(f));
    if flexible {
        balanced(c, width, DataValue::Empty)
    } else {
        c
    }
}

/// The column types a types strategy gives for `width` columns.
pub open spec fn type_list(strategy: TypesStrategy, width: nat) -> Seq<ColumnType> {
    match strategy {
        TypesStrategy::Provided(ct) => balanced(ct@, width, ColumnType::Untyped),
        _ => Seq::new(width, |i: int| ColumnType::Untyped),
    }
}

/// The column labels a label strategy gives for `width` columns; `read` is
/// the header record of the text.
pub open spec fn label_list(strategy: HeaderLabelStrategy, read: Seq<String>, width: nat) -> Seq<Seq<char>> {
    match strategy {
        HeaderLabelStrategy::Provided(ch) => balanced(ch@.map_values(|t: String| t@), width, Seq::empty()),
        HeaderLabelStrategy::NoLabels => Seq::new(width, |i: int| Seq::<char>::empty()),
        HeaderLabelStrategy::ReadLabels => balanced(read.map_values(|t: String| t@), width, Seq::empty()),
    }
}

/// `s` is the sheet read from `records` with the given settings, before it
/// is validated: a row per record, numbered from 0; a header per label and
/// type, typed by inference when asked.
pub open spec fn is_read_sheet(
    s: Sheet,
    records: Seq<Vec<Reading>>,
    read: Seq<String>,
    primary: usize,
    label_strategy: HeaderLabelStrategy,
    type_strategy: TypesStrategy,
    flexible: bool,
) -> bool {
    let w = record_width(records);
    let labels = label_list(label_strategy, read, w);
    let types = type_list(type_strategy, w);
    &&& s.row_seq().len() == records.len()
    &&& forall|i: int|
        0 <= i < records.len() ==> {
            &&& (#[trigger] s.row_seq()[i]).row_id() == i
            &&& s.row_seq()[i].primary_index() == primary
            &&& s.row_seq()[i].contents() == record_contents(records[i]@, w, flexible)
            &&& forall|j: int|
                0 <= j < s.row_seq()[i].cell_seq().len() ==> #[trigger] s.row_seq()[i].cell_seq()[j].cell_id() == j
        }
    &&& s.header_seq().len() == smaller(labels.len(), types.len())
    &&& forall|j: int|
        0 <= j < s.header_seq().len() ==> (#[trigger] s.header_seq()[j]).label@ == labels[j] && s.header_seq()[j].kind
            == (if type_strategy is Infer && j < inferred_kinds(s.row_seq(), w).len() {
            inferred_kinds(s.row_seq(), w)[j]
        } else {
            types[j]
        })
    &&& s.next_id() == records.len()
    &&& s.primary() == primary
}

impl Sheet {
    /// Builds a sheet from the records of delimited text (`read_labels` is
    /// its header record, used when the labels are read from the text), and
    /// validates it.
    pub fn from_records(
        records: Vec<Vec<Reading>>,
        read_labels: Vec<String>,
        primary: usize,
        label_strategy: HeaderLabelStrategy,
        type_strategy: TypesStrategy,
        flexible: bool,
    ) -> (r: Result<Sheet, Error>)
        ensures
            r matches Ok(s) ==> is_read_sheet(
                s,
                records@,
                read_labels@,
                primary,
                label_strategy,
                type_strategy,
                flexible,
            ) && s.valid() && s.unique_ids(),
            r matches Err(e) ==> exists|s: Sheet|
                is_read_sheet(s, records@, read_labels@, primary, label_strategy, type_strategy, flexible)
                    && #[trigger] s.validation(Err::<(), Error>(e)),
    {
        let ghost recs = records@;
        let n = records.len();
        let mut longest_row: usize = 0;
        let mut rows: Vec<Row> = Vec::new();
        let mut records = records;
        let mut reversed: Vec<Vec<Reading>> = Vec::new();
        while records.len() > 0
            invariant
                records@.len() + reversed@.len() == recs.len(),
                forall|k: int| 0 <= k < records@.len() ==> #[trigger] records@[k] == recs[k],
                forall|k: int| 0 <= k < reversed@.len() ==> #[trigger] reversed@[k] == recs[recs.len() - 1 - k],
            decreases records@.len(),
        {
            let rec = records.pop().unwrap();
            reversed.push(rec);
        }
        let mut counter: usize = 0;
        while reversed.len() > 0
            invariant
                counter + reversed@.len() == recs.len(),
                n == recs.len(),
                forall|k: int| 0 <= k < reversed@.len() ==> #[trigger] reversed@[k] == recs[recs.len() - 1 - k],
                rows@.len() == counter,
                longest_row == record_width(recs.take(counter as int)),
                forall|i: int|
                    0 <= i < counter ==> {
                        &&& (#[trigger] rows@[i]).row_id() == i
                        &&& rows@[i].primary_index() == primary
                        &&& rows@[i].contents() == recs[i]@.map_values(|f: Reading| data_of(f))
                        &&& rows@[i].next_id() == recs[i]@.len()
                        &&& rows@[i].cell_seq().len() == recs[i]@.len()
                        &&& forall|j: int|
                            0 <= j < rows@[i].cell_seq().len() ==> #[trigger] rows@[i].cell_seq()[j].cell_id() == j
                    },
            decreases reversed@.len(),
        {
            let rec = reversed.pop().unwrap();
            let ghost fields = rec@;
            assert(fields == recs[counter as int]@);
            let len = rec.len();
            let row = Row::new(rec, counter, primary);
            proof {
                assert(recs.take(counter + 1).drop_last() =~= recs.take(counter as int));
                assert(row.contents().len() == fields.len());
            }
            if len > longest_row {
                longest_row = len;
            }
            rows.push(row);
            counter = counter + 1;
        }
        assert(recs.take(n as int) =~= recs);
        proof {
            lemma_record_width(recs);
        }
        let w = longest_row;
        if flexible {
            let mut k: usize = 0;
            while k < rows.len()
                invariant
                    k <= rows@.len(),
                    rows@.len() == recs.len(),
                    w == record_width(recs),
                    forall|i: int| 0 <= i < recs.len() ==> #[trigger] recs[i]@.len() <= w,
                    forall|i: int|
                        0 <= i < k ==> {
                            &&& (#[trigger] rows@[i]).row_id() == i
                            &&& rows@[i].primary_index() == primary
                            &&& rows@[i].contents() == record_contents(recs[i]@, w as nat, true)
                            &&& forall|j: int|
                                0 <= j < rows@[i].cell_seq().len() ==> #[trigger] rows@[i].cell_seq()[j].cell_id() == j
                        },
                    forall|i: int|
                        k <= i < recs.len() ==> {
                            &&& (#[trigger] rows@[i]).row_id() == i
                            &&& rows@[i].primary_index() == primary
                            &&& rows@[i].contents() == recs[i]@.map_values(|f: Reading| data_of(f))
                            &&& rows@[i].next_id() == recs[i]@.len()
                            &&& rows@[i].cell_seq().len() == recs[i]@.len()
                            &&& forall|j: int|
                                0 <= j < rows@[i].cell_seq().len() ==> #[trigger] rows@[i].cell_seq()[j].cell_id() == j
                        },
                decreases rows@.len() - k,
            {
                let ghost before = rows@[k as int];
                rows[k].balance_cells(w);
                proof {
                    let after = rows@[k as int];
                    let c = recs[k as int]@.map_values(|f: Reading| data_of(f));
                    if before.cell_seq().len() < w {
                        assert forall|j: int| 0 <= j < after.cell_seq().len() implies #[trigger] after.cell_seq()[j].cell_id() == j by {
                            if j < before.cell_seq().len() {
                                assert(after.cell_seq()[j] == after.cell_seq().subrange(0, before.cell_seq().len() as int)[j]);
                            }
                        }
                        assert forall|j: int| 0 <= j < after.contents().len() implies #[trigger] after.contents()[j]
                            == record_contents(recs[k as int]@, w as nat, true)[j] by {
                            if j < before.cell_seq().len() {
                                assert(after.cell_seq()[j] == after.cell_seq().subrange(0, before.cell_seq().len() as int)[j]);
                            }
                        }
                        assert(after.contents() =~= record_contents(recs[k as int]@, w as nat, true));
                    } else {
                        assert(c.len() == w);
                        assert(balanced(c, w as nat, DataValue::Empty) =~= c);
                    }
                }
                k = k + 1;
            }
        }
        let types: Vec<ColumnType> = match &type_strategy {
            TypesStrategy::Provided(ct) => balance_types(ct, w),
            _ => balance_types(&Vec::new(), w),
        };
        let labels: Vec<String> = match &label_strategy {
            HeaderLabelStrategy::Provided(ch) => balance_labels(ch, w),
            HeaderLabelStrategy::NoLabels => balance_labels(&Vec::new(), w),
            HeaderLabelStrategy::ReadLabels => balance_labels(&read_labels, w),
        };
        proof {
            assert(Seq::<String>::empty().map_values(|t: String| t@) =~= Seq::<Seq<char>>::empty());
            assert(balanced(Seq::<Seq<char>>::empty(), w as nat, Seq::empty()) =~= Seq::new(w as nat, |i: int| Seq::<char>::empty()));
            assert(balanced(Seq::<ColumnType>::empty(), w as nat, ColumnType::Untyped) =~= Seq::new(w as nat, |i: int| ColumnType::Untyped));
        }
        let hn = if labels.len() < types.len() {
            labels.len()
        } else {
            types.len()
        };
        let mut headers: Vec<ColumnHeader> = Vec::new();
        let mut labels = labels;
        let mut h: usize = 0;
        let ghost label_view = labels@;
        assert(labels@.skip(0) =~= labels@);
        while h < hn
            invariant
                h <= hn,
                hn <= types@.len(),
                hn <= label_view.len(),
                labels@ == label_view.skip(h as int),
                headers@.len() == h,
                forall|q: int| 0 <= q < h ==> (#[trigger] headers@[q]).label@ == label_view[q]@ && headers@[q].kind == types@[q],
            decreases hn - h,
        {
            let label = labels.remove(0);
            assert(label == label_view[h as int]);
            assert(labels@ =~= label_view.skip(h + 1));
            headers.push(ColumnHeader::new(label, types[h]));
            h = h + 1;
        }
        let mut sh = Sheet { rows, headers, id_counter: n, primary_key: primary };
        let is_infer = match type_strategy {
            TypesStrategy::Infer => true,
            _ => false,
        };
        if is_infer {
            sh.infer_col_kinds(w);
        }
        match sh.validate() {
            Ok(()) => Ok(sh),
            Err(e) => Err(e),
        }
    }
}

/// `lst` padded with untyped columns up to `size`, or trimmed down to it.
fn balance_types(lst: &Vec<ColumnType>, size: usize) -> (r: Vec<ColumnType>)
    ensures
        r@ == balanced(lst@, size as nat, ColumnType::Untyped),
{
    let mut r: Vec<ColumnType> = Vec::new();
    let mut i: usize = 0;
    while i < lst.len() && i < size
        invariant
            i <= lst@.len(),
            i <= size,
            r@ == lst@.take(i as int),
        decreases lst@.len() - i,
    {
        r.push(lst[i]);
        i = i + 1;
        assert(r@ =~= lst@.take(i as int));
    }
    if lst.len() >= size {
        assert(r@ =~= balanced(lst@, size as nat, ColumnType::Untyped));
        return r;
    }
    assert(lst@.take(i as int) =~= lst@);
    while r.len() < size
        invariant
            lst@.len() <= r@.len() <= size,
            lst@.len() < size,
            r@.subrange(0, lst@.len() as int) == lst@,
            forall|k: int| lst@.len() <= k < r@.len() ==> #[trigger] r@[k] == ColumnType::Untyped,
        decreases size - r@.len(),
    {
        r.push(ColumnType::Untyped);
        assert(r@.subrange(0, lst@.len() as int) =~= lst@);
    }
    assert(r@ =~= balanced(lst@, size as nat, ColumnType::Untyped));
    r
}

/// `lst` padded with empty labels up to `size`, or trimmed down to it.
fn balance_labels(lst: &Vec<String>, size: usize) -> (r: Vec<String>)
    ensures
        r@.map_values(|t: String| t@) == balanced(lst@.map_values(|t: String| t@), size as nat, Seq::empty()),
{
    let mut r: Vec<String> = Vec::new();
    let mut i: usize = 0;
    while i < lst.len() && i < size
        invariant
            i <= lst@.len(),
            i <= size,
            r@.len() == i,
            forall|k: int| 0 <= k < i ==> #[trigger] r@[k]@ == lst@[k]@,
        decreases lst@.len() - i,
    {
        r.push(lst[i].clone());
        i = i + 1;
    }
    if lst.len() >= size {
        assert(r@.map_values(|t: String| t@) =~= balanced(lst@.map_values(|t: String| t@), size as nat, Seq::empty()));
        return r;
    }
    while r.len() < size
        invariant
            lst@.len() <= r@.len() <= size,
            lst@.len() < size,
            forall|k: int| 0 <= k < lst@.len() ==> #[trigger] r@[k]@ == lst@[k]@,
            forall|k: int| lst@.len() <= k < r@.len() ==> (#[trigger] r@[k])@ == Seq::<char>::empty(),
        decreases size - r@.len(),
    {
        r.push(String::new());
    }
    assert(r@.map_values(|t: String| t@) =~= balanced(lst@.map_values(|t: String| t@), size as nat, Seq::empty()));
    r
}

/// The order rows are sorted in by the cells of one column: values of one
/// type in their natural order (texts by character, floats in the total order
/// of IEEE 754, `false` before `true`); any other pair counts as equal.
pub open spec fn sort_order(a: DataValue, b: DataValue) -> int {
    match (a, b) {
        (DataValue::Empty, DataValue::Empty) => 0,
        (DataValue::Text(x), DataValue::Text(y)) => text_order(x, y),
        (DataValue::Float(x), DataValue::Float(y)) => sign_of(f32_rank(x), f32_rank(y)),
        (DataValue::Number(x), DataValue::Number(y)) => sign_of(x as int, y as int),
        (DataValue::Integer(x), DataValue::Integer(y)) => sign_of(x as int, y as int),
        (DataValue::Boolean(x), DataValue::Boolean(y)) => sign_of(
            if x {
                1
            } else {
                0
            },
            if y {
                1
            } else {
                0
            },
        ),
        _ => 0,
    }
}

/// The place of a value's type in the order of values: empty, boolean,
/// integer, float, number, text.
pub open spec fn type_rank(d: DataValue) -> int {
    match d {
        DataValue::Empty => 0,
        DataValue::Boolean(_) => 1,
        DataValue::Integer(_) => 2,
        DataValue::Float(_) => 3,
        DataValue::Number(_) => 4,
        DataValue::Text(_) => 5,
    }
}

/// The order of all values: by type first, then values of one type in their
/// natural order (floats as numbers, what is not a number first).
pub open spec fn data_order(a: DataValue, b: DataValue) -> int {
    if type_rank(a) != type_rank(b) {
        sign_of(type_rank(a), type_rank(b))
    } else {
        match (a, b) {
            (DataValue::Float(x), DataValue::Float(y)) => f32_value_order(x, y),
            _ => sort_order(a, b),
        }
    }
}

/// The order of values used: [`data_order`] when `whole` holds, else
/// [`sort_order`].
pub open spec fn order_by(whole: bool, a: DataValue, b: DataValue) -> int {
    if whole {
        data_order(a, b)
    } else {
        sort_order(a, b)
    }
}

/// The order of the keys at `x` and `y`, reversed when `rev` holds.
pub open spec fn data_dir_order(keys: Seq<DataValue>, whole: bool, rev: bool, x: int, y: int) -> int {
    if rev {
        order_by(whole, keys[y], keys[x])
    } else {
        order_by(whole, keys[x], keys[y])
    }
}

/// The keys are ordered consistently by [`order_by`].
pub open spec fn data_orderly(keys: Seq<DataValue>, whole: bool) -> bool {
    &&& forall|i: int, j: int|
        0 <= i < keys.len() && 0 <= j < keys.len() ==> #[trigger] order_by(whole, keys[i], keys[j]) == -order_by(
            whole,
            keys[j],
            keys[i],
        )
    &&& forall|i: int, j: int, l: int|
        0 <= i < keys.len() && 0 <= j < keys.len() && 0 <= l < keys.len() && #[trigger] order_by(
            whole,
            keys[i],
            keys[j],
        ) <= 0 && #[trigger] order_by(whole, keys[j], keys[l]) <= 0 ==> order_by(whole, keys[i], keys[l]) <= 0
}

/// No value is empty.
pub open spec fn no_empty(keys: Seq<DataValue>) -> bool {
    forall|i: int| 0 <= i < keys.len() ==> !(#[trigger] keys[i] is Empty)
}

/// Values that are none of them empty and all of one type are ordered
/// consistently by [`sort_order`].
pub proof fn lemma_typed_keys_orderly(keys: Seq<DataValue>, kind: ColumnType)
    requires
        no_empty(keys),
        forall|i: int| 0 <= i < keys.len() ==> kind_of(#[trigger] keys[i]) == kind,
    ensures
        data_orderly(keys, false),
{
    assert forall|i: int, j: int|
        0 <= i < keys.len() && 0 <= j < keys.len() implies #[trigger] order_by(false, keys[i], keys[j]) == -order_by(
        false,
        keys[j],
        keys[i],
    ) by {
        assert(!(keys[i] is Empty) && kind_of(keys[i]) == kind);
        assert(!(keys[j] is Empty) && kind_of(keys[j]) == kind);
        if let (DataValue::Text(x), DataValue::Text(y)) = (keys[i], keys[j]) {
            lemma_text_order(x, y, y);
        }
    }
    assert forall|i: int, j: int, l: int|
        0 <= i < keys.len() && 0 <= j < keys.len() && 0 <= l < keys.len() && #[trigger] order_by(
            false,
            keys[i],
            keys[j],
        ) <= 0 && #[trigger] order_by(false, keys[j], keys[l]) <= 0 implies order_by(false, keys[i], keys[l]) <= 0 by {
        assert(!(keys[i] is Empty) && kind_of(keys[i]) == kind);
        assert(!(keys[j] is Empty) && kind_of(keys[j]) == kind);
        assert(!(keys[l] is Empty) && kind_of(keys[l]) == kind);
        if let (DataValue::Text(x), DataValue::Text(y), DataValue::Text(z)) = (keys[i], keys[j], keys[l]) {
            lemma_text_order(x, y, z);
        }
    }
}

/// `p` lists positions in the order of their keys, keeping the first of two
/// equal keys first.
pub open spec fn data_sorted_stably(p: Seq<usize>, keys: Seq<DataValue>, whole: bool, rev: bool) -> bool {
    forall|i: int, j: int|
        0 <= i < j < p.len() ==> #[trigger] data_dir_order(keys, whole, rev, p[i] as int, p[j] as int) <= 0 && (
        data_dir_order(keys, whole, rev, p[i] as int, p[j] as int) == 0 ==> p[i] < p[j])
}

fn compare_data(a: &Data, b: &Data) -> (r: i8)
    ensures
        r == sort_order(a.value(), b.value()),
{
    match (a, b) {
        (Data::Empty, Data::Empty) => 0,
        (Data::Text(x), Data::Text(y)) => text_compare(x.as_str(), y.as_str()),
        (Data::Float(x), Data::Float(y)) => f32_total_order(*x, *y),
        (Data::Number(x), Data::Number(y)) => if *x < *y {
            -1
        } else if *x == *y {
            0
        } else {
            1
        },
        (Data::Integer(x), Data::Integer(y)) => if *x < *y {
            -1
        } else if *x == *y {
            0
        } else {
            1
        },
        (Data::Boolean(x), Data::Boolean(y)) => if *x == *y {
            0
        } else if !*x {
            -1
        } else {
            1
        },
        _ => 0,
    }
}

proof fn lemma_sort_order_range(a: DataValue, b: DataValue)
    ensures
        -1 <= sort_order(a, b) <= 1,
{
    match (a, b) {
        (DataValue::Text(x), DataValue::Text(y)) => {
            lemma_cell_order_range(CellValue::Text(x), CellValue::Text(y));
        },
        _ => {},
    }
}

proof fn lemma_order_by_range(whole: bool, a: DataValue, b: DataValue)
    ensures
        -1 <= order_by(whole, a, b) <= 1,
{
    lemma_sort_order_range(a, b);
}

/// Compares two values by [`data_order`].
pub(crate) fn compare_whole(a: &Data, b: &Data) -> (r: i8)
    ensures
        r == data_order(a.value(), b.value()),
{
    let ra = rank_of(a);
    let rb = rank_of(b);
    if ra < rb {
        -1
    } else if ra > rb {
        1
    } else {
        match (a, b) {
            (Data::Float(x), Data::Float(y)) => f32_value_compare(*x, *y),
            _ => compare_data(a, b),
        }
    }
}

fn rank_of(d: &Data) -> (r: u8)
    ensures
        r == type_rank(d.value()),
{
    match d {
        Data::Empty => 0,
        Data::Boolean(_) => 1,
        Data::Integer(_) => 2,
        Data::Float(_) => 3,
        Data::Number(_) => 4,
        Data::Text(_) => 5,
    }
}

fn compare_by(whole: bool, a: &Data, b: &Data) -> (r: i8)
    ensures
        r == order_by(whole, a.value(), b.value()),
{
    if whole {
        compare_whole(a, b)
    } else {
        compare_data(a, b)
    }
}

/// The positions of `keys` in the order of the keys (reversed when `rev`
/// holds), equal keys kept in their first order; some order of the positions
/// when the keys are not ordered consistently.
pub(crate) fn sort_data_indices(keys: &Vec<Data>, whole: bool, rev: bool) -> (p: Vec<usize>)
    ensures
        is_perm(p@, keys@.len()),
        data_orderly(keys@.map_values(|d: Data| d.value()), whole) ==> data_sorted_stably(
            p@,
            keys@.map_values(|d: Data| d.value()),
            whole,
            rev,
        ),
{
    let ghost ks = keys@.map_values(|d: Data| d.value());
    let n = keys.len();
    let mut p: Vec<usize> = Vec::new();
    let mut i: usize = 0;
    while i < n
        invariant
            n == keys@.len(),
            ks == keys@.map_values(|d: Data| d.value()),
            i <= n,
            p@.len() == i,
            forall|a: int| 0 <= a < p@.len() ==> #[trigger] p@[a] < i,
            forall|a: int, b: int| 0 <= a < p@.len() && 0 <= b < p@.len() && a != b ==> p@[a] != p@[b],
            data_orderly(ks, whole) ==> data_sorted_stably(p@, ks, whole, rev),
        decreases n - i,
    {
        let mut j: usize = p.len();
        while j > 0
            invariant
                n == keys@.len(),
                ks == keys@.map_values(|d: Data| d.value()),
                i < n,
                j <= p@.len(),
                p@.len() == i,
                forall|a: int| 0 <= a < p@.len() ==> #[trigger] p@[a] < i,
                forall|a: int| j <= a < p@.len() ==> #[trigger] data_dir_order(ks, whole, rev, p@[a] as int, i as int) == 1,
            ensures
                j <= p@.len(),
                forall|a: int| j <= a < p@.len() ==> #[trigger] data_dir_order(ks, whole, rev, p@[a] as int, i as int) == 1,
                j == 0 || data_dir_order(ks, whole, rev, p@[j - 1] as int, i as int) <= 0,
            decreases j,
        {
            let prev = p[j - 1];
            let o = if rev {
                compare_by(whole, &keys[i], &keys[prev])
            } else {
                compare_by(whole, &keys[prev], &keys[i])
            };
            if o <= 0 {
                break;
            }
            proof {
                lemma_order_by_range(whole, ks[prev as int], ks[i as int]);
                lemma_order_by_range(whole, ks[i as int], ks[prev as int]);
            }
            j = j - 1;
        }
        let ghost before = p@;
        p.insert(j, i);
        proof {
            assert forall|a: int| 0 <= a < p@.len() implies #[trigger] p@[a] < i + 1 by {
                if a < j {
                    assert(p@[a] == before[a]);
                } else if a > j {
                    assert(p@[a] == before[a - 1]);
                }
            }
            assert forall|a: int, b: int| 0 <= a < p@.len() && 0 <= b < p@.len() && a != b implies p@[a] != p@[b] by {
                if a != j && b != j {
                    let a0 = if a < j { a } else { a - 1 };
                    let b0 = if b < j { b } else { b - 1 };
                    assert(p@[a] == before[a0] && p@[b] == before[b0]);
                } else if a == j {
                    let b0 = if b < j { b } else { b - 1 };
                    assert(p@[b] == before[b0]);
                } else {
                    let a0 = if a < j { a } else { a - 1 };
                    assert(p@[a] == before[a0]);
                }
            }
            if data_orderly(ks, whole) {
                assert forall|a: int, b: int| 0 <= a < b < p@.len() implies #[trigger] data_dir_order(
                    ks,
                    whole,
                    rev,
                    p@[a] as int,
                    p@[b] as int,
                ) <= 0 && (data_dir_order(ks, whole, rev, p@[a] as int, p@[b] as int) == 0 ==> p@[a] < p@[b]) by {
                    if a != j && b != j {
                        let a0 = if a < j { a } else { a - 1 };
                        let b0 = if b < j { b } else { b - 1 };
                        assert(p@[a] == before[a0] && p@[b] == before[b0]);
                        assert(data_dir_order(ks, whole, rev, before[a0] as int, before[b0] as int) <= 0);
                    } else if a == j {
                        assert(p@[b] == before[b - 1]);
                        let x = before[b - 1] as int;
                        assert(data_dir_order(ks, whole, rev, x, i as int) == 1);
                        if rev {
                            assert(order_by(whole, ks[i as int], ks[x]) == -order_by(whole, ks[x], ks[i as int]));
                        } else {
                            assert(order_by(whole, ks[x], ks[i as int]) == -order_by(whole, ks[i as int], ks[x]));
                        }
                    } else {
                        assert(b == j);
                        assert(p@[a] == before[a]);
                        let x = before[a] as int;
                        let y = before[j - 1] as int;
                        assert(data_dir_order(ks, whole, rev, y, i as int) <= 0);
                        if a < j - 1 {
                            assert(data_dir_order(ks, whole, rev, x, y) <= 0);
                            if rev {
                                assert(order_by(whole, ks[i as int], ks[y]) <= 0 && order_by(whole, ks[y], ks[x]) <= 0);
                            } else {
                                assert(order_by(whole, ks[x], ks[y]) <= 0 && order_by(whole, ks[y], ks[i as int]) <= 0);
                            }
                        }
                    }
                }
            }
        }
        i = i + 1;
    }
    p
}

fn swap_rows_of(v: &mut Vec<Row>, x: usize, y: usize)
    requires
        x < old(v)@.len(),
        y < old(v)@.len(),
    ensures
        final(v)@ == swap_seq(old(v)@, x as int, y as int),
{
    if x != y {
        let rx = v.remove(x);
        let ry = if x < y {
            v.remove(y - 1)
        } else {
            v.remove(y)
        };
        if x < y {
            v.insert(x, ry);
            v.insert(y, rx);
        } else {
            v.insert(y, rx);
            v.insert(x, ry);
        }
    }
    assert(v@ =~= swap_seq(old(v)@, x as int, y as int));
}

impl Sheet {
    /// The contents of column `col`, top to bottom.
    pub open spec fn col_contents(&self, col: int) -> Seq<DataValue> {
        Seq::new(self.row_seq().len(), |i: int| self.row_seq()[i].contents()[col])
    }

    /// Every row has a cell at `col` that fits its header's column.
    pub open spec fn col_valid(&self, col: int) -> bool {
        forall|i: int|
            0 <= i < self.row_seq().len() ==> col < (#[trigger] self.row_seq()[i]).cell_seq().len()
                && fits_column(self.header_seq()[col].kind, self.row_seq()[i].contents()[col])
    }

    /// What sorting the rows by column `col` gives, by its result `r`.
    pub open spec fn rows_sorted_by(&self, prev: Self, col: int, rev: bool, r: Result<(), Error>) -> bool {
        &&& col >= prev.header_seq().len() ==> r is Err && r->Err_0 is InvalidColumnLength
        &&& col < prev.header_seq().len() && prev.header_seq()[col].kind == ColumnType::Untyped ==> r is Err
            && r->Err_0 is InvalidColumnSort
        &&& r is Ok <==> col < prev.header_seq().len() && prev.header_seq()[col].kind != ColumnType::Untyped
            && prev.col_valid(col)
        &&& r is Err ==> *self == prev
        &&& col < prev.header_seq().len() && prev.header_seq()[col].kind != ColumnType::Untyped
            && !prev.col_valid(col) ==> r is Err && (r->Err_0 is InvalidColumnLength || r->Err_0 is InvalidColumnType)
        &&& col < prev.header_seq().len() && prev.header_seq()[col].kind != ColumnType::Untyped
            && !prev.col_valid(col) && (forall|i: int|
            0 <= i < prev.row_seq().len() ==> col < (#[trigger] prev.row_seq()[i]).cell_seq().len()) ==> r is Err
            && r->Err_0 is InvalidColumnType
        &&& r is Ok ==> exists|p: Seq<usize>|
            #[trigger] is_perm(p, prev.row_seq().len()) && self.row_seq() == permuted(prev.row_seq(), p)
                && (data_orderly(prev.col_contents(col), false) ==> data_sorted_stably(p, prev.col_contents(col), false, rev))
                && (no_empty(prev.col_contents(col)) ==> data_sorted_stably(p, prev.col_contents(col), false, rev))
                && self.header_seq() == prev.header_seq() && self.primary() == prev.primary()
                && self.next_id() == prev.next_id()
    }

    fn validate_col(&self, col: usize) -> (r: Result<(), Error>)
        ensures
            r is Ok <==> col < self.header_seq().len() && self.col_valid(col as int),
            col >= self.header_seq().len() ==> r is Err && r->Err_0 is InvalidColumnLength,
            r is Err ==> r->Err_0 is InvalidColumnLength || r->Err_0 is InvalidColumnType,
            r is Err && col < self.header_seq().len() && (forall|i: int|
                0 <= i < self.row_seq().len() ==> col < (#[trigger] self.row_seq()[i]).cell_seq().len())
                ==> r->Err_0 is InvalidColumnType,
    {
        if col >= self.headers.len() {
            proof {
                reveal_strlit("Tried to access out of range column");
            }
            return Err(Error::InvalidColumnLength("Tried to access out of range column".to_owned()));
        }
        let hdr = &self.headers[col];
        let mut i: usize = 0;
        while i < self.rows.len()
            invariant
                i <= self.row_seq().len(),
                col < self.header_seq().len(),
                *hdr == self.header_seq()[col as int],
                forall|j: int|
                    0 <= j < i ==> col < (#[trigger] self.row_seq()[j]).cell_seq().len() && fits_column(
                        self.header_seq()[col as int].kind,
                        self.row_seq()[j].contents()[col as int],
                    ),
            decreases self.row_seq().len() - i,
        {
            match self.rows[i].validate_col(hdr, col) {
                Ok(()) => {},
                Err(e) => {
                    assert(self.row_seq()[i as int] == self.rows@[i as int]);
                    return Err(e);
                },
            }
            i = i + 1;
        }
        Ok(())
    }

    fn sort_rows_helper(&mut self, col: usize, rev: bool) -> (r: Result<(), Error>)
        ensures
            final(self).rows_sorted_by(*old(self), col as int, rev, r),
    {
        if col >= self.headers.len() {
            proof {
                reveal_strlit("Column out of range");
            }
            return Err(Error::InvalidColumnLength("Column out of range".to_owned()));
        }
        if self.headers[col].kind == ColumnType::Untyped {
            proof {
                reveal_strlit("Tried to sort by an unstructured column ");
            }
            return Err(Error::InvalidColumnSort("Tried to sort by an unstructured column ".to_owned()));
        }
        match self.validate_col(col) {
            Ok(()) => {},
            Err(e) => {
                return Err(e);
            },
        }
        let ghost keys_view = self.col_contents(col as int);
        let mut keys: Vec<Data> = Vec::new();
        let mut i: usize = 0;
        while i < self.rows.len()
            invariant
                i <= self.row_seq().len(),
                self.col_valid(col as int),
                keys@.len() == i,
                keys_view == self.col_contents(col as int),
                forall|k: int| 0 <= k < i ==> (#[trigger] keys@[k]).value() == keys_view[k],
            decreases self.row_seq().len() - i,
        {
            assert(col < self.rows@[i as int].cells@.len());
            keys.push(self.rows[i].cells[col].data.duplicate());
            i = i + 1;
        }
        assert(keys@.map_values(|d: Data| d.value()) =~= keys_view);
        let mut indices = sort_data_indices(&keys, false, rev);
        let ghost p = indices@;
        index_sort_swap(&mut indices);
        let ghost q = indices@;
        let mut pos: usize = 0;
        proof {
            assert(q.take(0) =~= Seq::<usize>::empty());
        }
        while pos < indices.len()
            invariant
                indices@ == q,
                pos <= q.len(),
                q.len() == old(self).row_seq().len(),
                forall|k: int| 0 <= k < q.len() ==> #[trigger] q[k] < q.len(),
                self.rows@ == swaps_applied(old(self).row_seq(), q.take(pos as int)),
                self.rows@.len() == old(self).row_seq().len(),
                self.headers == old(self).headers,
                self.primary_key == old(self).primary_key,
                self.id_counter == old(self).id_counter,
            decreases q.len() - pos,
        {
            let elem = indices[pos];
            swap_rows_of(&mut self.rows, pos, elem);
            proof {
                assert(q.take(pos + 1).drop_last() =~= q.take(pos as int));
            }
            pos = pos + 1;
        }
        proof {
            assert(q.take(q.len() as int) =~= q);
            lemma_swaps_follow_order(old(self).row_seq(), q, p);
            assert(is_perm(p, old(self).row_seq().len()));
            if no_empty(keys_view) {
                assert forall|k: int| 0 <= k < keys_view.len() implies kind_of(#[trigger] keys_view[k])
                    == old(self).header_seq()[col as int].kind by {
                    assert(fits_column(old(self).header_seq()[col as int].kind, old(self).row_seq()[k].contents()[col as int]));
                }
                lemma_typed_keys_orderly(keys_view, old(self).header_seq()[col as int].kind);
            }
        }
        Ok(())
    }

    /// Sorts the rows by the cells of column `col`, keeping rows with equal
    /// cells in order. Fails, changing nothing, if there is no such column,
    /// if it has no type in particular, or if a row has no fitting cell there.
    pub fn sort_rows(&mut self, col: usize) -> (r: Result<(), Error>)
        ensures
            final(self).rows_sorted_by(*old(self), col as int, false, r),
    {
        self.sort_rows_helper(col, false)
    }

    /// Sorts the rows like `sort_rows`, in reverse order.
    pub fn sort_rows_rev(&mut self, col: usize) -> (r: Result<(), Error>)
        ensures
            final(self).rows_sorted_by(*old(self), col as int, true, r),
    {
        self.sort_rows_helper(col, true)
    }
}

/// `t` is the label a header of a transposed sheet takes from a cell holding
/// `d`: nothing for an empty cell, else the value's text, written with
/// `float_text` for a float.
pub open spec fn is_label_of<F: Fn(u32) -> String>(t: String, d: DataValue, float_text: F) -> bool {
    if d is Empty {
        t@ == Seq::<char>::empty()
    } else {
        is_text_of(t, d, float_text)
    }
}

/// `d` is what the text `t` stands for, where `read_f32` reads 32 bit floats.
pub open spec fn is_read_from<G: Fn(&String) -> Option<u32>>(d: DataValue, t: String, read_f32: G) -> bool {
    exists|f: Option<u32>|
        #[trigger] call_ensures(read_f32, (&t,), f) && d == data_of(Reading { text: t, as_f32: f, as_f64: None })
}

/// `row` is row `i` of the transpose of `s`: column `i + 1` of `s`, after a
/// cell with what its header's label stands for.
pub open spec fn is_transposed_row<G: Fn(&String) -> Option<u32>>(row: Row, i: int, s: Sheet, read_f32: G) -> bool {
    let n = s.row_seq().len();
    &&& row.row_id() == i
    &&& row.primary_index() == 0
    &&& row.next_id() == n + 1
    &&& row.cell_seq().len() == n + 1
    &&& is_read_from(row.contents()[0], s.header_seq()[i + 1].label, read_f32)
    &&& forall|j: int| 0 <= j <= n ==> #[trigger] row.cell_seq()[j].cell_id() == j
    &&& forall|j: int| 1 <= j <= n ==> #[trigger] row.contents()[j] == s.row_seq()[j - 1].contents()[i + 1]
}

/// `t` is the transpose of the sheet `s`: the labels of its headers are the
/// label of the first header of `s` (or `initial`, where given), then the
/// texts of the first column of `s`; its rows are the other columns of `s`;
/// its column types are inferred from its cells.
pub open spec fn is_transposed<F: Fn(u32) -> String, G: Fn(&String) -> Option<u32>>(
    t: Sheet,
    s: Sheet,
    initial: Option<String>,
    float_text: F,
    read_f32: G,
) -> bool {
    let w = s.header_seq().len();
    let n = s.row_seq().len();
    let kinds = inferred_kinds(t.row_seq(), n + 1);
    &&& t.header_seq().len() == n + 1
    &&& t.header_seq()[0].label@ == match initial {
        Some(l) => l@,
        None => s.header_seq()[0].label@,
    }
    &&& forall|k: int|
        1 <= k <= n ==> is_label_of(#[trigger] t.header_seq()[k].label, s.row_seq()[k - 1].contents()[0], float_text)
    &&& forall|k: int|
        0 <= k <= n ==> (#[trigger] t.header_seq()[k]).kind == kinds[k]
    &&& t.row_seq().len() == w - 1
    &&& forall|i: int| 0 <= i < w - 1 ==> is_transposed_row(#[trigger] t.row_seq()[i], i, s, read_f32)
    &&& t.primary() == 0
    &&& t.next_id() == w - 1
}

impl Sheet {
    /// The transpose of a valid sheet: its columns become rows, and the
    /// cells of its first column the labels of the headers. The first header
    /// takes the label `initial_header` where given. Fails with the error of
    /// validating the sheet, or the transposed sheet.
    pub fn transpose<F: Fn(u32) -> String, G: Fn(&String) -> Option<u32>>(
        sheet: &Sheet,
        initial_header: Option<String>,
        float_text: &F,
        read_f32: &G,
    ) -> (r: Result<Sheet, Error>)
        requires
            forall|b: u32| call_requires(*float_text, (b,)),
            forall|t: String| call_requires(*read_f32, (&t,)),
            sheet.header_seq().len() > 0 || sheet.row_seq().len() > 0 || sheet.primary() != 0,
            sheet.row_seq().len() < usize::MAX,
        ensures
            r is Ok <==> sheet.valid(),
            r matches Ok(t) ==> sheet.valid() && is_transposed(t, *sheet, initial_header, *float_text, *read_f32)
                && t.valid() && t.unique_ids(),
            r matches Err(e) ==> if sheet.valid() {
                exists|t: Sheet|
                    is_transposed(t, *sheet, initial_header, *float_text, *read_f32) && #[trigger] t.validation(
                        Err::<(), Error>(e),
                    )
            } else {
                sheet.validation(Err::<(), Error>(e))
            },
    {
        match sheet.validate() {
            Ok(()) => {},
            Err(e) => {
                return Err(e);
            },
        }
        let width = sheet.headers.len();
        let n = sheet.rows.len();
        let depth = n + 1;
        proof {
            if n > 0 {
                assert(row_fits(sheet.row_seq()[0].contents(), sheet.header_seq()));
                assert(sheet.row_seq()[0].primary_index() < sheet.row_seq()[0].cell_seq().len());
            }
            assert forall|k: int| 0 <= k < n implies (#[trigger] sheet.row_seq()[k]).cell_seq().len() == width by {
                assert(row_fits(sheet.row_seq()[k].contents(), sheet.header_seq()));
            }
        }
        assert(width > 0);
        let ghost init = initial_header;
        let first_label = match initial_header {
            Some(l) => l,
            None => sheet.headers[0].label.clone(),
        };
        let mut headers: Vec<ColumnHeader> = Vec::new();
        headers.push(ColumnHeader { label: first_label, kind: ColumnType::Text });
        let mut j: usize = 0;
        while j < n
            invariant
                j <= n,
                n == sheet.row_seq().len(),
                width == sheet.header_seq().len(),
                width > 0,
                forall|k: int| 0 <= k < n ==> (#[trigger] sheet.row_seq()[k]).cell_seq().len() == width,
                forall|b: u32| call_requires(*float_text, (b,)),
                headers@.len() == j + 1,
                headers@[0].label@ == match init {
                    Some(l) => l@,
                    None => sheet.header_seq()[0].label@,
                },
                headers@[0].kind == ColumnType::Text,
                forall|k: int|
                    1 <= k <= j ==> is_label_of(#[trigger] headers@[k].label, sheet.row_seq()[k - 1].contents()[0], *float_text),
            decreases n - j,
        {
            let d = &sheet.rows[j].cells[0].data;
            let label = match d {
                Data::Empty => String::new(),
                _ => d.to_text(float_text),
            };
            headers.push(ColumnHeader { label, kind: ColumnType::Untyped });
            j = j + 1;
        }
        let mut rows: Vec<Row> = Vec::new();
        let mut idx: usize = 1;
        while idx < width
            invariant
                1 <= idx <= width,
                n == sheet.row_seq().len(),
                depth == n + 1,
                width == sheet.header_seq().len(),
                forall|k: int| 0 <= k < n ==> (#[trigger] sheet.row_seq()[k]).cell_seq().len() == width,
                forall|t: String| call_requires(*read_f32, (&t,)),
                rows@.len() == idx - 1,
                forall|i: int| 0 <= i < idx - 1 ==> is_transposed_row(#[trigger] rows@[i], i, *sheet, *read_f32),
            decreases width - idx,
        {
            let label = &sheet.headers[idx].label;
            let f = read_f32(label);
            let reading = Reading { text: label.clone(), as_f32: f, as_f64: None };
            let first = Cell::new(0, Data::from_reading(&reading));
            proof {
                assert(call_ensures(*read_f32, (&sheet.header_seq()[idx as int].label,), f));
            }
            let mut cells: Vec<Cell> = Vec::new();
            cells.push(first);
            let mut k: usize = 0;
            while k < n
                invariant
                    k <= n,
                    n == sheet.row_seq().len(),
                    idx < width,
                    forall|q: int| 0 <= q < n ==> (#[trigger] sheet.row_seq()[q]).cell_seq().len() == width,
                    cells@.len() == k + 1,
                    cells@[0] == first,
                    forall|q: int|
                        1 <= q <= k ==> (#[trigger] cells@[q]).cell_id() == q && cells@[q].content()
                            == sheet.row_seq()[q - 1].contents()[idx as int],
                decreases n - k,
            {
                assert(idx < sheet.rows@[k as int].cells@.len());
                let d = sheet.rows[k].cells[idx].data.duplicate();
                cells.push(Cell::new(k + 1, d));
                k = k + 1;
            }
            let row = Row { id: idx - 1, cells, primary: 0, id_counter: depth };
            proof {
                assert forall|q: int| 1 <= q <= n implies #[trigger] row.contents()[q]
                    == sheet.row_seq()[q - 1].contents()[idx as int] by {
                    assert(row.cell_seq()[q] == cells@[q]);
                }
                assert forall|q: int| 0 <= q <= n implies #[trigger] row.cell_seq()[q].cell_id() == q by {
                    assert(row.cell_seq()[q] == cells@[q]);
                }
                assert(row.contents()[0] == first.content());
                assert(is_transposed_row(row, idx - 1, *sheet, *read_f32));
            }
            rows.push(row);
            idx = idx + 1;
        }
        let mut sh = Sheet { rows, headers, id_counter: width - 1, primary_key: 0 };
        let ghost pre = sh;
        sh.infer_col_kinds(depth);
        proof {
            let kind_rows = sh.row_seq().map_values(|r: Row| kinds_of(r.contents()));
            assert forall|i: int| 0 <= i < kind_rows.len() implies (#[trigger] kind_rows[i]).len() >= depth by {
                assert(is_transposed_row(sh.row_seq()[i], i, *sheet, *read_f32));
            }
            lemma_fold_rows_len(kind_rows, depth as nat, kind_rows.len());
            assert(inferred_kinds(sh.row_seq(), depth as nat).len() == depth);
            assert(init == initial_header);
            assert forall|k: int| 1 <= k <= n implies is_label_of(#[trigger] sh.header_seq()[k].label, sheet.row_seq()[k - 1].contents()[0], *float_text) by {
                assert(sh.header_seq()[k].label == pre.header_seq()[k].label);
            }
            assert forall|i: int| 0 <= i < width - 1 implies is_transposed_row(#[trigger] sh.row_seq()[i], i, *sheet, *read_f32) by {
                assert(sh.row_seq()[i] == pre.row_seq()[i]);
            }
        }
        assert(is_transposed(sh, *sheet, initial_header, *float_text, *read_f32));
        proof {
            laws::law_transpose_of_valid_is_valid(sh, *sheet, initial_header, *float_text, *read_f32);
        }
        match sh.validate() {
            Ok(()) => Ok(sh),
            Err(e) => Err(e),
        }
    }
}

} // verus!
