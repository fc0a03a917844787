//! What holds of the operations of a column sheet taken together.
use vstd::prelude::*;

use super::column::spec_read_cell;
use super::column_sheet::{same_column, same_header, ColumnSheet, Error};
use super::utils::{swap_seq, Reading};
use super::column::Column;

verus! {

proof fn lemma_swap_twice<T>(s: Seq<T>, x: int, y: int)
    requires
        0 <= x < s.len(),
        0 <= y < s.len(),
    ensures
        swap_seq(swap_seq(s, x, y), x, y) == s,
{
    assert(swap_seq(swap_seq(s, x, y), x, y) =~= s);
}

/// Swapping two columns twice gives back the sheet, primary column included.
pub proof fn law_swap_cols_twice(s: ColumnSheet, t: ColumnSheet, u: ColumnSheet, x: usize, y: usize)
    requires
        x < s.cols().len(),
        y < s.cols().len(),
        t.cols_swapped(s, x, y),
        u.cols_swapped(t, x, y),
    ensures
        u.same_sheet(s),
{
    lemma_swap_twice(s.cols(), x as int, y as int);
}

/// Swapping two rows twice gives back the sheet, cell for cell.
pub proof fn law_swap_rows_twice(s: ColumnSheet, t: ColumnSheet, u: ColumnSheet, x: usize, y: usize)
    requires
        t.rows_swapped(s, x, y),
        u.rows_swapped(t, x, y),
    ensures
        u.equivalent(s),
{
    assert forall|c: int| 0 <= c < u.cols().len() implies same_column(#[trigger] u.cols()[c], s.cols()[c]) by {
        let sc = s.cols()[c].cells();
        assert(same_header(t.cols()[c], s.cols()[c]));
        if x < sc.len() && y < sc.len() {
            lemma_swap_twice(sc, x as int, y as int);
        }
    }
}

/// Inserting a row and then removing the row at the same place gives back
/// the sheet, cell for cell; for a sheet with rows, or for an empty row.
pub proof fn law_insert_then_remove_row(
    s: ColumnSheet,
    t: ColumnSheet,
    u: ColumnSheet,
    row: Seq<Reading>,
    idx: usize,
)
    requires
        s.rows() == 0 ==> row.len() == 0,
        t.inserted_row(s, row, idx as int, Ok(())),
        u.removed_row(t, idx as int, Ok(())),
    ensures
        u.equivalent(s),
{
    assert forall|c: int| 0 <= c < u.cols().len() implies same_column(#[trigger] u.cols()[c], s.cols()[c]) by {
        let sc = s.cols()[c].cells();
        assert(same_header(t.cols()[c], s.cols()[c]));
        assert(same_header(u.cols()[c], t.cols()[c]));
        if idx <= sc.len() {
            let v = t.cols()[c].cells()[idx as int];
            assert(sc.insert(idx as int, v).remove(idx as int) =~= sc);
        }
    }
}

/// Inserting a column and then removing the column at the same place gives
/// back the sheet, primary column included, and the removed column is the
/// one inserted; for a sheet with columns and a primary column, or with
/// neither and as high as the column.
pub proof fn law_insert_then_remove_col(
    s: ColumnSheet,
    t: ColumnSheet,
    u: ColumnSheet,
    column: Column,
    idx: usize,
    r: Result<Column, Error>,
)
    requires
        s.cols().len() == 0 ==> s.primary_col() is None && s.rows() == column.cells().len(),
        s.cols().len() > 0 ==> s.primary_col() is Some,
        s.primary_col() != Some(usize::MAX),
        t.inserted_col(s, column, idx as int, Ok(())),
        u.removed_col(t, idx as int, r),
    ensures
        u.same_sheet(s),
        r matches Ok(c) && same_column(c, column),
{
    assert(u.cols() =~= s.cols());
    if s.cols().len() > 0 {
        let p = s.primary_col()->Some_0;
        assert(t.cols().len() >= 2);
        if idx <= p {
            assert(t.primary_col() == Some((p + 1) as usize));
        } else {
            assert(t.primary_col() == Some(p));
        }
    }
}

/// A cell written into a sheet whose columns are as high as the sheet reads
/// back as what was written.
pub proof fn law_read_after_write(s: ColumnSheet, t: ColumnSheet, value: Reading, col: usize, row: usize)
    requires
        s.uniform(),
        col < s.cols().len(),
        row < s.rows(),
        t.cell_written(s, value, col, row),
    ensures
        t.cols()[col as int].cells()[row as int] == spec_read_cell(
            s.cols()[col as int].kind_view(),
            value,
            s.null_text(),
        )->Ok_0,
        forall|c: int| 0 <= c < s.cols().len() && c != col ==> #[trigger] t.cols()[c] == s.cols()[c],
        forall|i: int|
            0 <= i < s.rows() && i != row ==> #[trigger] t.cols()[col as int].cells()[i] == s.cols()[col as int].cells()[i],
{
    assert(s.cols()[col as int].cells().len() == s.rows());
}

} // verus!
