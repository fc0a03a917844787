//! Properties that span the operations on a [`Sheet`].
use vstd::prelude::*;

use super::super::col_sheet::sorting::{is_perm, permuted};
use super::{
    data_orderly, data_sorted_stably, inferred_kinds, is_label_of, is_read_from, is_transposed, is_transposed_row,
    kinds_of, row_fits, Error, Row, Sheet,
};
use super::super::col_sheet::ordering::text_order;
use super::super::floats::f32_rank;
use super::super::parse::{all_digits, is_digit, magnitude, spec_read_i32};
use super::super::col_sheet::utils::Reading;
use super::utils::{data_of, fits_column, kind_of, ColumnType, DataValue};
use super::{combine, fold_row, fold_rows, no_empty};

verus! {

/// Sorting the rows of a sheet, by either order, keeps it valid and keeps
/// its row ids unique, whether the sort succeeds or fails.
pub proof fn law_sort_keeps_sheet_invariants(s: Sheet, prev: Sheet, col: int, rev: bool, r: Result<(), Error>)
    requires
        prev.valid(),
        prev.unique_ids(),
        s.rows_sorted_by(prev, col, rev, r),
    ensures
        s.valid(),
        s.unique_ids(),
{
    if r is Ok {
        let p = choose|p: Seq<usize>|
            #[trigger] is_perm(p, prev.row_seq().len()) && s.row_seq() == permuted(prev.row_seq(), p)
                && (data_orderly(prev.col_contents(col), false) ==> data_sorted_stably(
                p,
                prev.col_contents(col),
                false,
                rev,
            )) && s.header_seq() == prev.header_seq() && s.primary() == prev.primary() && s.next_id()
                == prev.next_id();
        assert forall|i: int| 0 <= i < s.row_seq().len() implies #[trigger] s.row_seq()[i] == prev.row_seq()[p[i] as int] by {}
        assert forall|i: int| 0 <= i < s.row_seq().len() implies #[trigger] s.row_seq()[i].primary_index()
            < s.row_seq()[i].cell_seq().len() by {
            assert(s.row_seq()[i] == prev.row_seq()[p[i] as int]);
        }
        assert forall|i: int| 0 <= i < s.row_seq().len() implies row_fits(
            #[trigger] s.row_seq()[i].contents(),
            s.header_seq(),
        ) by {
            assert(s.row_seq()[i] == prev.row_seq()[p[i] as int]);
        }
        assert forall|i: int, j: int|
            0 <= i < s.row_seq().len() && 0 <= j < s.row_seq().len() && i != j implies #[trigger] s.row_seq()[i].row_id()
                != #[trigger] s.row_seq()[j].row_id() by {
            assert(s.row_seq()[i] == prev.row_seq()[p[i] as int]);
            assert(s.row_seq()[j] == prev.row_seq()[p[j] as int]);
            assert(p[i] != p[j]);
        }
    }
}

/// Transposing a sheet twice gives back its shape and every cell outside
/// its first column: the twice transposed sheet has as many headers and rows
/// as the sheet, and cell `j` of its row `i` is cell `j` of row `i` of the
/// sheet for every `j` past the first. Where neither transpose was given a
/// first label, the first header keeps its label too. (The first column and
/// the other labels pass through text and are read back.)
pub proof fn law_transpose_twice<F: Fn(u32) -> String, G: Fn(&String) -> Option<u32>>(
    s: Sheet,
    t: Sheet,
    u: Sheet,
    first: Option<String>,
    second: Option<String>,
    float_text: F,
    read_f32: G,
)
    requires
        is_transposed(t, s, first, float_text, read_f32),
        is_transposed(u, t, second, float_text, read_f32),
    ensures
        u.header_seq().len() == s.header_seq().len(),
        u.row_seq().len() == s.row_seq().len(),
        forall|i: int, j: int|
            0 <= i < s.row_seq().len() && 1 <= j < s.header_seq().len() ==> #[trigger] u.row_seq()[i].contents()[j]
                == s.row_seq()[i].contents()[j],
        first is None && second is None ==> u.header_seq()[0].label@ == s.header_seq()[0].label@,
{
    let w = s.header_seq().len();
    let n = s.row_seq().len();
    assert forall|i: int, j: int| 0 <= i < n && 1 <= j < w implies #[trigger] u.row_seq()[i].contents()[j]
        == s.row_seq()[i].contents()[j] by {
        assert(is_transposed_row(u.row_seq()[i], i, t, read_f32));
        assert(is_transposed_row(t.row_seq()[j - 1], j - 1, s, read_f32));
        assert(u.row_seq()[i].contents()[j] == t.row_seq()[j - 1].contents()[i + 1]);
    }
}

/// The two sheets agree in everything a contract sees of them: their headers'
/// labels (as text) and types, their rows' ids, primary indices, next ids,
/// cell ids and contents, their primary keys and next ids.
pub open spec fn sheets_agree(a: Sheet, b: Sheet) -> bool {
    &&& a.header_seq().len() == b.header_seq().len()
    &&& forall|k: int|
        0 <= k < a.header_seq().len() ==> (#[trigger] a.header_seq()[k]).label@ == b.header_seq()[k].label@
            && a.header_seq()[k].kind == b.header_seq()[k].kind
    &&& a.row_seq().len() == b.row_seq().len()
    &&& forall|i: int|
        0 <= i < a.row_seq().len() ==> {
            let x = #[trigger] a.row_seq()[i];
            let y = b.row_seq()[i];
            &&& x.row_id() == y.row_id()
            &&& x.primary_index() == y.primary_index()
            &&& x.next_id() == y.next_id()
            &&& x.cell_seq().len() == y.cell_seq().len()
            &&& x.contents() == y.contents()
            &&& forall|j: int| 0 <= j < x.cell_seq().len() ==> #[trigger] x.cell_seq()[j].cell_id() == y.cell_seq()[j].cell_id()
        }
    &&& a.primary() == b.primary()
    &&& a.next_id() == b.next_id()
}

/// A value that writing as a label and reading back gives back.
pub open spec fn value_survives<F: Fn(u32) -> String, G: Fn(&String) -> Option<u32>>(
    d: DataValue,
    float_text: F,
    read_f32: G,
) -> bool {
    forall|t: String, e: DataValue|
        #![trigger is_label_of(t, d, float_text), is_read_from(e, t, read_f32)]
        is_label_of(t, d, float_text) && is_read_from(e, t, read_f32) ==> e == d
}

/// A label that reading as a value and writing back gives back.
pub open spec fn label_survives<F: Fn(u32) -> String, G: Fn(&String) -> Option<u32>>(
    l: String,
    float_text: F,
    read_f32: G,
) -> bool {
    forall|e: DataValue, t: String|
        #![trigger is_read_from(e, l, read_f32), is_label_of(t, e, float_text)]
        is_read_from(e, l, read_f32) && is_label_of(t, e, float_text) ==> t@ == l@
}

/// A sheet as it is read: its rows numbered from 0 with primary index 0 and
/// cells numbered from 0, as many as the headers, primary key 0, and the
/// type of each header the one its column shows.
pub open spec fn plainly_read(s: Sheet) -> bool {
    let w = s.header_seq().len();
    &&& s.valid()
    &&& s.primary() == 0
    &&& s.next_id() == s.row_seq().len()
    &&& forall|i: int|
        0 <= i < s.row_seq().len() ==> {
            let x = #[trigger] s.row_seq()[i];
            &&& x.row_id() == i
            &&& x.primary_index() == 0
            &&& x.next_id() == w
            &&& forall|j: int| 0 <= j < w ==> #[trigger] x.cell_seq()[j].cell_id() == j
        }
    &&& forall|k: int| 0 <= k < w ==> (#[trigger] s.header_seq()[k]).kind == inferred_kinds(s.row_seq(), w)[k]
}

/// Transposing twice, with no first label given either time, gives back a
/// sheet as it is read, where its labels (past the first) and the values of
/// its first column come back from being written as text and read again.
pub proof fn law_transpose_twice_is_identity<F: Fn(u32) -> String, G: Fn(&String) -> Option<u32>>(
    s: Sheet,
    t: Sheet,
    u: Sheet,
    float_text: F,
    read_f32: G,
)
    requires
        plainly_read(s),
        forall|k: int| 1 <= k < s.header_seq().len() ==> label_survives(#[trigger] s.header_seq()[k].label, float_text, read_f32),
        forall|i: int|
            0 <= i < s.row_seq().len() ==> value_survives(#[trigger] s.row_seq()[i].contents()[0], float_text, read_f32),
        is_transposed(t, s, None, float_text, read_f32),
        is_transposed(u, t, None, float_text, read_f32),
    ensures
        sheets_agree(u, s),
{
    let w = s.header_seq().len();
    let n = s.row_seq().len();
    assert forall|i: int| 0 <= i < n implies #[trigger] u.row_seq()[i].contents() == s.row_seq()[i].contents() by {
        let x = u.row_seq()[i];
        let y = s.row_seq()[i];
        assert(is_transposed_row(x, i, t, read_f32));
        assert(row_fits(y.contents(), s.header_seq()));
        assert forall|j: int| 0 <= j < w implies x.contents()[j] == y.contents()[j] by {
            if j == 0 {
                let l = t.header_seq()[i + 1].label;
                assert(is_label_of(l, y.contents()[0], float_text));
                assert(is_read_from(x.contents()[0], l, read_f32));
                assert(value_survives(y.contents()[0], float_text, read_f32));
            } else {
                assert(is_transposed_row(t.row_seq()[j - 1], j - 1, s, read_f32));
                assert(x.contents()[j] == t.row_seq()[j - 1].contents()[i + 1]);
            }
        }
        assert(x.contents() =~= y.contents());
    }
    assert(u.row_seq().map_values(|r: Row| kinds_of(r.contents())) =~= s.row_seq().map_values(
        |r: Row| kinds_of(r.contents()),
    ));
    assert(inferred_kinds(u.row_seq(), w) == inferred_kinds(s.row_seq(), w));
    assert forall|k: int| 0 <= k < w implies (#[trigger] u.header_seq()[k]).label@ == s.header_seq()[k].label@
        && u.header_seq()[k].kind == s.header_seq()[k].kind by {
        if k >= 1 {
            let e = t.row_seq()[k - 1].contents()[0];
            assert(is_transposed_row(t.row_seq()[k - 1], k - 1, s, read_f32));
            assert(is_read_from(e, s.header_seq()[k].label, read_f32));
            assert(is_label_of(u.header_seq()[k].label, e, float_text));
            assert(label_survives(s.header_seq()[k].label, float_text, read_f32));
        }
    }
    assert forall|i: int| 0 <= i < n implies {
        let x = #[trigger] u.row_seq()[i];
        let y = s.row_seq()[i];
        &&& x.row_id() == y.row_id()
        &&& x.primary_index() == y.primary_index()
        &&& x.next_id() == y.next_id()
        &&& x.cell_seq().len() == y.cell_seq().len()
        &&& x.contents() == y.contents()
        &&& forall|j: int| 0 <= j < x.cell_seq().len() ==> #[trigger] x.cell_seq()[j].cell_id() == y.cell_seq()[j].cell_id()
    } by {
        let x = u.row_seq()[i];
        let y = s.row_seq()[i];
        assert(is_transposed_row(x, i, t, read_f32));
        assert(row_fits(y.contents(), s.header_seq()));
        assert(y.contents().len() == y.cell_seq().len());
    }
}

/// `a` may stand before `b` in a column sorted ascending: integers and
/// numbers by value, floats in the total order of IEEE 754 (by rank), texts
/// character by character, `false` before `true`.
pub open spec fn ascending_pair(a: DataValue, b: DataValue) -> bool {
    match (a, b) {
        (DataValue::Integer(x), DataValue::Integer(y)) => x <= y,
        (DataValue::Number(x), DataValue::Number(y)) => x <= y,
        (DataValue::Float(x), DataValue::Float(y)) => f32_rank(x) <= f32_rank(y),
        (DataValue::Text(x), DataValue::Text(y)) => text_order(x, y) <= 0,
        (DataValue::Boolean(x), DataValue::Boolean(y)) => !x || y,
        _ => false,
    }
}

/// A successful sort of the rows by a column without empty cells puts the
/// values of that column in ascending order (descending when `rev` holds):
/// for every two rows, the upper one's value may stand before the lower
/// one's, or after it when descending.
pub proof fn law_sorted_rows_ascend(s: Sheet, prev: Sheet, col: int, rev: bool, r: Result<(), Error>)
    requires
        s.rows_sorted_by(prev, col, rev, r),
        r is Ok,
        no_empty(prev.col_contents(col)),
    ensures
        forall|i: int, j: int|
            0 <= i < j < s.row_seq().len() ==> if rev {
                ascending_pair(#[trigger] s.row_seq()[j].contents()[col], #[trigger] s.row_seq()[i].contents()[col])
            } else {
                ascending_pair(s.row_seq()[i].contents()[col], s.row_seq()[j].contents()[col])
            },
{
    let keys = prev.col_contents(col);
    let kind = prev.header_seq()[col].kind;
    let p = choose|p: Seq<usize>|
        #[trigger] is_perm(p, prev.row_seq().len()) && s.row_seq() == permuted(prev.row_seq(), p) && (data_orderly(
            keys,
            false,
        ) ==> data_sorted_stably(p, keys, false, rev)) && (no_empty(keys) ==> data_sorted_stably(p, keys, false, rev))
            && s.header_seq() == prev.header_seq() && s.primary() == prev.primary() && s.next_id() == prev.next_id();
    assert forall|i: int, j: int| 0 <= i < j < s.row_seq().len() implies if rev {
        ascending_pair(#[trigger] s.row_seq()[j].contents()[col], #[trigger] s.row_seq()[i].contents()[col])
    } else {
        ascending_pair(s.row_seq()[i].contents()[col], s.row_seq()[j].contents()[col])
    } by {
        let a = p[i] as int;
        let b = p[j] as int;
        assert(s.row_seq()[i] == prev.row_seq()[a]);
        assert(s.row_seq()[j] == prev.row_seq()[b]);
        assert(keys[a] == prev.row_seq()[a].contents()[col]);
        assert(keys[b] == prev.row_seq()[b].contents()[col]);
        assert(!(keys[a] is Empty) && !(keys[b] is Empty));
        assert(fits_column(kind, keys[a]) && fits_column(kind, keys[b]));
        assert(kind_of(keys[a]) == kind && kind_of(keys[b]) == kind);
        assert(super::data_dir_order(keys, false, rev, a, b) <= 0);
    }
}

/// Folding rows into what is known of the columns: a column known to have
/// type `k` has only cells that fit `k`, and a column nothing is known of
/// has only empty cells.
spec fn fold_fits(known: Seq<Option<ColumnType>>, rows: Seq<Seq<DataValue>>, k: nat, len: nat) -> bool {
    &&& known.len() == len
    &&& forall|i: int, c: int|
        #![trigger known[c], rows[i][c]]
        0 <= i < k && 0 <= c < len ==> match known[c] {
            Some(t) => fits_column(t, rows[i][c]),
            None => rows[i][c] is Empty,
        }
}

proof fn lemma_fold_row_at(acc: Seq<Option<ColumnType>>, kinds: Seq<ColumnType>, j: nat, c: int)
    requires
        0 <= c < j,
    ensures
        fold_row(acc, kinds, j).len() == j,
        fold_row(acc, kinds, j)[c] == combine(acc[c], kinds[c]),
    decreases j,
{
    if c < j - 1 {
        lemma_fold_row_at(acc, kinds, (j - 1) as nat, c);
    } else if j > 1 {
        lemma_fold_row_at(acc, kinds, (j - 1) as nat, 0);
    }
    if j == 1 {
        assert(fold_row(acc, kinds, 0).len() == 0);
    }
}

proof fn lemma_fold_rows_fit(rows: Seq<Row>, len: nat, k: nat)
    requires
        k <= rows.len(),
        forall|i: int| 0 <= i < rows.len() ==> (#[trigger] rows[i]).contents().len() >= len,
    ensures
        fold_fits(
            fold_rows(rows.map_values(|r: Row| kinds_of(r.contents())), len, k),
            rows.map_values(|r: Row| r.contents()),
            k,
            len,
        ),
    decreases k,
{
    let kr = rows.map_values(|r: Row| kinds_of(r.contents()));
    let cs = rows.map_values(|r: Row| r.contents());
    if k > 0 {
        lemma_fold_rows_fit(rows, len, (k - 1) as nat);
        let acc = fold_rows(kr, len, (k - 1) as nat);
        let row = kr[k - 1];
        assert(row == kinds_of(rows[k - 1].contents()));
        assert(row.len() >= len);
        let m = if acc.len() < row.len() { acc.len() } else { row.len() };
        assert(m == len);
        let now = fold_rows(kr, len, k);
        assert(now == fold_row(acc, row, m));
        if len > 0 {
            lemma_fold_row_at(acc, row, m, 0);
        } else {
            assert(fold_row(acc, row, 0).len() == 0);
        }
        assert forall|i: int, c: int| #![trigger now[c], cs[i][c]] 0 <= i < k && 0 <= c < len implies match now[c] {
            Some(t) => fits_column(t, cs[i][c]),
            None => cs[i][c] is Empty,
        } by {
            lemma_fold_row_at(acc, row, m, c);
            assert(row[c] == kind_of(rows[k - 1].contents()[c]));
            assert(cs[k - 1] == rows[k - 1].contents());
            if i < k - 1 {
                assert(match acc[c] {
                    Some(t) => fits_column(t, cs[i][c]),
                    None => cs[i][c] is Empty,
                });
            }
        }
    } else {
        assert(fold_rows(kr, len, 0) =~= Seq::new(len, |i: int| None::<ColumnType>));
    }
}

/// The type inferred for a column is one every cell of that column fits:
/// inferring the types of a sheet's columns never leaves a cell outside its
/// column's type. A column whose cells are of two types is of no type in
/// particular.
pub proof fn law_inferred_kinds_fit(rows: Seq<Row>, len: nat)
    requires
        forall|i: int| 0 <= i < rows.len() ==> (#[trigger] rows[i]).contents().len() >= len,
    ensures
        inferred_kinds(rows, len).len() == len,
        forall|i: int, c: int|
            0 <= i < rows.len() && 0 <= c < len ==> fits_column(
                #[trigger] inferred_kinds(rows, len)[c],
                #[trigger] rows[i].contents()[c],
            ),
{
    lemma_fold_rows_fit(rows, len, rows.len());
    let kr = rows.map_values(|r: Row| kinds_of(r.contents()));
    let cs = rows.map_values(|r: Row| r.contents());
    let known = fold_rows(kr, len, rows.len());
    assert forall|i: int, c: int| 0 <= i < rows.len() && 0 <= c < len implies fits_column(
        #[trigger] inferred_kinds(rows, len)[c],
        #[trigger] rows[i].contents()[c],
    ) by {
        assert(cs[i] == rows[i].contents());
        assert(match known[c] {
            Some(t) => fits_column(t, cs[i][c]),
            None => cs[i][c] is Empty,
        });
    }
}

/// The transpose of a valid sheet is valid: its rows have a cell for every
/// header, each fitting the type inferred for its column, and its primary
/// key is the first column.
pub proof fn law_transpose_of_valid_is_valid<F: Fn(u32) -> String, G: Fn(&String) -> Option<u32>>(
    t: Sheet,
    s: Sheet,
    initial: Option<String>,
    float_text: F,
    read_f32: G,
)
    requires
        s.valid(),
        is_transposed(t, s, initial, float_text, read_f32),
    ensures
        t.valid(),
{
    let n = s.row_seq().len();
    assert forall|i: int| 0 <= i < t.row_seq().len() implies (#[trigger] t.row_seq()[i]).contents().len() >= n + 1 by {
        assert(is_transposed_row(t.row_seq()[i], i, s, read_f32));
    }
    law_inferred_kinds_fit(t.row_seq(), (n + 1) as nat);
    assert forall|i: int| 0 <= i < t.row_seq().len() implies #[trigger] t.row_seq()[i].primary_index()
        < t.row_seq()[i].cell_seq().len() by {
        assert(is_transposed_row(t.row_seq()[i], i, s, read_f32));
    }
    assert forall|i: int| 0 <= i < t.row_seq().len() implies row_fits(#[trigger] t.row_seq()[i].contents(), t.header_seq()) by {
        let row = t.row_seq()[i];
        assert(is_transposed_row(row, i, s, read_f32));
        assert forall|c: int| 0 <= c < row.contents().len() implies #[trigger] fits_column(t.header_seq()[c].kind, row.contents()[c]) by {
            assert(t.header_seq()[c].kind == inferred_kinds(t.row_seq(), n + 1)[c]);
            assert(fits_column(inferred_kinds(t.row_seq(), (n + 1) as nat)[c], t.row_seq()[i].contents()[c]));
        }
    }
}

/// A field reading `true` or `false` holds that boolean, whatever else is
/// known of it (such as what a float reader made of it).
pub proof fn law_read_booleans(r: Reading)
    ensures
        r.text@ == seq!['t', 'r', 'u', 'e'] ==> data_of(r) == DataValue::Boolean(true),
        r.text@ == seq!['f', 'a', 'l', 's', 'e'] ==> data_of(r) == DataValue::Boolean(false),
{
    let t = r.text@;
    if t == seq!['t', 'r', 'u', 'e'] || t == seq!['f', 'a', 'l', 's', 'e'] {
        assert(!is_digit(t[0]));
        assert(t[0] != '-' && t[0] != '+');
        assert(!all_digits(t));
        assert(magnitude(t) is None);
        assert(spec_read_i32(t) is None);
    }
}

} // verus!
