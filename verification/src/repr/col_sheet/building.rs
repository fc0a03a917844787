//! How columns are made from the fields of delimited text.
use vstd::prelude::*;

use super::super::config::{Config, HeaderStrategy};
use super::super::sheet::utils::{ColumnType, TypesStrategy};
use super::column_sheet::ColumnSheet;
use super::arraybool::ArrayBool;
use super::arrayf32::ArrayF32;
use super::arrayf64::ArrayF64;
use super::arrayi32::ArrayI32;
use super::arrayisize::ArrayISize;
use super::arraytext::ArrayText;
use super::arrayu32::ArrayU32;
use super::arrayusize::ArrayUSize;
use super::column::{spec_read_cell, CellValue, Column};
use super::utils::{spec_parse_cell, spec_parse_f32_cell, spec_parse_f64_cell, DataType, Reading};

verus! {

/// How the type of a single column is found.
#[derive(Debug, Clone, Copy, PartialEq, Eq, Structural)]
pub enum ColumnStrategy {
    /// The column is text.
    NoType,
    /// The first type that every field reads as.
    Infer,
    /// The first of the types the given column type stands for that every
    /// field reads as.
    Type(ColumnType),
}

/// The data types tried, in order, before falling back to text.
pub open spec fn candidates(s: ColumnStrategy) -> Seq<DataType> {
    match s {
        ColumnStrategy::NoType => seq![],
        ColumnStrategy::Infer => seq![
            DataType::I32,
            DataType::U32,
            DataType::ISize,
            DataType::USize,
            DataType::Bool,
            DataType::F32,
            DataType::F64,
        ],
        ColumnStrategy::Type(t) => match t {
            ColumnType::Untyped => seq![],
            ColumnType::Text => seq![],
            ColumnType::Integer => seq![DataType::I32, DataType::U32],
            ColumnType::Number => seq![DataType::ISize, DataType::USize],
            ColumnType::Float => seq![DataType::F32, DataType::F64],
            ColumnType::Boolean => seq![DataType::Bool],
        },
    }
}

/// What reading a field into a cell of type `kind` gives; a missing field is
/// an empty cell.
pub open spec fn read_field(kind: DataType, f: Option<Reading>, null: Seq<char>) -> Result<
    CellValue,
    (),
> {
    match f {
        Some(r) => spec_read_cell(kind, r, null),
        None => Ok(CellValue::Null),
    }
}

/// Every field reads as a cell of type `kind`.
pub open spec fn all_read(kind: DataType, fields: Seq<Option<Reading>>, null: Seq<char>) -> bool {
    forall|i: int| 0 <= i < fields.len() ==> #[trigger] read_field(kind, fields[i], null) is Ok
}

/// The first of `cands` that every field reads as, or text.
pub open spec fn chosen_kind(cands: Seq<DataType>, fields: Seq<Option<Reading>>, null: Seq<char>) -> DataType
    decreases cands.len(),
{
    if cands.len() == 0 {
        DataType::Text
    } else if all_read(cands[0], fields, null) {
        cands[0]
    } else {
        chosen_kind(cands.drop_first(), fields, null)
    }
}

/// The cells read from `fields` as type `kind`, unreadable ones empty.
pub open spec fn read_fields(kind: DataType, fields: Seq<Option<Reading>>, null: Seq<char>) -> Seq<CellValue> {
    fields.map_values(
        |f: Option<Reading>|
            match read_field(kind, f, null) {
                Ok(v) => v,
                Err(_) => CellValue::Null,
            },
    )
}

/// `c` is the column read from `fields` with the given header and strategy.
pub open spec fn is_parsed_column(
    c: Column,
    fields: Seq<Option<Reading>>,
    header: Option<Seq<char>>,
    strategy: ColumnStrategy,
    null: Seq<char>,
) -> bool {
    let kind = chosen_kind(candidates(strategy), fields, null);
    &&& c.kind_view() == kind
    &&& c.cells() == read_fields(kind, fields, null)
    &&& c.label_view() == header
}

/// The fields of a column whose every field is present.
pub open spec fn present(col: Seq<Reading>) -> Seq<Option<Reading>> {
    col.map_values(|r: Reading| Some(r))
}

/// The characters of an optional string.
pub open spec fn label_of(h: Option<String>) -> Option<Seq<char>> {
    match h {
        Some(s) => Some(s@),
        None => None,
    }
}

/// The type of a column read by a strategy: a column declared of a type is
/// read as the first of that type's data types that every field reads as
/// (floats as 32 bit floats, else 64 bit; integers as `i32`, else `u32`;
/// numbers as `isize`, else `usize`; booleans as `bool`), and as text when
/// none fits; a text column, a column of no type, and a column with no type
/// strategy are text; an inferred column takes the first of `i32`, `u32`,
/// `isize`, `usize`, `bool`, `f32`, `f64` that fits, else text.
pub proof fn law_parsed_column_kind(
    c: Column,
    fields: Seq<Option<Reading>>,
    header: Option<Seq<char>>,
    strategy: ColumnStrategy,
    null: Seq<char>,
)
    requires
        is_parsed_column(c, fields, header, strategy, null),
    ensures
        strategy == ColumnStrategy::Type(ColumnType::Float) ==> c.kind_view() == if all_read(DataType::F32, fields, null) {
            DataType::F32
        } else if all_read(DataType::F64, fields, null) {
            DataType::F64
        } else {
            DataType::Text
        },
        strategy == ColumnStrategy::Type(ColumnType::Integer) ==> c.kind_view() == if all_read(DataType::I32, fields, null) {
            DataType::I32
        } else if all_read(DataType::U32, fields, null) {
            DataType::U32
        } else {
            DataType::Text
        },
        strategy == ColumnStrategy::Type(ColumnType::Number) ==> c.kind_view() == if all_read(DataType::ISize, fields, null) {
            DataType::ISize
        } else if all_read(DataType::USize, fields, null) {
            DataType::USize
        } else {
            DataType::Text
        },
        strategy == ColumnStrategy::Type(ColumnType::Boolean) ==> c.kind_view() == if all_read(DataType::Bool, fields, null) {
            DataType::Bool
        } else {
            DataType::Text
        },
        strategy == ColumnStrategy::Type(ColumnType::Text) || strategy == ColumnStrategy::Type(ColumnType::Untyped)
            || strategy == ColumnStrategy::NoType ==> c.kind_view() == DataType::Text,
        strategy == ColumnStrategy::Infer ==> c.kind_view() == if all_read(DataType::I32, fields, null) {
            DataType::I32
        } else if all_read(DataType::U32, fields, null) {
            DataType::U32
        } else if all_read(DataType::ISize, fields, null) {
            DataType::ISize
        } else if all_read(DataType::USize, fields, null) {
            DataType::USize
        } else if all_read(DataType::Bool, fields, null) {
            DataType::Bool
        } else if all_read(DataType::F32, fields, null) {
            DataType::F32
        } else if all_read(DataType::F64, fields, null) {
            DataType::F64
        } else {
            DataType::Text
        },
        c.cells() == read_fields(c.kind_view(), fields, null),
        c.label_view() == header,
{
    let cs = candidates(strategy);
    reveal_with_fuel(chosen_kind, 8);
    if cs.len() > 0 {
        assert(cs.drop_first() == cs.subrange(1, cs.len() as int));
    }
    match strategy {
        ColumnStrategy::Infer => {
            assert(cs.drop_first() =~= seq![DataType::U32, DataType::ISize, DataType::USize, DataType::Bool, DataType::F32, DataType::F64]);
            assert(cs.drop_first().drop_first() =~= seq![DataType::ISize, DataType::USize, DataType::Bool, DataType::F32, DataType::F64]);
            assert(cs.drop_first().drop_first().drop_first() =~= seq![DataType::USize, DataType::Bool, DataType::F32, DataType::F64]);
            assert(cs.drop_first().drop_first().drop_first().drop_first() =~= seq![DataType::Bool, DataType::F32, DataType::F64]);
            assert(cs.drop_first().drop_first().drop_first().drop_first().drop_first() =~= seq![DataType::F32, DataType::F64]);
            assert(cs.drop_first().drop_first().drop_first().drop_first().drop_first().drop_first() =~= seq![DataType::F64]);
            assert(cs.drop_first().drop_first().drop_first().drop_first().drop_first().drop_first().drop_first() =~= Seq::<DataType>::empty());
        },
        ColumnStrategy::Type(t) => {
            if cs.len() == 2 {
                assert(cs.drop_first() =~= seq![cs[1]]);
                assert(cs.drop_first().drop_first() =~= Seq::<DataType>::empty());
            } else if cs.len() == 1 {
                assert(cs.drop_first() =~= Seq::<DataType>::empty());
            }
        },
        _ => {},
    }
}

/// The strategy for the column at `idx`, if the types strategy has one.
pub open spec fn strategy_at(strat: TypesStrategy, idx: int) -> Option<ColumnStrategy> {
    match strat {
        TypesStrategy::Provided(types) => if 0 <= idx < types@.len() {
            Some(ColumnStrategy::Type(types@[idx]))
        } else {
            None
        },
        TypesStrategy::NoTypes => Some(ColumnStrategy::NoType),
        TypesStrategy::Infer => Some(ColumnStrategy::Infer),
    }
}

/// Yields the strategy of each column in turn.
pub struct StrategyIter {
    strat: TypesStrategy,
    idx: usize,
}

impl StrategyIter {
    pub closed spec fn strategy(&self) -> TypesStrategy {
        self.strat
    }

    pub closed spec fn position(&self) -> nat {
        self.idx as nat
    }

    pub fn new(value: TypesStrategy) -> (r: Self)
        ensures
            r.strategy() == value,
            r.position() == 0,
    {
        Self { strat: value, idx: 0 }
    }

    /// The strategy of the next column.
    pub fn next(&mut self) -> (r: Option<ColumnStrategy>)
        requires
            old(self).position() < usize::MAX,
        ensures
            r == strategy_at(old(self).strategy(), old(self).position() as int),
            final(self).strategy() == old(self).strategy(),
            final(self).position() == old(self).position() + 1,
    {
        let idx = self.idx;
        self.idx = self.idx + 1;
        match &self.strat {
            TypesStrategy::Provided(headers) => if idx < headers.len() {
                Some(ColumnStrategy::Type(headers[idx]))
            } else {
                None
            },
            TypesStrategy::NoTypes => Some(ColumnStrategy::NoType),
            TypesStrategy::Infer => Some(ColumnStrategy::Infer),
        }
    }
}

/// The column of type `kind` read from `col`, if every field reads as that type.
fn try_kind(kind: DataType, texts: &Vec<String>, col: &Vec<Reading>, null: &str) -> (r: Option<Column>)
    requires
        texts@.len() == col@.len(),
        forall|i: int| 0 <= i < col@.len() ==> #[trigger] texts@[i]@ == col@[i].text@,
    ensures
        r is Some <==> all_read(kind, present(col@), null@),
        r matches Some(c) ==> c.kind_view() == kind && c.cells() == read_fields(kind, present(col@), null@)
            && c.label_view() is None,
{
    let ghost f = present(col@);
    let r = match kind {
        DataType::I32 => match ArrayI32::parse_str(texts, null) {
            Some(a) => {
                proof {
                    assert forall|i: int| 0 <= i < f.len() implies #[trigger] read_field(kind, f[i], null@) is Ok by {
                        assert(spec_parse_cell::<i32>(texts@[i]@, null@) is Ok);
                    }
                }
                Some(Column::I32(a))
            },
            None => {
                proof {
                    let i = choose|i: int| 0 <= i < col@.len() && !(spec_parse_cell::<i32>(texts@[i]@, null@) is Ok);
                    assert(!(read_field(kind, f[i], null@) is Ok));
                }
                None
            },
        },
        DataType::U32 => match ArrayU32::parse_str(texts, null) {
            Some(a) => {
                proof {
                    assert forall|i: int| 0 <= i < f.len() implies #[trigger] read_field(kind, f[i], null@) is Ok by {
                        assert(spec_parse_cell::<u32>(texts@[i]@, null@) is Ok);
                    }
                }
                Some(Column::U32(a))
            },
            None => {
                proof {
                    let i = choose|i: int| 0 <= i < col@.len() && !(spec_parse_cell::<u32>(texts@[i]@, null@) is Ok);
                    assert(!(read_field(kind, f[i], null@) is Ok));
                }
                None
            },
        },
        DataType::ISize => match ArrayISize::parse_str(texts, null) {
            Some(a) => {
                proof {
                    assert forall|i: int| 0 <= i < f.len() implies #[trigger] read_field(kind, f[i], null@) is Ok by {
                        assert(spec_parse_cell::<isize>(texts@[i]@, null@) is Ok);
                    }
                }
                Some(Column::ISize(a))
            },
            None => {
                proof {
                    let i = choose|i: int| 0 <= i < col@.len() && !(spec_parse_cell::<isize>(texts@[i]@, null@) is Ok);
                    assert(!(read_field(kind, f[i], null@) is Ok));
                }
                None
            },
        },
        DataType::USize => match ArrayUSize::parse_str(texts, null) {
            Some(a) => {
                proof {
                    assert forall|i: int| 0 <= i < f.len() implies #[trigger] read_field(kind, f[i], null@) is Ok by {
                        assert(spec_parse_cell::<usize>(texts@[i]@, null@) is Ok);
                    }
                }
                Some(Column::USize(a))
            },
            None => {
                proof {
                    let i = choose|i: int| 0 <= i < col@.len() && !(spec_parse_cell::<usize>(texts@[i]@, null@) is Ok);
                    assert(!(read_field(kind, f[i], null@) is Ok));
                }
                None
            },
        },
        DataType::Bool => match ArrayBool::parse_str(texts, null) {
            Some(a) => {
                proof {
                    assert forall|i: int| 0 <= i < f.len() implies #[trigger] read_field(kind, f[i], null@) is Ok by {
                        assert(spec_parse_cell::<bool>(texts@[i]@, null@) is Ok);
                    }
                }
                Some(Column::Bool(a))
            },
            None => {
                proof {
                    let i = choose|i: int| 0 <= i < col@.len() && !(spec_parse_cell::<bool>(texts@[i]@, null@) is Ok);
                    assert(!(read_field(kind, f[i], null@) is Ok));
                }
                None
            },
        },
        DataType::F32 => match ArrayF32::parse_str(col, null) {
            Some(a) => {
                proof {
                    assert forall|i: int| 0 <= i < f.len() implies #[trigger] read_field(kind, f[i], null@) is Ok by {
                        assert(spec_parse_f32_cell(col@[i], null@) is Ok);
                    }
                }
                Some(Column::F32(a))
            },
            None => {
                proof {
                    let i = choose|i: int| 0 <= i < col@.len() && !(spec_parse_f32_cell(col@[i], null@) is Ok);
                    assert(!(read_field(kind, f[i], null@) is Ok));
                }
                None
            },
        },
        DataType::F64 => match ArrayF64::parse_str(col, null) {
            Some(a) => {
                proof {
                    assert forall|i: int| 0 <= i < f.len() implies #[trigger] read_field(kind, f[i], null@) is Ok by {
                        assert(spec_parse_f64_cell(col@[i], null@) is Ok);
                    }
                }
                Some(Column::F64(a))
            },
            None => {
                proof {
                    let i = choose|i: int| 0 <= i < col@.len() && !(spec_parse_f64_cell(col@[i], null@) is Ok);
                    assert(!(read_field(kind, f[i], null@) is Ok));
                }
                None
            },
        },
        DataType::Text => Some(Column::Text(ArrayText::parse_str(texts, null))),
    };
    proof {
        assert forall|i: int| 0 <= i < f.len() implies #[trigger] read_field(kind, f[i], null@)
            == spec_read_cell(kind, col@[i], null@) by {}
        if r is Some {
            assert(r->0.cells() =~= read_fields(kind, f, null@));
        }
    }
    r
}

/// Reads a column from `col`, the type chosen by `strategy`, labelled `header`.
pub fn parse_column(col: Vec<Reading>, header: Option<String>, strategy: ColumnStrategy, null: &str) -> (r: Column)
    ensures
        is_parsed_column(r, present(col@), label_of(header), strategy, null@),
{
    let mut texts: Vec<String> = Vec::new();
    let mut i: usize = 0;
    while i < col.len()
        invariant
            i <= col@.len(),
            texts@.len() == i,
            forall|j: int| 0 <= j < i ==> #[trigger] texts@[j]@ == col@[j].text@,
        decreases col@.len() - i,
    {
        texts.push(col[i].text.clone());
        i = i + 1;
    }
    let cands: Vec<DataType> = match strategy {
        ColumnStrategy::NoType => vec![],
        ColumnStrategy::Infer => vec![
            DataType::I32,
            DataType::U32,
            DataType::ISize,
            DataType::USize,
            DataType::Bool,
            DataType::F32,
            DataType::F64,
        ],
        ColumnStrategy::Type(t) => match t {
            ColumnType::Untyped => vec![],
            ColumnType::Text => vec![],
            ColumnType::Integer => vec![DataType::I32, DataType::U32],
            ColumnType::Number => vec![DataType::ISize, DataType::USize],
            ColumnType::Float => vec![DataType::F32, DataType::F64],
            ColumnType::Boolean => vec![DataType::Bool],
        },
    };
    assert(cands@ == candidates(strategy));
    let ghost f = present(col@);
    let mut k: usize = 0;
    assert(cands@.skip(0) =~= cands@);
    while k < cands.len()
        invariant
            k <= cands@.len(),
            cands@ == candidates(strategy),
            texts@.len() == col@.len(),
            forall|j: int| 0 <= j < col@.len() ==> #[trigger] texts@[j]@ == col@[j].text@,
            f == present(col@),
            chosen_kind(cands@.skip(k as int), f, null@) == chosen_kind(cands@, f, null@),
        decreases cands@.len() - k,
    {
        let kind = cands[k];
        proof {
            assert(cands@.skip(k as int)[0] == kind);
            assert(cands@.skip(k as int).drop_first() =~= cands@.skip(k + 1));
        }
        match try_kind(kind, &texts, &col, null) {
            Some(mut c) => {
                match header {
                    Some(h) => c.set_header(h),
                    None => {},
                }
                return c;
            },
            None => {},
        }
        k = k + 1;
    }
    proof {
        assert(cands@.skip(k as int).len() == 0);
    }
    let mut c = match try_kind(DataType::Text, &texts, &col, null) {
        Some(c) => c,
        None => {
            proof {
                assert(all_read(DataType::Text, f, null@));
            }
            Column::Text(ArrayText::new())
        },
    };
    match header {
        Some(h) => c.set_header(h),
        None => {},
    }
    c
}

/// A field that stands for a missing one: no text, and no reading as a float.
pub open spec fn is_blank(r: Reading) -> bool {
    r.text@.len() == 0 && r.as_f32 is None && r.as_f64 is None
}

/// `x` is the field `f`, or a blank where `f` is missing.
pub open spec fn fills(x: Reading, f: Option<Reading>) -> bool {
    match f {
        Some(y) => x == y,
        None => is_blank(x),
    }
}

/// A column's fields, taken from the same fields or blanks in their place,
/// read alike.
proof fn lemma_fills_read_alike(a: Seq<Reading>, b: Seq<Option<Reading>>, cands: Seq<DataType>, null: Seq<char>)
    requires
        a.len() == b.len(),
        forall|i: int| 0 <= i < a.len() ==> #[trigger] fills(a[i], b[i]),
    ensures
        chosen_kind(cands, present(a), null) == chosen_kind(cands, b, null),
        forall|kind: DataType| #[trigger] read_fields(kind, present(a), null) == read_fields(kind, b, null),
        forall|kind: DataType| #[trigger] all_read(kind, present(a), null) == all_read(kind, b, null),
    decreases cands.len(),
{
    assert forall|kind: DataType, i: int| 0 <= i < a.len() implies #[trigger] read_field(kind, present(a)[i], null)
        == read_field(kind, b[i], null) by {
        assert(fills(a[i], b[i]));
    }
    assert forall|kind: DataType| #[trigger] read_fields(kind, present(a), null) == read_fields(kind, b, null) by {
        assert(read_fields(kind, present(a), null) =~= read_fields(kind, b, null));
    }
    assert forall|kind: DataType| #[trigger] all_read(kind, present(a), null) == all_read(kind, b, null) by {
        if all_read(kind, present(a), null) {
            assert forall|i: int| 0 <= i < b.len() implies #[trigger] read_field(kind, b[i], null) is Ok by {
                assert(read_field(kind, present(a)[i], null) is Ok);
            }
        }
        if all_read(kind, b, null) {
            assert forall|i: int| 0 <= i < a.len() implies #[trigger] read_field(kind, present(a)[i], null) is Ok by {
                assert(read_field(kind, b[i], null) is Ok);
            }
        }
    }
    if cands.len() > 0 {
        lemma_fills_read_alike(a, b, cands.drop_first(), null);
    }
}

/// How many columns a types strategy makes from `n` candidates.
pub open spec fn strategy_count(strat: TypesStrategy, n: nat) -> nat {
    match strat {
        TypesStrategy::Provided(types) => if types@.len() < n {
            types@.len()
        } else {
            n
        },
        _ => n,
    }
}

/// Constructs columns from inputs: one per header, as far as the types
/// strategy goes.
pub fn create_columns(
    cols: Vec<Vec<Reading>>,
    headers: Vec<Option<String>>,
    type_strategy: TypesStrategy,
    null: &str,
) -> (r: Vec<Column>)
    requires
        cols@.len() >= headers@.len(),
    ensures
        r@.len() == strategy_count(type_strategy, headers@.len()),
        forall|i: int|
            0 <= i < r@.len() ==> #[trigger] is_parsed_column(
                r@[i],
                present(cols@[i]@),
                label_of(headers@[i]),
                strategy_at(type_strategy, i)->Some_0,
                null@,
            ),
{
    let ghost orig_cols = cols@;
    let ghost orig_headers = headers@;
    let ghost strat = type_strategy;
    let n = headers.len();
    let mut cols = cols;
    let mut headers = headers;
    let mut strategies = StrategyIter::new(type_strategy);
    let mut out: Vec<Column> = Vec::new();
    let mut i: usize = 0;
    while i < n
        invariant_except_break
            strategies.position() == i,
        invariant
            n == orig_headers.len(),
            orig_cols.len() >= n,
            i <= n,
            cols@ == orig_cols.skip(i as int),
            headers@ == orig_headers.skip(i as int),
            strategies.strategy() == strat,
            out@.len() == i,
            i <= strategy_count(strat, n as nat),
            forall|j: int|
                0 <= j < i ==> #[trigger] is_parsed_column(
                    out@[j],
                    present(orig_cols[j]@),
                    label_of(orig_headers[j]),
                    strategy_at(strat, j)->Some_0,
                    null@,
                ),
        ensures
            out@.len() == strategy_count(strat, n as nat),
            forall|j: int|
                0 <= j < out@.len() ==> #[trigger] is_parsed_column(
                    out@[j],
                    present(orig_cols[j]@),
                    label_of(orig_headers[j]),
                    strategy_at(strat, j)->Some_0,
                    null@,
                ),
        decreases n - i,
    {
        let strategy = match strategies.next() {
            Some(s) => s,
            None => {
                break;
            },
        };
        let col = cols.remove(0);
        let header = headers.remove(0);
        proof {
            assert(col == orig_cols[i as int]);
            assert(header == orig_headers[i as int]);
            assert(cols@ =~= orig_cols.skip(i + 1));
            assert(headers@ =~= orig_headers.skip(i + 1));
        }
        out.push(parse_column(col, header, strategy, null));
        i = i + 1;
    }
    out
}

/// The field at `row`, `col` of the records, if that record is long enough.
pub open spec fn field(records: Seq<Vec<Reading>>, row: int, col: int) -> Option<Reading> {
    if col < records[row]@.len() {
        Some(records[row]@[col])
    } else {
        None
    }
}

/// The length of the longest record.
pub open spec fn record_width(records: Seq<Vec<Reading>>) -> nat
    decreases records.len(),
{
    if records.len() == 0 {
        0
    } else {
        let w = record_width(records.drop_last());
        if records.last()@.len() > w {
            records.last()@.len()
        } else {
            w
        }
    }
}

/// The fields of column `col`, top to bottom, with a missing field where a
/// record is too short.
pub open spec fn column_fields(records: Seq<Vec<Reading>>, col: int) -> Seq<Option<Reading>> {
    Seq::new(records.len(), |row: int| field(records, row, col))
}

/// `n` blank fields.
fn blank_fields(n: usize) -> (r: Vec<Reading>)
    ensures
        r@.len() == n,
        forall|i: int| 0 <= i < n ==> is_blank(#[trigger] r@[i]),
{
    let mut r: Vec<Reading> = Vec::new();
    while r.len() < n
        invariant
            r@.len() <= n,
            forall|i: int| 0 <= i < r@.len() ==> is_blank(#[trigger] r@[i]),
        decreases n - r@.len(),
    {
        r.push(Reading::new(String::new(), None, None));
    }
    r
}

pub proof fn lemma_record_width(records: Seq<Vec<Reading>>)
    ensures
        forall|r: int| 0 <= r < records.len() ==> #[trigger] records[r]@.len() <= record_width(records),
        records.len() > 0 ==> exists|r: int| 0 <= r < records.len() && #[trigger] records[r]@.len() == record_width(records),
        records.len() == 0 ==> record_width(records) == 0,
    decreases records.len(),
{
    if records.len() > 0 {
        let d = records.drop_last();
        lemma_record_width(d);
        assert forall|r: int| 0 <= r < records.len() implies #[trigger] records[r]@.len() <= record_width(records) by {
            if r < d.len() {
                assert(d[r] == records[r]);
            }
        }
        if records.last()@.len() > record_width(d) {
            assert(records[records.len() - 1]@.len() == record_width(records));
        } else if d.len() > 0 {
            let r = choose|r: int| 0 <= r < d.len() && #[trigger] d[r]@.len() == record_width(d);
            assert(records[r]@.len() == record_width(records));
        } else {
            assert(records[0]@.len() == record_width(records));
        }
    }
}

/// Turns records (rows of fields) into columns of fields, as wide as the
/// longest record; a field missing from a shorter record is left blank.
pub fn columns_from_records(records: Vec<Vec<Reading>>) -> (r: Vec<Vec<Reading>>)
    ensures
        r@.len() == record_width(records@),
        forall|c: int|
            0 <= c < r@.len() ==> (#[trigger] r@[c])@.len() == records@.len() && forall|row: int|
                0 <= row < records@.len() ==> fills(r@[c]@[row], field(records@, row, c)),
{
    let ghost orig = records@;
    let mut width: usize = 0;
    let mut i: usize = 0;
    while i < records.len()
        invariant
            records@ == orig,
            i <= orig.len(),
            width == record_width(orig.take(i as int)),
        decreases orig.len() - i,
    {
        proof {
            assert(orig.take(i + 1).drop_last() =~= orig.take(i as int));
        }
        if records[i].len() > width {
            width = records[i].len();
        }
        i = i + 1;
    }
    assert(orig.take(i as int) =~= orig);
    proof {
        lemma_record_width(orig);
    }
    let mut cols: Vec<Vec<Reading>> = Vec::new();
    let mut c: usize = 0;
    while c < width
        invariant
            c <= width,
            cols@.len() == c,
            forall|k: int| 0 <= k < c ==> (#[trigger] cols@[k])@.len() == 0,
        decreases width - c,
    {
        cols.push(Vec::new());
        c = c + 1;
    }
    let mut reversed: Vec<Vec<Reading>> = Vec::new();
    let mut records = records;
    while records.len() > 0
        invariant
            records@.len() + reversed@.len() == orig.len(),
            forall|k: int| 0 <= k < records@.len() ==> #[trigger] records@[k] == orig[k],
            forall|k: int| 0 <= k < reversed@.len() ==> #[trigger] reversed@[k] == orig[orig.len() - 1 - k],
        decreases records@.len(),
    {
        let row = records.pop().unwrap();
        reversed.push(row);
    }
    let mut r: usize = 0;
    assert(orig.len() == reversed.len());
    while reversed.len() > 0
        invariant
            r + reversed@.len() == orig.len(),
            orig.len() <= usize::MAX,
            width == record_width(orig),
            forall|k: int| 0 <= k < orig.len() ==> #[trigger] orig[k]@.len() <= width,
            forall|k: int| 0 <= k < reversed@.len() ==> #[trigger] reversed@[k] == orig[orig.len() - 1 - k],
            cols@.len() == width,
            forall|k: int|
                0 <= k < width ==> (#[trigger] cols@[k])@.len() == r && forall|row: int|
                    0 <= row < r ==> fills(cols@[k]@[row], field(orig, row, k)),
        decreases reversed@.len(),
    {
        let mut row = reversed.pop().unwrap();
        let ghost full = row@;
        assert(full == orig[r as int]@);
        let mut k: usize = width;
        while k > 0
            invariant
                k <= width,
                cols@.len() == width,
                full.len() <= width,
                row@ == full.take(if k < full.len() { k as int } else { full.len() as int }),
                forall|q: int|
                    0 <= q < k ==> (#[trigger] cols@[q])@.len() == r && forall|x: int|
                        0 <= x < r ==> fills(cols@[q]@[x], field(orig, x, q)),
                forall|q: int|
                    k <= q < width ==> (#[trigger] cols@[q])@.len() == r + 1 && forall|x: int|
                        0 <= x <= r ==> fills(cols@[q]@[x], field(orig, x, q)),
                r < orig.len(),
                full == orig[r as int]@,
            decreases k,
        {
            k = k - 1;
            let ghost before = cols@[k as int]@;
            if k < row.len() {
                let value = row.pop().unwrap();
                cols[k].push(value);
            } else {
                cols[k].push(Reading::new(String::new(), None, None));
            }
            proof {
                assert(cols@[k as int]@ =~= before.push(cols@[k as int]@[r as int]));
            }
        }
        r = r + 1;
    }
    cols
}

/// The labels of the columns as the label strategy gives them; `read` is the
/// header record of the text, and `width` the number of columns of fields.
pub open spec fn header_labels(strategy: HeaderStrategy, read: Seq<String>, width: nat) -> Seq<
    Option<Seq<char>>,
> {
    match strategy {
        HeaderStrategy::NoLabels => Seq::new(width, |i: int| None::<Seq<char>>),
        HeaderStrategy::Provided(h) => h@.map_values(|s: String| Some(s@)),
        HeaderStrategy::ReadLabels => read.map_values(
            |s: String|
                if s@.len() == 0 {
                    None::<Seq<char>>
                } else {
                    Some(s@)
                },
        ),
    }
}

/// The label at `i`, none past the end of `labels`.
pub open spec fn label_at(labels: Seq<Option<Seq<char>>>, i: int) -> Option<Seq<char>> {
    if i < labels.len() {
        labels[i]
    } else {
        None
    }
}

/// The larger of two numbers.
pub open spec fn larger(a: nat, b: nat) -> nat {
    if a < b {
        b
    } else {
        a
    }
}

/// The number of columns a sheet read from `records` with `config` has.
pub open spec fn sheet_width<P>(records: Seq<Vec<Reading>>, read: Seq<String>, config: Config<P>) -> nat {
    let w = record_width(records);
    strategy_count(
        config.type_strategy,
        larger(w, header_labels(config.label_strategy, read, w).len()),
    )
}

impl ColumnSheet {
    /// Builds a sheet from the records of delimited text, read with `config`;
    /// `read_labels` is the text's header record, used when the labels are
    /// read from the text.
    ///
    /// Records shorter than the longest are padded with empty cells, and so
    /// are columns with a label but no field: every column is as high as the
    /// sheet.
    pub fn from_records<P>(records: Vec<Vec<Reading>>, read_labels: Vec<String>, config: Config<P>) -> (r: Self)
        ensures
            r.cols().len() == sheet_width(records@, read_labels@, config),
            forall|i: int|
                0 <= i < r.cols().len() ==> #[trigger] is_parsed_column(
                    r.cols()[i],
                    column_fields(records@, i),
                    label_at(
                        header_labels(config.label_strategy, read_labels@, record_width(records@)),
                        i,
                    ),
                    strategy_at(config.type_strategy, i)->Some_0,
                    config.null_string@,
                ),
            r.rows() == records@.len(),
            r.uniform(),
            r.primary_col() == (if r.cols().len() == 0 {
                None
            } else {
                Some(config.primary)
            }),
            r.null_text() == config.null_string@,
    {
        let ghost orig = records@;
        let height = records.len();
        let mut cols = columns_from_records(records);
        let w = cols.len();
        let ghost labels = header_labels(config.label_strategy, read_labels@, w as nat);
        let mut headers: Vec<Option<String>> = Vec::new();
        match &config.label_strategy {
            HeaderStrategy::NoLabels => {
                let mut i: usize = 0;
                while i < w
                    invariant
                        i <= w,
                        headers@.len() == i,
                        forall|j: int| 0 <= j < i ==> #[trigger] label_of(headers@[j]) == None::<Seq<char>>,
                    decreases w - i,
                {
                    headers.push(None);
                    i = i + 1;
                }
            },
            HeaderStrategy::Provided(given) => {
                let mut i: usize = 0;
                while i < given.len()
                    invariant
                        i <= given@.len(),
                        headers@.len() == i,
                        forall|j: int| 0 <= j < i ==> #[trigger] label_of(headers@[j]) == Some(given@[j]@),
                    decreases given@.len() - i,
                {
                    headers.push(Some(given[i].clone()));
                    i = i + 1;
                }
            },
            HeaderStrategy::ReadLabels => {
                let mut i: usize = 0;
                while i < read_labels.len()
                    invariant
                        i <= read_labels@.len(),
                        headers@.len() == i,
                        forall|j: int|
                            0 <= j < i ==> #[trigger] label_of(headers@[j]) == (if read_labels@[j]@.len()
                                == 0 {
                                None::<Seq<char>>
                            } else {
                                Some(read_labels@[j]@)
                            }),
                    decreases read_labels@.len() - i,
                {
                    if read_labels[i].as_str().is_empty() {
                        headers.push(None);
                    } else {
                        headers.push(Some(read_labels[i].clone()));
                    }
                    i = i + 1;
                }
            },
        }
        assert(headers@.len() == labels.len());
        assert forall|j: int| 0 <= j < headers@.len() implies #[trigger] label_of(headers@[j]) == labels[j] by {}
        let longest = if cols.len() < headers.len() {
            headers.len()
        } else {
            cols.len()
        };
        while headers.len() < longest
            invariant
                labels.len() <= headers@.len() <= longest,
                forall|j: int| 0 <= j < headers@.len() ==> #[trigger] label_of(headers@[j]) == label_at(labels, j),
            decreases longest - headers@.len(),
        {
            headers.push(None);
        }
        let ghost unpadded = cols@;
        while cols.len() < longest
            invariant
                w <= cols@.len() <= longest,
                forall|c: int|
                    w <= c < cols@.len() ==> (#[trigger] cols@[c])@.len() == height && forall|row: int|
                        0 <= row < height ==> is_blank(#[trigger] cols@[c]@[row]),
                forall|c: int| 0 <= c < w ==> #[trigger] cols@[c] == unpadded[c],
            decreases longest - cols@.len(),
        {
            cols.push(blank_fields(height));
        }
        let ghost padded = cols@;
        let ghost hs = headers@;
        let columns = create_columns(cols, headers, config.type_strategy, config.null_string.as_str());
        proof {
            assert forall|i: int| 0 <= i < columns@.len() implies #[trigger] is_parsed_column(
                columns@[i],
                column_fields(orig, i),
                label_at(labels, i),
                strategy_at(config.type_strategy, i)->Some_0,
                config.null_string@,
            ) by {
                let fields = column_fields(orig, i);
                let cands = candidates(strategy_at(config.type_strategy, i)->Some_0);
                assert(is_parsed_column(
                    columns@[i],
                    present(padded[i]@),
                    label_of(hs[i]),
                    strategy_at(config.type_strategy, i)->Some_0,
                    config.null_string@,
                ));
                assert(label_of(hs[i]) == label_at(labels, i));
                if i < w {
                    assert(padded[i] == unpadded[i]);
                    assert(fields.len() == orig.len());
                    assert forall|row: int| 0 <= row < padded[i]@.len() implies #[trigger] fills(padded[i]@[row], fields[row]) by {}
                    lemma_fills_read_alike(padded[i]@, fields, cands, config.null_string@);
                } else {
                    assert(fields.len() == orig.len());
                    assert forall|row: int| 0 <= row < padded[i]@.len() implies #[trigger] fills(padded[i]@[row], fields[row]) by {
                        lemma_record_width(orig);
                        assert(orig[row]@.len() <= record_width(orig));
                        assert(is_blank(padded[i]@[row]));
                    }
                    lemma_fills_read_alike(padded[i]@, fields, cands, config.null_string@);
                }
            }
        }
        let primary = if columns.len() == 0 {
            None
        } else {
            Some(config.primary)
        };
        let ghost null = config.null_string@;
        let ghost ts = config.type_strategy;
        let r = Self::from_columns(columns, primary, height, config.null_string);
        assert forall|c: int| 0 <= c < r.cols().len() implies #[trigger] r.cols()[c].cells().len() == r.rows() by {
            assert(r.cols()[c] == columns@[c]);
            assert(is_parsed_column(
                columns@[c],
                column_fields(orig, c),
                label_at(labels, c),
                strategy_at(ts, c)->Some_0,
                null,
            ));
        }
        r
    }
}

} // verus!
