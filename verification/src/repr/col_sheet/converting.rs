//! Converting a column of text or of 32 bit floats to a column of another type.
use vstd::prelude::*;

use super::super::floats::{f32_as_int, f32_is_zero, f32_to_f64_bits, f32_to_int, f32_zero, f64_of_f32};
use super::super::parse::{
    read_bool, read_i32, read_isize, read_u32, read_usize, spec_read_bool, spec_read_i32,
    spec_read_isize, spec_read_u32, spec_read_usize,
};
use super::arraybool::ArrayBool;
use super::arrayf32::ArrayF32;
use super::arrayf64::ArrayF64;
use super::arrayi32::ArrayI32;
use super::arrayisize::ArrayISize;
use super::arraytext::{text_view, ArrayText};
use super::arrayu32::ArrayU32;
use super::arrayusize::ArrayUSize;
use super::column::{opt_value, CellValue, Column};
use super::utils::{DataType, Readable};

verus! {

/// The column types that convert to others: text and 32 bit floats.
pub open spec fn convertible(kind: DataType) -> bool {
    kind == DataType::Text || kind == DataType::F32
}

/// What the text `t` becomes in a column of type `to`, for a type other than
/// the floats: the text read as a value of that type, nothing where it reads
/// as none.
pub open spec fn text_as(to: DataType, t: Seq<char>) -> CellValue {
    match to {
        DataType::I32 => opt_value(spec_read_i32(t), |x: i32| CellValue::I32(x)),
        DataType::U32 => opt_value(spec_read_u32(t), |x: u32| CellValue::U32(x)),
        DataType::ISize => opt_value(spec_read_isize(t), |x: isize| CellValue::ISize(x)),
        DataType::USize => opt_value(spec_read_usize(t), |x: usize| CellValue::USize(x)),
        DataType::Bool => opt_value(spec_read_bool(t), |x: bool| CellValue::Bool(x)),
        DataType::Text => CellValue::Text(t),
        _ => CellValue::Null,
    }
}

/// What the 32 bit float `b` becomes in a column of type `to`, for a type
/// other than text: an integer as `as` makes it, a boolean telling whether
/// it differs from zero, the 64 bit float equal to it, or itself.
pub open spec fn f32_as(to: DataType, b: u32) -> CellValue {
    match to {
        DataType::I32 => CellValue::I32(f32_as_int(b, i32::MIN as int, i32::MAX as int) as i32),
        DataType::U32 => CellValue::U32(f32_as_int(b, 0, u32::MAX as int) as u32),
        DataType::ISize => CellValue::ISize(
            f32_as_int(b, isize::MIN as int, isize::MAX as int) as isize,
        ),
        DataType::USize => CellValue::USize(f32_as_int(b, 0, usize::MAX as int) as usize),
        DataType::Bool => CellValue::Bool(!f32_is_zero(b)),
        DataType::F32 => CellValue::F32(b),
        DataType::F64 => CellValue::F64(f64_of_f32(b)),
        DataType::Text => CellValue::Null,
    }
}

/// `d` is what `read_f32` makes of a string spelling `t`.
pub open spec fn read_as_f32<P: Fn(&String) -> Option<u32>>(d: CellValue, t: Seq<char>, read_f32: P) -> bool {
    exists|s: String, f: Option<u32>|
        s@ == t && #[trigger] call_ensures(read_f32, (&s,), f) && d == opt_value(
            f,
            |x: u32| CellValue::F32(x),
        )
}

/// `d` is what `read_f64` makes of a string spelling `t`.
pub open spec fn read_as_f64<Q: Fn(&String) -> Option<u64>>(d: CellValue, t: Seq<char>, read_f64: Q) -> bool {
    exists|s: String, f: Option<u64>|
        s@ == t && #[trigger] call_ensures(read_f64, (&s,), f) && d == opt_value(
            f,
            |x: u64| CellValue::F64(x),
        )
}

/// `d` is the text `float_text` writes for the 32 bit float `b`.
pub open spec fn written_as_text<F: Fn(u32) -> String>(d: CellValue, b: u32, float_text: F) -> bool {
    exists|s: String| #[trigger] call_ensures(float_text, (b,), s) && d == CellValue::Text(s@)
}

/// `d` is what the cell `c` of a text or float column becomes in a column of
/// type `to`; an empty cell stays empty.
pub open spec fn cell_converted<F: Fn(u32) -> String, P: Fn(&String) -> Option<u32>, Q: Fn(&String) -> Option<u64>>(
    d: CellValue,
    c: CellValue,
    to: DataType,
    float_text: F,
    read_f32: P,
    read_f64: Q,
) -> bool {
    match c {
        CellValue::Text(t) => if to == DataType::F32 {
            read_as_f32(d, t, read_f32)
        } else if to == DataType::F64 {
            read_as_f64(d, t, read_f64)
        } else {
            d == text_as(to, t)
        },
        CellValue::F32(b) => if to == DataType::Text {
            written_as_text(d, b, float_text)
        } else {
            d == f32_as(to, b)
        },
        _ => d == CellValue::Null,
    }
}

/// `r` is the column `c` converted to type `to`: same label, each cell
/// converted.
pub open spec fn converted<F: Fn(u32) -> String, P: Fn(&String) -> Option<u32>, Q: Fn(&String) -> Option<u64>>(
    r: Column,
    c: Column,
    to: DataType,
    float_text: F,
    read_f32: P,
    read_f64: Q,
) -> bool {
    &&& r.kind_view() == to
    &&& r.label_view() == c.label_view()
    &&& r.cells().len() == c.cells().len()
    &&& forall|j: int|
        0 <= j < r.cells().len() ==> cell_converted(
            #[trigger] r.cells()[j],
            c.cells()[j],
            to,
            float_text,
            read_f32,
            read_f64,
        )
}

/// `out` is what `g` makes of a string spelling the text `t`.
pub open spec fn text_read_by<R, G: Fn(&String) -> Option<R>>(t: Seq<char>, out: Option<R>, g: G) -> bool {
    exists|s: String| s@ == t && #[trigger] call_ensures(g, (&s,), out)
}

/// `out` is what `g` makes of the text cell `c`; an empty cell stays empty.
pub open spec fn text_mapped<R, G: Fn(&String) -> Option<R>>(c: Option<Seq<char>>, out: Option<R>, g: G) -> bool {
    match c {
        None => out is None,
        Some(t) => text_read_by(t, out, g),
    }
}

/// `out` is what `g` makes of the float cell `c`; an empty cell stays empty.
pub open spec fn f32_mapped<R, G: Fn(u32) -> R>(c: Option<u32>, out: Option<R>, g: G) -> bool {
    match c {
        None => out is None,
        Some(b) => out matches Some(x) && call_ensures(g, (b,), x),
    }
}

/// The cells of `a`, each mapped by `g`; an empty cell stays empty.
fn map_text_cells<R, G: Fn(&String) -> Option<R>>(a: &ArrayText, g: &G) -> (r: Vec<Option<R>>)
    requires
        forall|s: &String| call_requires(*g, (s,)),
    ensures
        r@.len() == a.cells_view().len(),
        forall|j: int|
            0 <= j < r@.len() ==> text_mapped(a.cells_view()[j], #[trigger] r@[j], *g),
{
    let n = a.len();
    let mut out: Vec<Option<R>> = Vec::new();
    let mut i: usize = 0;
    while i < n
        invariant
            n == a.cells_view().len(),
            i <= n,
            out@.len() == i,
            forall|s: &String| call_requires(*g, (s,)),
            forall|j: int|
                0 <= j < i ==> text_mapped(a.cells_view()[j], #[trigger] out@[j], *g),
        decreases n - i,
    {
        let v = match a.get_ref(i) {
            Some(s) => g(s),
            None => None,
        };
        out.push(v);
        i = i + 1;
    }
    out
}

/// The cells of `a`, each mapped by `g`; an empty cell stays empty.
fn map_f32_cells<R, G: Fn(u32) -> R>(a: &ArrayF32, g: &G) -> (r: Vec<Option<R>>)
    requires
        forall|b: u32| call_requires(*g, (b,)),
    ensures
        r@.len() == a.cells_view().len(),
        forall|j: int|
            0 <= j < r@.len() ==> f32_mapped(a.cells_view()[j], #[trigger] r@[j], *g),
{
    let n = a.len();
    let mut out: Vec<Option<R>> = Vec::new();
    let mut i: usize = 0;
    while i < n
        invariant
            n == a.cells_view().len(),
            i <= n,
            out@.len() == i,
            forall|b: u32| call_requires(*g, (b,)),
            forall|j: int|
                0 <= j < i ==> f32_mapped(a.cells_view()[j], #[trigger] out@[j], *g),
        decreases n - i,
    {
        let v = match a.get(i) {
            Some(b) => Some(g(b)),
            None => None,
        };
        out.push(v);
        i = i + 1;
    }
    out
}


/// The cells of `a`, each read as a value of type `T`; an empty cell, or
/// one that reads as none, is empty.
fn read_text_cells<T: Readable>(a: &ArrayText) -> (r: Vec<Option<T>>)
    ensures
        r@.len() == a.cells_view().len(),
        forall|j: int|
            0 <= j < r@.len() ==> #[trigger] r@[j] == match a.cells_view()[j] {
                None => None,
                Some(t) => T::spec_read(t),
            },
{
    let g = |s: &String| -> (v: Option<T>)
        ensures
            v == T::spec_read(s@),
        { T::read(s.as_str()) };
    let cells = map_text_cells(a, &g);
    proof {
        assert forall|j: int| 0 <= j < cells@.len() implies #[trigger] cells@[j] == match a.cells_view()[j] {
            None => None,
            Some(t) => T::spec_read(t),
        } by {
            assert(text_mapped(a.cells_view()[j], cells@[j], g));
            if let Some(t) = a.cells_view()[j] {
                let s = choose|s: String| s@ == t && #[trigger] call_ensures(g, (&s,), cells@[j]);
                assert(cells@[j] == T::spec_read(s@));
            }
        }
    }
    cells
}

/// The column of type `to` that the text column `a` converts to.
fn convert_text<F: Fn(u32) -> String, P: Fn(&String) -> Option<u32>, Q: Fn(&String) -> Option<u64>>(
    a: &ArrayText,
    to: DataType,
    float_text: &F,
    read_f32: &P,
    read_f64: &Q,
) -> (r: Column)
    requires
        forall|s: &String| call_requires(*read_f32, (s,)),
        forall|s: &String| call_requires(*read_f64, (s,)),
    ensures
        converted(r, Column::Text(*a), to, *float_text, *read_f32, *read_f64),
{
    let ghost src = Column::Text(*a);
    let label = a.label();
    match to {
        DataType::Text => {
            let r = Column::Text(a.duplicate());
            proof {
                assert forall|j: int| 0 <= j < r.cells().len() implies cell_converted(
                    #[trigger] r.cells()[j],
                    src.cells()[j],
                    to,
                    *float_text,
                    *read_f32,
                    *read_f64,
                ) by {}
            }
            r
        },
        DataType::I32 => {
            let cells = read_text_cells::<i32>(a);
            let mut arr = ArrayI32::from_iterator_option(cells);
            if let Some(h) = label {
                arr.set_header(h.to_owned());
            }
            let r = Column::I32(arr);
            proof {
                assert forall|j: int| 0 <= j < r.cells().len() implies cell_converted(
                    #[trigger] r.cells()[j],
                    src.cells()[j],
                    to,
                    *float_text,
                    *read_f32,
                    *read_f64,
                ) by {}
            }
            r
        },
        DataType::U32 => {
            let cells = read_text_cells::<u32>(a);
            let mut arr = ArrayU32::from_iterator_option(cells);
            if let Some(h) = label {
                arr.set_header(h.to_owned());
            }
            let r = Column::U32(arr);
            proof {
                assert forall|j: int| 0 <= j < r.cells().len() implies cell_converted(
                    #[trigger] r.cells()[j],
                    src.cells()[j],
                    to,
                    *float_text,
                    *read_f32,
                    *read_f64,
                ) by {}
            }
            r
        },
        DataType::ISize => {
            let cells = read_text_cells::<isize>(a);
            let mut arr = ArrayISize::from_iterator_option(cells);
            if let Some(h) = label {
                arr.set_header(h.to_owned());
            }
            let r = Column::ISize(arr);
            proof {
                assert forall|j: int| 0 <= j < r.cells().len() implies cell_converted(
                    #[trigger] r.cells()[j],
                    src.cells()[j],
                    to,
                    *float_text,
                    *read_f32,
                    *read_f64,
                ) by {}
            }
            r
        },
        DataType::USize => {
            let cells = read_text_cells::<usize>(a);
            let mut arr = ArrayUSize::from_iterator_option(cells);
            if let Some(h) = label {
                arr.set_header(h.to_owned());
            }
            let r = Column::USize(arr);
            proof {
                assert forall|j: int| 0 <= j < r.cells().len() implies cell_converted(
                    #[trigger] r.cells()[j],
                    src.cells()[j],
                    to,
                    *float_text,
                    *read_f32,
                    *read_f64,
                ) by {}
            }
            r
        },
        DataType::Bool => {
            let cells = read_text_cells::<bool>(a);
            let mut arr = ArrayBool::from_iterator_option(cells);
            if let Some(h) = label {
                arr.set_header(h.to_owned());
            }
            let r = Column::Bool(arr);
            proof {
                assert forall|j: int| 0 <= j < r.cells().len() implies cell_converted(
                    #[trigger] r.cells()[j],
                    src.cells()[j],
                    to,
                    *float_text,
                    *read_f32,
                    *read_f64,
                ) by {}
            }
            r
        },
        DataType::F32 => {
            let cells = map_text_cells(a, read_f32);
            let mut arr = ArrayF32::from_iterator_option(cells);
            if let Some(h) = label {
                arr.set_header(h.to_owned());
            }
            let r = Column::F32(arr);
            proof {
                assert forall|j: int| 0 <= j < r.cells().len() implies cell_converted(
                    #[trigger] r.cells()[j],
                    src.cells()[j],
                    to,
                    *float_text,
                    *read_f32,
                    *read_f64,
                ) by {
                    assert(text_mapped(a.cells_view()[j], cells@[j], *read_f32));
                    if let Some(t) = a.cells_view()[j] {
                        let s = choose|s: String| s@ == t && #[trigger] call_ensures(*read_f32, (&s,), cells@[j]);
                        assert(call_ensures(*read_f32, (&s,), cells@[j]));
                    }
                }
            }
            r
        },
        DataType::F64 => {
            let cells = map_text_cells(a, read_f64);
            let mut arr = ArrayF64::from_iterator_option(cells);
            if let Some(h) = label {
                arr.set_header(h.to_owned());
            }
            let r = Column::F64(arr);
            proof {
                assert forall|j: int| 0 <= j < r.cells().len() implies cell_converted(
                    #[trigger] r.cells()[j],
                    src.cells()[j],
                    to,
                    *float_text,
                    *read_f32,
                    *read_f64,
                ) by {
                    assert(text_mapped(a.cells_view()[j], cells@[j], *read_f64));
                    if let Some(t) = a.cells_view()[j] {
                        let s = choose|s: String| s@ == t && #[trigger] call_ensures(*read_f64, (&s,), cells@[j]);
                        assert(call_ensures(*read_f64, (&s,), cells@[j]));
                    }
                }
            }
            r
        },
    }
}


/// The column of type `to` that the column of 32 bit floats `a` converts to.
fn convert_f32<F: Fn(u32) -> String, P: Fn(&String) -> Option<u32>, Q: Fn(&String) -> Option<u64>>(
    a: &ArrayF32,
    to: DataType,
    float_text: &F,
    read_f32: &P,
    read_f64: &Q,
) -> (r: Column)
    requires
        forall|b: u32| call_requires(*float_text, (b,)),
    ensures
        converted(r, Column::F32(*a), to, *float_text, *read_f32, *read_f64),
{
    let ghost src = Column::F32(*a);
    let label = a.label();
    match to {
        DataType::F32 => {
            let r = Column::F32(a.duplicate());
            proof {
                assert forall|j: int| 0 <= j < r.cells().len() implies cell_converted(
                    #[trigger] r.cells()[j],
                    src.cells()[j],
                    to,
                    *float_text,
                    *read_f32,
                    *read_f64,
                ) by {}
            }
            r
        },
        DataType::Text => {
            let cells = map_f32_cells(a, float_text);
            let ghost texts = cells@;
            let mut arr = ArrayText::from_iterator_option(cells);
            if let Some(h) = label {
                arr.set_header(h.to_owned());
            }
            let r = Column::Text(arr);
            proof {
                assert forall|j: int| 0 <= j < r.cells().len() implies cell_converted(
                    #[trigger] r.cells()[j],
                    src.cells()[j],
                    to,
                    *float_text,
                    *read_f32,
                    *read_f64,
                ) by {
                    assert(f32_mapped(a.cells_view()[j], texts[j], *float_text));
                    if let Some(b) = a.cells_view()[j] {
                        let x = texts[j]->Some_0;
                        assert(call_ensures(*float_text, (b,), x));
                    }
                }
            }
            r
        },
        DataType::I32 => {
            let g = |b: u32| -> (v: i32)
                ensures
                    v == f32_as_int(b, i32::MIN as int, i32::MAX as int) as i32,
                { f32_to_int(b, i32::MIN as i128, i32::MAX as i128) as i32 };
            let cells = map_f32_cells(a, &g);
            let mut arr = ArrayI32::from_iterator_option(cells);
            if let Some(h) = label {
                arr.set_header(h.to_owned());
            }
            let r = Column::I32(arr);
            proof {
                assert forall|j: int| 0 <= j < r.cells().len() implies cell_converted(
                    #[trigger] r.cells()[j],
                    src.cells()[j],
                    to,
                    *float_text,
                    *read_f32,
                    *read_f64,
                ) by {
                    assert(f32_mapped(a.cells_view()[j], cells@[j], g));
                }
            }
            r
        },
        DataType::U32 => {
            let g = |b: u32| -> (v: u32)
                ensures
                    v == f32_as_int(b, 0, u32::MAX as int) as u32,
                { f32_to_int(b, 0, u32::MAX as i128) as u32 };
            let cells = map_f32_cells(a, &g);
            let mut arr = ArrayU32::from_iterator_option(cells);
            if let Some(h) = label {
                arr.set_header(h.to_owned());
            }
            let r = Column::U32(arr);
            proof {
                assert forall|j: int| 0 <= j < r.cells().len() implies cell_converted(
                    #[trigger] r.cells()[j],
                    src.cells()[j],
                    to,
                    *float_text,
                    *read_f32,
                    *read_f64,
                ) by {
                    assert(f32_mapped(a.cells_view()[j], cells@[j], g));
                }
            }
            r
        },
        DataType::ISize => {
            let g = |b: u32| -> (v: isize)
                ensures
                    v == f32_as_int(b, isize::MIN as int, isize::MAX as int) as isize,
                { f32_to_int(b, isize::MIN as i128, isize::MAX as i128) as isize };
            let cells = map_f32_cells(a, &g);
            let mut arr = ArrayISize::from_iterator_option(cells);
            if let Some(h) = label {
                arr.set_header(h.to_owned());
            }
            let r = Column::ISize(arr);
            proof {
                assert forall|j: int| 0 <= j < r.cells().len() implies cell_converted(
                    #[trigger] r.cells()[j],
                    src.cells()[j],
                    to,
                    *float_text,
                    *read_f32,
                    *read_f64,
                ) by {
                    assert(f32_mapped(a.cells_view()[j], cells@[j], g));
                }
            }
            r
        },
        DataType::USize => {
            let g = |b: u32| -> (v: usize)
                ensures
                    v == f32_as_int(b, 0, usize::MAX as int) as usize,
                { f32_to_int(b, 0, usize::MAX as i128) as usize };
            let cells = map_f32_cells(a, &g);
            let mut arr = ArrayUSize::from_iterator_option(cells);
            if let Some(h) = label {
                arr.set_header(h.to_owned());
            }
            let r = Column::USize(arr);
            proof {
                assert forall|j: int| 0 <= j < r.cells().len() implies cell_converted(
                    #[trigger] r.cells()[j],
                    src.cells()[j],
                    to,
                    *float_text,
                    *read_f32,
                    *read_f64,
                ) by {
                    assert(f32_mapped(a.cells_view()[j], cells@[j], g));
                }
            }
            r
        },
        DataType::Bool => {
            let g = |b: u32| -> (v: bool)
                ensures
                    v == !f32_is_zero(b),
                { !f32_zero(b) };
            let cells = map_f32_cells(a, &g);
            let mut arr = ArrayBool::from_iterator_option(cells);
            if let Some(h) = label {
                arr.set_header(h.to_owned());
            }
            let r = Column::Bool(arr);
            proof {
                assert forall|j: int| 0 <= j < r.cells().len() implies cell_converted(
                    #[trigger] r.cells()[j],
                    src.cells()[j],
                    to,
                    *float_text,
                    *read_f32,
                    *read_f64,
                ) by {
                    assert(f32_mapped(a.cells_view()[j], cells@[j], g));
                }
            }
            r
        },
        DataType::F64 => {
            let g = |b: u32| -> (v: u64)
                ensures
                    v == f64_of_f32(b),
                { f32_to_f64_bits(b) };
            let cells = map_f32_cells(a, &g);
            let mut arr = ArrayF64::from_iterator_option(cells);
            if let Some(h) = label {
                arr.set_header(h.to_owned());
            }
            let r = Column::F64(arr);
            proof {
                assert forall|j: int| 0 <= j < r.cells().len() implies cell_converted(
                    #[trigger] r.cells()[j],
                    src.cells()[j],
                    to,
                    *float_text,
                    *read_f32,
                    *read_f64,
                ) by {
                    assert(f32_mapped(a.cells_view()[j], cells@[j], g));
                }
            }
            r
        },
    }
}

impl Column {
    /// A copy of the column converted to a column of type `to`, under the
    /// same label: text is read as a value of that type (`read_f32` and
    /// `read_f64` reading floats), a float is cast as `as` casts it, tested
    /// against zero, widened, or written by `float_text`. A cell that is
    /// empty or does not read as such a value is empty.
    pub fn convert_col<F: Fn(u32) -> String, P: Fn(&String) -> Option<u32>, Q: Fn(&String) -> Option<u64>>(
        &self,
        to: DataType,
        float_text: &F,
        read_f32: &P,
        read_f64: &Q,
    ) -> (r: Column)
        requires
            convertible(self.kind_view()),
            forall|b: u32| call_requires(*float_text, (b,)),
            forall|s: &String| call_requires(*read_f32, (s,)),
            forall|s: &String| call_requires(*read_f64, (s,)),
        ensures
            converted(r, *self, to, *float_text, *read_f32, *read_f64),
    {
        match self {
            Column::Text(a) => convert_text(a, to, float_text, read_f32, read_f64),
            Column::F32(a) => convert_f32(a, to, float_text, read_f32, read_f64),
            _ => self.duplicate(),
        }
    }
}

/// Converting a column of text or of floats to its own type copies it: the
/// copy has the same label and the same cells.
pub proof fn law_convert_to_own_kind<F: Fn(u32) -> String, P: Fn(&String) -> Option<u32>, Q: Fn(&String) -> Option<u64>>(
    r: Column,
    c: Column,
    float_text: F,
    read_f32: P,
    read_f64: Q,
)
    requires
        convertible(c.kind_view()),
        converted(r, c, c.kind_view(), float_text, read_f32, read_f64),
    ensures
        r.label_view() == c.label_view(),
        r.kind_view() == c.kind_view(),
        r.cells() == c.cells(),
{
    assert forall|j: int| 0 <= j < c.cells().len() implies r.cells()[j] == c.cells()[j] by {
        assert(cell_converted(r.cells()[j], c.cells()[j], c.kind_view(), float_text, read_f32, read_f64));
    }
    assert(r.cells() =~= c.cells());
}

} // verus!
