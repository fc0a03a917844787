//! A column of values of mixed types, laid out as Apache Arrow's dense union:
//! a kind and an offset per cell, and one child buffer per kind.
use vstd::prelude::*;

use super::super::col_sheet::utils::{str_equal, Reading};
use super::super::parse::{
    read_bool, read_i32, read_isize, read_u32, read_usize, spec_read_bool, spec_read_i32,
    spec_read_isize, spec_read_u32, spec_read_usize,
};
use super::utils::DataType;

verus! {

/// An owned value held in a [`Union`]; a float is held by its bit pattern.
#[derive(Debug, Clone, PartialEq)]
pub enum UnionType {
    U32(u32),
    I32(i32),
    USize(usize),
    ISize(isize),
    /// A 32 bit float, by its bit pattern.
    F32(u32),
    /// A 64 bit float, by its bit pattern.
    F64(u64),
    Boolean(bool),
    Text(String),
    Null,
}

/// What a cell of a [`Union`] holds.
pub enum UnionValue {
    U32(u32),
    I32(i32),
    USize(usize),
    ISize(isize),
    F32(u32),
    F64(u64),
    Boolean(bool),
    Text(Seq<char>),
    Null,
}

/// The number under which a kind of value is filed: 0 to 7 in the order of
/// the variants, 8 for null.
pub open spec fn kind_number(v: UnionValue) -> u8 {
    match v {
        UnionValue::U32(_) => 0,
        UnionValue::I32(_) => 1,
        UnionValue::USize(_) => 2,
        UnionValue::ISize(_) => 3,
        UnionValue::F32(_) => 4,
        UnionValue::F64(_) => 5,
        UnionValue::Boolean(_) => 6,
        UnionValue::Text(_) => 7,
        UnionValue::Null => 8,
    }
}

/// Whether a field of text stands for null: it is empty or reads `null`.
pub open spec fn null_text(t: Seq<char>) -> bool {
    t.len() == 0 || t == seq!['n', 'u', 'l', 'l']
}

/// The value a field of text is read as: null, else the first of a `u32`,
/// an `i32`, a `usize`, an `isize`, a 32 bit float, a 64 bit float and a
/// boolean it reads as, and text otherwise.
pub open spec fn parsed(r: Reading) -> UnionValue {
    let t = r.text@;
    if null_text(t) {
        UnionValue::Null
    } else if spec_read_u32(t) is Some {
        UnionValue::U32(spec_read_u32(t)->Some_0)
    } else if spec_read_i32(t) is Some {
        UnionValue::I32(spec_read_i32(t)->Some_0)
    } else if spec_read_usize(t) is Some {
        UnionValue::USize(spec_read_usize(t)->Some_0)
    } else if spec_read_isize(t) is Some {
        UnionValue::ISize(spec_read_isize(t)->Some_0)
    } else if r.as_f32 is Some {
        UnionValue::F32(r.as_f32->Some_0)
    } else if r.as_f64 is Some {
        UnionValue::F64(r.as_f64->Some_0)
    } else if spec_read_bool(t) is Some {
        UnionValue::Boolean(spec_read_bool(t)->Some_0)
    } else {
        UnionValue::Text(t)
    }
}

/// The value an optional input stands for: nothing is null.
pub open spec fn option_value(o: Option<UnionType>) -> UnionValue {
    match o {
        Some(v) => v.value(),
        None => UnionValue::Null,
    }
}

fn is_null_text(t: &str) -> (r: bool)
    ensures
        r == null_text(t@),
{
    proof {
        reveal_strlit("null");
        assert("null"@ =~= seq!['n', 'u', 'l', 'l']);
    }
    t.is_empty() || str_equal(t, "null")
}

impl UnionType {
    /// What the value is.
    pub open spec fn value(&self) -> UnionValue {
        match self {
            UnionType::U32(v) => UnionValue::U32(*v),
            UnionType::I32(v) => UnionValue::I32(*v),
            UnionType::USize(v) => UnionValue::USize(*v),
            UnionType::ISize(v) => UnionValue::ISize(*v),
            UnionType::F32(v) => UnionValue::F32(*v),
            UnionType::F64(v) => UnionValue::F64(*v),
            UnionType::Boolean(v) => UnionValue::Boolean(*v),
            UnionType::Text(v) => UnionValue::Text(v@),
            UnionType::Null => UnionValue::Null,
        }
    }

    /// Reads a field of text into a value.
    ///
    /// Both an empty field and the field `null` are read as
    /// [`UnionType::Null`].
    pub fn parse(input: &Reading) -> (r: Self)
        ensures
            r.value() == parsed(*input),
    {
        let t = input.text.as_str();
        if is_null_text(t) {
            return UnionType::Null;
        }
        if let Some(v) = read_u32(t) {
            return UnionType::U32(v);
        }
        if let Some(v) = read_i32(t) {
            return UnionType::I32(v);
        }
        if let Some(v) = read_usize(t) {
            return UnionType::USize(v);
        }
        if let Some(v) = read_isize(t) {
            return UnionType::ISize(v);
        }
        if let Some(v) = input.as_f32 {
            return UnionType::F32(v);
        }
        if let Some(v) = input.as_f64 {
            return UnionType::F64(v);
        }
        if let Some(v) = read_bool(t) {
            return UnionType::Boolean(v);
        }
        UnionType::Text(input.text.clone())
    }

    /// A shared view of the value.
    pub fn borrow(&self) -> (r: UnionRef<'_>)
        ensures
            r.value() == self.value(),
    {
        match self {
            UnionType::U32(v) => UnionRef::U32(*v),
            UnionType::I32(v) => UnionRef::I32(*v),
            UnionType::USize(v) => UnionRef::USize(*v),
            UnionType::ISize(v) => UnionRef::ISize(*v),
            UnionType::F32(v) => UnionRef::F32(*v),
            UnionType::F64(v) => UnionRef::F64(*v),
            UnionType::Boolean(v) => UnionRef::Boolean(*v),
            UnionType::Text(v) => UnionRef::Text(v.as_str()),
            UnionType::Null => UnionRef::Null,
        }
    }

    /// A copy of the value.
    pub fn duplicate(&self) -> (r: Self)
        ensures
            r.value() == self.value(),
    {
        match self {
            UnionType::U32(v) => UnionType::U32(*v),
            UnionType::I32(v) => UnionType::I32(*v),
            UnionType::USize(v) => UnionType::USize(*v),
            UnionType::ISize(v) => UnionType::ISize(*v),
            UnionType::F32(v) => UnionType::F32(*v),
            UnionType::F64(v) => UnionType::F64(*v),
            UnionType::Boolean(v) => UnionType::Boolean(*v),
            UnionType::Text(v) => UnionType::Text(v.clone()),
            UnionType::Null => UnionType::Null,
        }
    }
}

/// A shared view of a value held in a [`Union`].
#[derive(Debug, Clone, PartialEq)]
pub enum UnionRef<'a> {
    U32(u32),
    I32(i32),
    USize(usize),
    ISize(isize),
    /// A 32 bit float, by its bit pattern.
    F32(u32),
    /// A 64 bit float, by its bit pattern.
    F64(u64),
    Boolean(bool),
    Text(&'a str),
    Null,
}

impl<'a> UnionRef<'a> {
    /// What the value is.
    pub open spec fn value(&self) -> UnionValue {
        match self {
            UnionRef::U32(v) => UnionValue::U32(*v),
            UnionRef::I32(v) => UnionValue::I32(*v),
            UnionRef::USize(v) => UnionValue::USize(*v),
            UnionRef::ISize(v) => UnionValue::ISize(*v),
            UnionRef::F32(v) => UnionValue::F32(*v),
            UnionRef::F64(v) => UnionValue::F64(*v),
            UnionRef::Boolean(v) => UnionValue::Boolean(*v),
            UnionRef::Text(v) => UnionValue::Text(v@),
            UnionRef::Null => UnionValue::Null,
        }
    }

    /// An owned copy of the value.
    #[allow(clippy::wrong_self_convention)]
    pub fn to_owned(self) -> (r: UnionType)
        ensures
            r.value() == self.value(),
    {
        match self {
            UnionRef::U32(v) => UnionType::U32(v),
            UnionRef::I32(v) => UnionType::I32(v),
            UnionRef::USize(v) => UnionType::USize(v),
            UnionRef::ISize(v) => UnionType::ISize(v),
            UnionRef::F32(v) => UnionType::F32(v),
            UnionRef::F64(v) => UnionType::F64(v),
            UnionRef::Boolean(v) => UnionType::Boolean(v),
            UnionRef::Text(v) => UnionType::Text(v.to_string()),
            UnionRef::Null => UnionType::Null,
        }
    }
}


/// Whether an entry of a kind and an offset names a kind and, unless it is
/// null, a cell of that kind's buffer, given the buffers' lengths in the
/// order of the kinds; a null entry has offset 0.
pub open spec fn kinds_fit(e: (u8, usize), lens: Seq<int>) -> bool {
    &&& e.0 <= 8
    &&& e.0 < 8 ==> e.1 < lens[e.0 as int]
    &&& e.0 == 8 ==> e.1 == 0
}

/// Collects values of mixed types, one child buffer per kind, before they
/// are laid out in a [`Union`].
pub struct UnionBuilder {
    tracker: Vec<(u8, usize)>,
    uint32: Vec<u32>,
    int32: Vec<i32>,
    uintsize: Vec<usize>,
    intsize: Vec<isize>,
    float32: Vec<u32>,
    float64: Vec<u64>,
    boolean: Vec<bool>,
    text: Vec<String>,
}

impl UnionBuilder {
    closed spec fn child_lens(&self) -> Seq<int> {
        seq![
            self.uint32@.len() as int,
            self.int32@.len() as int,
            self.uintsize@.len() as int,
            self.intsize@.len() as int,
            self.float32@.len() as int,
            self.float64@.len() as int,
            self.boolean@.len() as int,
            self.text@.len() as int,
        ]
    }

    /// Each entry names a kind and, unless null, a cell of that kind's
    /// buffer; no buffer holds more cells than there are entries.
    pub closed spec fn wf(&self) -> bool {
        &&& forall|i: int|
            0 <= i < self.tracker@.len() ==> kinds_fit(#[trigger] self.tracker@[i], self.child_lens())
        &&& forall|k: int| 0 <= k < 8 ==> #[trigger] self.child_lens()[k] <= self.tracker@.len()
    }

    closed spec fn entry_value(&self, e: (u8, usize)) -> UnionValue {
        let o = e.1 as int;
        if e.0 == 0 {
            UnionValue::U32(self.uint32@[o])
        } else if e.0 == 1 {
            UnionValue::I32(self.int32@[o])
        } else if e.0 == 2 {
            UnionValue::USize(self.uintsize@[o])
        } else if e.0 == 3 {
            UnionValue::ISize(self.intsize@[o])
        } else if e.0 == 4 {
            UnionValue::F32(self.float32@[o])
        } else if e.0 == 5 {
            UnionValue::F64(self.float64@[o])
        } else if e.0 == 6 {
            UnionValue::Boolean(self.boolean@[o])
        } else if e.0 == 7 {
            UnionValue::Text(self.text@[o]@)
        } else {
            UnionValue::Null
        }
    }

    /// The values pushed so far, in order.
    pub closed spec fn values(&self) -> Seq<UnionValue> {
        Seq::new(self.tracker@.len(), |i: int| self.entry_value(self.tracker@[i]))
    }

    /// Pushing a cell of kind `k` onto its buffer and an entry for it keeps
    /// the entries fitting.
    proof fn lemma_grown(&self, before: Self, k: u8)
        requires
            before.wf(),
            k < 8,
            self.child_lens() == before.child_lens().update(k as int, before.child_lens()[k as int] + 1),
            self.tracker@ == before.tracker@.push((k, before.child_lens()[k as int] as usize)),
        ensures
            self.wf(),
    {
        assert forall|i: int| 0 <= i < self.tracker@.len() implies kinds_fit(
            #[trigger] self.tracker@[i],
            self.child_lens(),
        ) by {
            if i < before.tracker@.len() {
                assert(kinds_fit(before.tracker@[i], before.child_lens()));
            }
        }
    }

    pub fn new() -> (r: Self)
        ensures
            r.wf(),
            r.values() == Seq::<UnionValue>::empty(),
    {
        let r = UnionBuilder {
            tracker: Vec::new(),
            uint32: Vec::new(),
            int32: Vec::new(),
            uintsize: Vec::new(),
            intsize: Vec::new(),
            float32: Vec::new(),
            float64: Vec::new(),
            boolean: Vec::new(),
            text: Vec::new(),
        };
        assert(r.values() =~= Seq::<UnionValue>::empty());
        r
    }

    pub fn push_u32(&mut self, value: u32)
        requires
            old(self).wf(),
        ensures
            final(self).wf(),
            final(self).values() == old(self).values().push(UnionValue::U32(value)),
    {
        let off = self.uint32.len();
        self.uint32.push(value);
        self.tracker.push((0, off));
        proof {
            assert(self.child_lens() =~= old(self).child_lens().update(0, old(self).child_lens()[0] + 1));
            self.lemma_grown(*old(self), 0);
        }
        assert(self.values() =~= old(self).values().push(UnionValue::U32(value)));
    }

    pub fn push_i32(&mut self, value: i32)
        requires
            old(self).wf(),
        ensures
            final(self).wf(),
            final(self).values() == old(self).values().push(UnionValue::I32(value)),
    {
        let off = self.int32.len();
        self.int32.push(value);
        self.tracker.push((1, off));
        proof {
            assert(self.child_lens() =~= old(self).child_lens().update(1, old(self).child_lens()[1] + 1));
            self.lemma_grown(*old(self), 1);
        }
        assert(self.values() =~= old(self).values().push(UnionValue::I32(value)));
    }

    pub fn push_usize(&mut self, value: usize)
        requires
            old(self).wf(),
        ensures
            final(self).wf(),
            final(self).values() == old(self).values().push(UnionValue::USize(value)),
    {
        let off = self.uintsize.len();
        self.uintsize.push(value);
        self.tracker.push((2, off));
        proof {
            assert(self.child_lens() =~= old(self).child_lens().update(2, old(self).child_lens()[2] + 1));
            self.lemma_grown(*old(self), 2);
        }
        assert(self.values() =~= old(self).values().push(UnionValue::USize(value)));
    }

    pub fn push_isize(&mut self, value: isize)
        requires
            old(self).wf(),
        ensures
            final(self).wf(),
            final(self).values() == old(self).values().push(UnionValue::ISize(value)),
    {
        let off = self.intsize.len();
        self.intsize.push(value);
        self.tracker.push((3, off));
        proof {
            assert(self.child_lens() =~= old(self).child_lens().update(3, old(self).child_lens()[3] + 1));
            self.lemma_grown(*old(self), 3);
        }
        assert(self.values() =~= old(self).values().push(UnionValue::ISize(value)));
    }

    /// Pushes a 32 bit float, given by its bit pattern.
    pub fn push_f32(&mut self, value: u32)
        requires
            old(self).wf(),
        ensures
            final(self).wf(),
            final(self).values() == old(self).values().push(UnionValue::F32(value)),
    {
        let off = self.float32.len();
        self.float32.push(value);
        self.tracker.push((4, off));
        proof {
            assert(self.child_lens() =~= old(self).child_lens().update(4, old(self).child_lens()[4] + 1));
            self.lemma_grown(*old(self), 4);
        }
        assert(self.values() =~= old(self).values().push(UnionValue::F32(value)));
    }

    /// Pushes a 64 bit float, given by its bit pattern.
    pub fn push_f64(&mut self, value: u64)
        requires
            old(self).wf(),
        ensures
            final(self).wf(),
            final(self).values() == old(self).values().push(UnionValue::F64(value)),
    {
        let off = self.float64.len();
        self.float64.push(value);
        self.tracker.push((5, off));
        proof {
            assert(self.child_lens() =~= old(self).child_lens().update(5, old(self).child_lens()[5] + 1));
            self.lemma_grown(*old(self), 5);
        }
        assert(self.values() =~= old(self).values().push(UnionValue::F64(value)));
    }

    pub fn push_bool(&mut self, value: bool)
        requires
            old(self).wf(),
        ensures
            final(self).wf(),
            final(self).values() == old(self).values().push(UnionValue::Boolean(value)),
    {
        let off = self.boolean.len();
        self.boolean.push(value);
        self.tracker.push((6, off));
        proof {
            assert(self.child_lens() =~= old(self).child_lens().update(6, old(self).child_lens()[6] + 1));
            self.lemma_grown(*old(self), 6);
        }
        assert(self.values() =~= old(self).values().push(UnionValue::Boolean(value)));
    }

    pub fn push_string(&mut self, value: String)
        requires
            old(self).wf(),
        ensures
            final(self).wf(),
            final(self).values() == old(self).values().push(UnionValue::Text(value@)),
    {
        let ghost v = value@;
        let off = self.text.len();
        self.text.push(value);
        self.tracker.push((7, off));
        proof {
            assert(self.child_lens() =~= old(self).child_lens().update(7, old(self).child_lens()[7] + 1));
            self.lemma_grown(*old(self), 7);
        }
        assert(self.values() =~= old(self).values().push(UnionValue::Text(v)));
    }

    pub fn push_none(&mut self)
        requires
            old(self).wf(),
        ensures
            final(self).wf(),
            final(self).values() == old(self).values().push(UnionValue::Null),
    {
        self.tracker.push((8, 0));
        assert(self.child_lens() =~= old(self).child_lens());
        assert(self.values() =~= old(self).values().push(UnionValue::Null));
    }

    /// Pushes a value of any kind.
    pub fn push(&mut self, kind: UnionType)
        requires
            old(self).wf(),
        ensures
            final(self).wf(),
            final(self).values() == old(self).values().push(kind.value()),
    {
        match kind {
            UnionType::Null => self.push_none(),
            UnionType::U32(value) => self.push_u32(value),
            UnionType::I32(value) => self.push_i32(value),
            UnionType::USize(value) => self.push_usize(value),
            UnionType::ISize(value) => self.push_isize(value),
            UnionType::F32(value) => self.push_f32(value),
            UnionType::F64(value) => self.push_f64(value),
            UnionType::Boolean(value) => self.push_bool(value),
            UnionType::Text(value) => self.push_string(value),
        }
    }

    /// Reads a field of text into a value of the first kind it reads as,
    /// and pushes it.
    ///
    /// Both an empty field and the field `null` are pushed as null.
    pub fn parse_push(&mut self, input: &Reading)
        requires
            old(self).wf(),
        ensures
            final(self).wf(),
            final(self).values() == old(self).values().push(parsed(*input)),
    {
        let v = UnionType::parse(input);
        self.push(v);
    }

    /// A builder holding `values`, in order.
    pub fn from_sized_iter(values: Vec<UnionType>) -> (r: Self)
        ensures
            r.wf(),
            r.values() == values@.map_values(|v: UnionType| v.value()),
    {
        let mut own = Self::new();
        let mut i: usize = 0;
        while i < values.len()
            invariant
                i <= values.len(),
                own.wf(),
                own.values() == values@.take(i as int).map_values(|v: UnionType| v.value()),
            decreases values.len() - i,
        {
            own.push(values[i].duplicate());
            i = i + 1;
            assert(values@.take(i as int).map_values(|v: UnionType| v.value()) =~= values@.take(
                (i - 1) as int,
            ).map_values(|v: UnionType| v.value()).push(values@[i - 1].value()));
        }
        assert(values@.take(i as int) =~= values@);
        own
    }

    /// A builder holding the values `fields` are read as, in order.
    pub fn from_sized_iter_str(fields: Vec<Reading>) -> (r: Self)
        ensures
            r.wf(),
            r.values() == fields@.map_values(|f: Reading| parsed(f)),
    {
        let mut own = Self::new();
        let mut i: usize = 0;
        while i < fields.len()
            invariant
                i <= fields.len(),
                own.wf(),
                own.values() == fields@.take(i as int).map_values(|f: Reading| parsed(f)),
            decreases fields.len() - i,
        {
            own.parse_push(&fields[i]);
            i = i + 1;
            assert(fields@.take(i as int).map_values(|f: Reading| parsed(f)) =~= fields@.take(
                (i - 1) as int,
            ).map_values(|f: Reading| parsed(f)).push(parsed(fields@[i - 1])));
        }
        assert(fields@.take(i as int) =~= fields@);
        own
    }

    /// Returns the value at `idx`.
    pub fn get(&self, idx: usize) -> (r: Option<UnionType>)
        requires
            self.wf(),
            idx < self.values().len(),
        ensures
            r matches Some(v) && v.value() == self.values()[idx as int],
    {
        let (kind, offset) = self.tracker[idx];
        proof {
            assert(kinds_fit(self.tracker@[idx as int], self.child_lens()));
        }
        if kind == 0 {
            Some(UnionType::U32(self.uint32[offset]))
        } else if kind == 1 {
            Some(UnionType::I32(self.int32[offset]))
        } else if kind == 2 {
            Some(UnionType::USize(self.uintsize[offset]))
        } else if kind == 3 {
            Some(UnionType::ISize(self.intsize[offset]))
        } else if kind == 4 {
            Some(UnionType::F32(self.float32[offset]))
        } else if kind == 5 {
            Some(UnionType::F64(self.float64[offset]))
        } else if kind == 6 {
            Some(UnionType::Boolean(self.boolean[offset]))
        } else if kind == 7 {
            Some(UnionType::Text(self.text[offset].clone()))
        } else {
            Some(UnionType::Null)
        }
    }

    /// Returns the number of values pushed.
    pub fn len(&self) -> (r: usize)
        ensures
            r == self.values().len(),
    {
        self.tracker.len()
    }
}


impl Default for UnionBuilder {
    fn default() -> (r: Self)
        ensures
            r.wf(),
            r.values() == Seq::<UnionValue>::empty(),
    {
        Self::new()
    }
}

/// The number of entries of kind null.
pub open spec fn null_kinds(t: Seq<u8>) -> nat
    decreases t.len(),
{
    if t.len() == 0 {
        0
    } else {
        null_kinds(t.drop_last()) + if t.last() == 8 {
            1nat
        } else {
            0nat
        }
    }
}

proof fn lemma_null_kinds(t: Seq<u8>)
    ensures
        null_kinds(t) <= t.len(),
        null_kinds(t) == t.len() <==> forall|i: int| 0 <= i < t.len() ==> #[trigger] t[i] == 8,
    decreases t.len(),
{
    if t.len() > 0 {
        let d = t.drop_last();
        lemma_null_kinds(d);
        if null_kinds(t) == t.len() {
            assert forall|i: int| 0 <= i < t.len() implies #[trigger] t[i] == 8 by {
                if i < t.len() - 1 {
                    assert(d[i] == t[i]);
                }
            }
        }
        if forall|i: int| 0 <= i < t.len() ==> #[trigger] t[i] == 8 {
            assert forall|i: int| 0 <= i < d.len() implies #[trigger] d[i] == 8 by {
                assert(t[i] == 8);
            }
            assert(t[t.len() - 1] == 8);
        }
    }
}

/// An array of values of mixed types, corresponding to Apache Arrow's dense
/// union: for each cell its kind and its offset in that kind's buffer.
pub struct Union {
    types: Vec<u8>,
    offsets: Vec<u32>,
    nulls: usize,
    uint32: Vec<u32>,
    int32: Vec<i32>,
    uintsize: Vec<usize>,
    intsize: Vec<isize>,
    float32: Vec<u32>,
    float64: Vec<u64>,
    boolean: Vec<bool>,
    text: Vec<String>,
}

impl Union {
    closed spec fn child_lens(&self) -> Seq<int> {
        seq![
            self.uint32@.len() as int,
            self.int32@.len() as int,
            self.uintsize@.len() as int,
            self.intsize@.len() as int,
            self.float32@.len() as int,
            self.float64@.len() as int,
            self.boolean@.len() as int,
            self.text@.len() as int,
        ]
    }

    /// One kind and one offset per cell, each offset within its kind's
    /// buffer, and `nulls` counts the null cells.
    #[verifier::type_invariant]
    closed spec fn laid_out(&self) -> bool {
        &&& self.types@.len() == self.offsets@.len()
        &&& forall|i: int|
            0 <= i < self.types@.len() ==> kinds_fit(
                (#[trigger] self.types@[i], self.offsets@[i] as usize),
                self.child_lens(),
            )
        &&& self.nulls == null_kinds(self.types@)
    }

    closed spec fn entry_value(&self, k: u8, o: u32) -> UnionValue {
        let o = o as int;
        if k == 0 {
            UnionValue::U32(self.uint32@[o])
        } else if k == 1 {
            UnionValue::I32(self.int32@[o])
        } else if k == 2 {
            UnionValue::USize(self.uintsize@[o])
        } else if k == 3 {
            UnionValue::ISize(self.intsize@[o])
        } else if k == 4 {
            UnionValue::F32(self.float32@[o])
        } else if k == 5 {
            UnionValue::F64(self.float64@[o])
        } else if k == 6 {
            UnionValue::Boolean(self.boolean@[o])
        } else if k == 7 {
            UnionValue::Text(self.text@[o]@)
        } else {
            UnionValue::Null
        }
    }
}

impl View for Union {
    type V = Seq<UnionValue>;

    closed spec fn view(&self) -> Seq<UnionValue> {
        Seq::new(self.types@.len(), |i: int| self.entry_value(self.types@[i], self.offsets@[i]))
    }
}

impl Union {
    proof fn lemma_kinds(&self)
        requires
            self.laid_out(),
        ensures
            forall|i: int| 0 <= i < self@.len() ==> kind_number(#[trigger] self@[i]) == self.types@[i],
    {
        assert forall|i: int| 0 <= i < self@.len() implies kind_number(#[trigger] self@[i]) == self.types@[i] by {
            assert(kinds_fit((self.types@[i], self.offsets@[i] as usize), self.child_lens()));
        }
    }

    /// Lays out the values collected by `builder`.
    pub fn from_builder(builder: UnionBuilder) -> (r: Self)
        requires
            builder.wf(),
            builder.values().len() <= u32::MAX,
        ensures
            r@ == builder.values(),
    {
        let ghost b = builder;
        let UnionBuilder {
            tracker,
            uint32,
            int32,
            uintsize,
            intsize,
            float32,
            float64,
            boolean,
            text,
        } = builder;
        let n = tracker.len();
        let mut types: Vec<u8> = Vec::new();
        let mut offsets: Vec<u32> = Vec::new();
        let mut nulls: usize = 0;
        let mut i: usize = 0;
        while i < n
            invariant
                n == tracker@.len(),
                tracker@ == b.tracker@,
                b.wf(),
                n <= u32::MAX,
                i <= n,
                types@.len() == i,
                offsets@.len() == i,
                forall|j: int|
                    0 <= j < i ==> #[trigger] types@[j] == tracker@[j].0 && offsets@[j] as int
                        == tracker@[j].1 as int,
                nulls == null_kinds(types@),
            decreases n - i,
        {
            let (kind, offset) = tracker[i];
            proof {
                assert(kinds_fit(b.tracker@[i as int], b.child_lens()));
                if kind < 8 {
                    assert(b.child_lens()[kind as int] <= b.tracker@.len());
                }
                assert(offset <= u32::MAX);
                lemma_null_kinds(types@);
            }
            let ghost before = types@;
            types.push(kind);
            offsets.push(offset as u32);
            if kind == 8 {
                nulls = nulls + 1;
            }
            assert(types@.drop_last() =~= before);
            i = i + 1;
        }
        let r = Union {
            types,
            offsets,
            nulls,
            uint32,
            int32,
            uintsize,
            intsize,
            float32,
            float64,
            boolean,
            text,
        };
        proof {
            assert(r.child_lens() =~= b.child_lens());
            assert forall|j: int| 0 <= j < r.types@.len() implies kinds_fit(
                (#[trigger] r.types@[j], r.offsets@[j] as usize),
                r.child_lens(),
            ) by {
                assert(kinds_fit(b.tracker@[j], b.child_lens()));
            }
            assert(r@ =~= b.values()) by {
                assert forall|j: int| 0 <= j < r@.len() implies r@[j] == b.values()[j] by {
                    assert(kinds_fit(b.tracker@[j], b.child_lens()));
                }
            }
        }
        r
    }

    /// Creates a [`Union`] from `values`, a missing value standing for null.
    pub fn new(values: Vec<Option<UnionType>>) -> (r: Self)
        requires
            values.len() <= u32::MAX,
        ensures
            r@ == values@.map_values(|o: Option<UnionType>| option_value(o)),
    {
        let mut own = UnionBuilder::new();
        let mut i: usize = 0;
        while i < values.len()
            invariant
                i <= values.len(),
                own.wf(),
                own.values() == values@.take(i as int).map_values(
                    |o: Option<UnionType>| option_value(o),
                ),
            decreases values.len() - i,
        {
            let v = match &values[i] {
                Some(v) => v.duplicate(),
                None => UnionType::Null,
            };
            own.push(v);
            i = i + 1;
            assert(values@.take(i as int).map_values(|o: Option<UnionType>| option_value(o))
                =~= values@.take((i - 1) as int).map_values(
                |o: Option<UnionType>| option_value(o),
            ).push(option_value(values@[i - 1])));
        }
        assert(values@.take(i as int) =~= values@);
        Self::from_builder(own)
    }

    /// Creates a [`Union`] from a vec.
    pub fn from_vec(values: Vec<UnionType>) -> (r: Self)
        requires
            values.len() <= u32::MAX,
        ensures
            r@ == values@.map_values(|v: UnionType| v.value()),
    {
        let builder = UnionBuilder::from_sized_iter(values);
        Self::from_builder(builder)
    }

    /// Returns the number of cells.
    pub fn len(&self) -> (r: usize)
        ensures
            r == self@.len(),
    {
        self.types.len()
    }

    /// Returns true if the array holds no cell.
    pub fn is_empty(&self) -> (r: bool)
        ensures
            r == (self@.len() == 0),
    {
        self.types.len() == 0
    }

    /// Returns the data type of the array.
    pub fn data_type(&self) -> (r: DataType)
        ensures
            r == DataType::Union,
    {
        DataType::Union
    }

    /// Returns true if every cell is null.
    pub fn all_null(&self) -> (r: bool)
        ensures
            r == forall|i: int| 0 <= i < self@.len() ==> #[trigger] self@[i] is Null,
    {
        proof {
            use_type_invariant(self);
            lemma_null_kinds(self.types@);
            self.lemma_kinds();
            if forall|i: int| 0 <= i < self@.len() ==> #[trigger] self@[i] is Null {
                assert forall|i: int| 0 <= i < self.types@.len() implies #[trigger] self.types@[i] == 8 by {
                    assert(self@[i] is Null);
                }
            }
            if self.nulls == self.types@.len() {
                assert forall|i: int| 0 <= i < self@.len() implies #[trigger] self@[i] is Null by {
                    assert(self.types@[i] == 8);
                }
            }
        }
        self.nulls == self.types.len()
    }

    /// Returns true if the cell at `idx` is null.
    pub fn check_null(&self, idx: usize) -> (r: bool)
        requires
            idx < self@.len(),
        ensures
            r == self@[idx as int] is Null,
    {
        proof {
            use_type_invariant(self);
            self.lemma_kinds();
        }
        if self.all_null() {
            return true;
        }
        self.types[idx] == 8
    }

    /// Returns the value at `idx`, if there is a cell there.
    pub fn get(&self, idx: usize) -> (r: Option<UnionType>)
        ensures
            idx < self@.len() ==> (r matches Some(v) && v.value() == self@[idx as int]),
            idx >= self@.len() ==> r is None,
    {
        proof {
            use_type_invariant(self);
        }
        if idx >= self.types.len() {
            return None;
        }
        let kind = self.types[idx];
        let offset = self.offsets[idx] as usize;
        proof {
            assert(kinds_fit((self.types@[idx as int], self.offsets@[idx as int] as usize), self.child_lens()));
        }
        if kind == 0 {
            Some(UnionType::U32(self.uint32[offset]))
        } else if kind == 1 {
            Some(UnionType::I32(self.int32[offset]))
        } else if kind == 2 {
            Some(UnionType::USize(self.uintsize[offset]))
        } else if kind == 3 {
            Some(UnionType::ISize(self.intsize[offset]))
        } else if kind == 4 {
            Some(UnionType::F32(self.float32[offset]))
        } else if kind == 5 {
            Some(UnionType::F64(self.float64[offset]))
        } else if kind == 6 {
            Some(UnionType::Boolean(self.boolean[offset]))
        } else if kind == 7 {
            Some(UnionType::Text(self.text[offset].clone()))
        } else {
            Some(UnionType::Null)
        }
    }

    /// Returns a shared view of the value at `idx`, if there is a cell there.
    pub fn get_ref(&self, idx: usize) -> (r: Option<UnionRef<'_>>)
        ensures
            idx < self@.len() ==> (r matches Some(v) && v.value() == self@[idx as int]),
            idx >= self@.len() ==> r is None,
    {
        proof {
            use_type_invariant(self);
        }
        if idx >= self.types.len() {
            return None;
        }
        let kind = self.types[idx];
        let offset = self.offsets[idx] as usize;
        proof {
            assert(kinds_fit((self.types@[idx as int], self.offsets@[idx as int] as usize), self.child_lens()));
        }
        if kind == 0 {
            Some(UnionRef::U32(self.uint32[offset]))
        } else if kind == 1 {
            Some(UnionRef::I32(self.int32[offset]))
        } else if kind == 2 {
            Some(UnionRef::USize(self.uintsize[offset]))
        } else if kind == 3 {
            Some(UnionRef::ISize(self.intsize[offset]))
        } else if kind == 4 {
            Some(UnionRef::F32(self.float32[offset]))
        } else if kind == 5 {
            Some(UnionRef::F64(self.float64[offset]))
        } else if kind == 6 {
            Some(UnionRef::Boolean(self.boolean[offset]))
        } else if kind == 7 {
            Some(UnionRef::Text(self.text[offset].as_str()))
        } else {
            Some(UnionRef::Null)
        }
    }

    /// Whether the cells at `i` of `self` and of `other` hold the same value.
    fn same_cell(&self, other: &Self, i: usize) -> (r: bool)
        requires
            i < self@.len(),
            i < other@.len(),
        ensures
            r == (self@[i as int] == other@[i as int]),
    {
        proof {
            use_type_invariant(self);
            use_type_invariant(other);
            self.lemma_kinds();
            other.lemma_kinds();
            assert(kinds_fit((self.types@[i as int], self.offsets@[i as int] as usize), self.child_lens()));
            assert(kinds_fit((other.types@[i as int], other.offsets@[i as int] as usize), other.child_lens()));
        }
        let kind = self.types[i];
        if kind != other.types[i] {
            assert(kind_number(self@[i as int]) != kind_number(other@[i as int]));
            return false;
        }
        let a = self.offsets[i] as usize;
        let b = other.offsets[i] as usize;
        if kind == 0 {
            self.uint32[a] == other.uint32[b]
        } else if kind == 1 {
            self.int32[a] == other.int32[b]
        } else if kind == 2 {
            self.uintsize[a] == other.uintsize[b]
        } else if kind == 3 {
            self.intsize[a] == other.intsize[b]
        } else if kind == 4 {
            self.float32[a] == other.float32[b]
        } else if kind == 5 {
            self.float64[a] == other.float64[b]
        } else if kind == 6 {
            self.boolean[a] == other.boolean[b]
        } else if kind == 7 {
            str_equal(self.text[a].as_str(), other.text[b].as_str())
        } else {
            true
        }
    }

    /// Whether both arrays hold the same values, floats compared by their
    /// bit patterns.
    pub fn same_values(&self, other: &Self) -> (r: bool)
        ensures
            r == (self@ == other@),
    {
        let n = self.len();
        if n != other.len() {
            return false;
        }
        let mut i: usize = 0;
        while i < n
            invariant
                n == self@.len(),
                n == other@.len(),
                i <= n,
                forall|j: int| 0 <= j < i ==> self@[j] == other@[j],
            decreases n - i,
        {
            if !self.same_cell(other, i) {
                return false;
            }
            i = i + 1;
        }
        assert(self@ =~= other@);
        true
    }

    /// A copy of the array.
    pub fn duplicate(&self) -> (r: Self)
        ensures
            r@ == self@,
    {
        proof {
            use_type_invariant(self);
        }
        let n = self.text.len();
        let mut text: Vec<String> = Vec::new();
        let mut i: usize = 0;
        while i < n
            invariant
                n == self.text@.len(),
                i <= n,
                text@ == self.text@.take(i as int),
            decreases n - i,
        {
            text.push(self.text[i].clone());
            i = i + 1;
            assert(text@ =~= self.text@.take(i as int));
        }
        assert(text@ =~= self.text@);
        let r = Union {
            types: self.types.clone(),
            offsets: self.offsets.clone(),
            nulls: self.nulls,
            uint32: self.uint32.clone(),
            int32: self.int32.clone(),
            uintsize: self.uintsize.clone(),
            intsize: self.intsize.clone(),
            float32: self.float32.clone(),
            float64: self.float64.clone(),
            boolean: self.boolean.clone(),
            text,
        };
        proof {
            assert(r.child_lens() =~= self.child_lens());
            assert forall|j: int| 0 <= j < r.types@.len() implies kinds_fit(
                (#[trigger] r.types@[j], r.offsets@[j] as usize),
                r.child_lens(),
            ) by {
                assert(kinds_fit((self.types@[j], self.offsets@[j] as usize), self.child_lens()));
            }
            assert(r@ =~= self@);
        }
        r
    }

    /// The values of the array, each as [`Union::get`] returns it.
    pub fn to_vec(self) -> (r: Vec<Option<UnionType>>)
        ensures
            r@.len() == self@.len(),
            forall|i: int| 0 <= i < r@.len() ==> (#[trigger] r@[i] matches Some(v) && v.value() == self@[i]),
    {
        let n = self.len();
        let mut out: Vec<Option<UnionType>> = Vec::new();
        let mut i: usize = 0;
        while i < n
            invariant
                n == self@.len(),
                i <= n,
                out@.len() == i,
                forall|j: int| 0 <= j < i ==> (#[trigger] out@[j] matches Some(v) && v.value() == self@[j]),
            decreases n - i,
        {
            out.push(self.get(i));
            i = i + 1;
        }
        out
    }

    /// An iterator over shared views of the values.
    pub fn iter(&self) -> (r: Iter<'_>)
        ensures
            r.remaining() == self@,
    {
        let r = Iter { array: self, idx: 0 };
        assert(self@.skip(0) =~= self@);
        r
    }

    /// An iterator over the values, which owns the array.
    pub fn into_iter(self) -> (r: IntoIter)
        ensures
            r.remaining() == self@,
    {
        let r = IntoIter { array: self, idx: 0 };
        assert(r.array@.skip(0) =~= r.array@);
        r
    }
}

impl Clone for Union {
    fn clone(&self) -> (r: Self)
        ensures
            r@ == self@,
    {
        self.duplicate()
    }
}

impl PartialEq for Union {
    fn eq(&self, other: &Self) -> (r: bool) {
        self.same_values(other)
    }
}

impl vstd::std_specs::cmp::PartialEqSpecImpl for Union {
    open spec fn obeys_eq_spec() -> bool {
        true
    }

    open spec fn eq_spec(&self, other: &Self) -> bool {
        self@ == other@
    }
}

/// An iterator over shared views of the values of a [`Union`].
pub struct Iter<'a> {
    array: &'a Union,
    idx: usize,
}

impl<'a> Iter<'a> {
    #[verifier::type_invariant]
    closed spec fn in_range(&self) -> bool {
        self.idx <= self.array@.len()
    }

    /// The values not yet visited.
    pub closed spec fn remaining(&self) -> Seq<UnionValue> {
        self.array@.skip(self.idx as int)
    }

    /// Returns the next value, if any.
    pub fn next(&mut self) -> (r: Option<Option<UnionRef<'a>>>)
        ensures
            old(self).remaining().len() > 0 ==> (r matches Some(Some(v)) && v.value() == old(
                self,
            ).remaining()[0] && final(self).remaining() == old(self).remaining().drop_first()),
            old(self).remaining().len() == 0 ==> r is None && final(self).remaining() == old(self).remaining(),
    {
        proof {
            use_type_invariant(&*self);
        }
        let n = self.array.len();
        if self.idx >= n {
            return None;
        }
        let c = self.array.get_ref(self.idx);
        self.idx = self.idx + 1;
        proof {
            assert(self.array@.skip(self.idx as int) =~= old(self).array@.skip(old(self).idx as int).drop_first());
        }
        Some(c)
    }

    /// Returns the number of values not yet visited.
    pub fn len(&self) -> (r: usize)
        ensures
            r == self.remaining().len(),
    {
        proof {
            use_type_invariant(self);
        }
        self.array.len() - self.idx
    }
}

/// An iterator over the values of a [`Union`], which it owns.
pub struct IntoIter {
    array: Union,
    idx: usize,
}

impl IntoIter {
    #[verifier::type_invariant]
    closed spec fn in_range(&self) -> bool {
        self.idx <= self.array@.len()
    }

    /// The values not yet visited.
    pub closed spec fn remaining(&self) -> Seq<UnionValue> {
        self.array@.skip(self.idx as int)
    }

    /// Returns the next value, if any.
    pub fn next(&mut self) -> (r: Option<Option<UnionType>>)
        ensures
            old(self).remaining().len() > 0 ==> (r matches Some(Some(v)) && v.value() == old(
                self,
            ).remaining()[0] && final(self).remaining() == old(self).remaining().drop_first()),
            old(self).remaining().len() == 0 ==> r is None && final(self).remaining() == old(self).remaining(),
    {
        proof {
            use_type_invariant(&*self);
        }
        let n = self.array.len();
        if self.idx >= n {
            return None;
        }
        let c = self.array.get(self.idx);
        self.idx = self.idx + 1;
        proof {
            assert(self.array@.skip(self.idx as int) =~= old(self).array@.skip(old(self).idx as int).drop_first());
        }
        Some(c)
    }

    /// Returns the number of values not yet visited.
    pub fn len(&self) -> (r: usize)
        ensures
            r == self.remaining().len(),
    {
        proof {
            use_type_invariant(self);
        }
        self.array.len() - self.idx
    }
}

} // verus!
