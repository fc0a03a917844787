use vstd::prelude::*;

use super::utils::{is_null_text, parse_text, swap_seq, swaps_applied, DataType};

verus! {

/// The characters of an optional string.
pub open spec fn text_view(t: Option<String>) -> Option<Seq<char>> {
    match t {
        Some(s) => Some(s@),
        None => None,
    }
}

/// What a text cell holds after reading `input`: nothing for a null input,
/// the input itself otherwise.
pub open spec fn spec_text_cell(input: Seq<char>, null: Seq<char>) -> Option<Seq<char>> {
    if is_null_text(input, null) {
        None
    } else {
        Some(input)
    }
}

/// A column of text cells, each of which may be empty.
#[derive(Debug, Clone, PartialEq)]
pub struct ArrayText {
    header: Option<String>,
    cells: Vec<Option<String>>,
}

impl ArrayText {
    /// The header label of the column.
    pub closed spec fn label_view(&self) -> Option<Seq<char>> {
        text_view(self.header)
    }

    /// The cells of the column, top to bottom.
    pub closed spec fn cells_view(&self) -> Seq<Option<Seq<char>>> {
        self.cells@.map_values(|c: Option<String>| text_view(c))
    }

    pub fn new() -> (r: Self)
        ensures
            r.label_view() is None,
            r.cells_view() == Seq::<Option<Seq<char>>>::empty(),
    {
        let r = ArrayText { header: None, cells: Vec::new() };
        assert(r.cells_view() =~= Seq::<Option<Seq<char>>>::empty());
        r
    }

    /// A column holding `values`, none of them empty.
    pub fn from_iterator(values: Vec<String>) -> (r: Self)
        ensures
            r.label_view() is None,
            r.cells_view() == values@.map_values(|v: String| Some(v@)),
    {
        let mut cells: Vec<Option<String>> = Vec::new();
        let mut values = values;
        let ghost orig = values@;
        let mut rev: Vec<String> = Vec::new();
        // Move the values out back to front, then restore their order.
        while values.len() > 0
            invariant
                values@.len() + rev@.len() == orig.len(),
                values@ == orig.take(values@.len() as int),
                forall|j: int| 0 <= j < rev@.len() ==> #[trigger] rev@[j] == orig[orig.len() - 1 - j],
            decreases values.len(),
        {
            let v = values.pop().unwrap();
            rev.push(v);
            assert(values@ =~= orig.take(values@.len() as int));
        }
        while rev.len() > 0
            invariant
                rev@.len() + cells@.len() == orig.len(),
                forall|j: int| 0 <= j < rev@.len() ==> #[trigger] rev@[j] == orig[orig.len() - 1 - j],
                forall|j: int| 0 <= j < cells@.len() ==> #[trigger] cells@[j] == Some(orig[j]),
            decreases rev.len(),
        {
            let v = rev.pop().unwrap();
            cells.push(Some(v));
        }
        let r = ArrayText { header: None, cells };
        assert(r.cells_view() =~= orig.map_values(|v: String| Some(v@)));
        r
    }

    /// A column holding `values` as they are.
    pub fn from_iterator_option(values: Vec<Option<String>>) -> (r: Self)
        ensures
            r.label_view() is None,
            r.cells_view() == values@.map_values(|c: Option<String>| text_view(c)),
    {
        ArrayText { header: None, cells: values }
    }

    /// Sets the header label and hands the column back for further calls.
    pub fn set_header(&mut self, header: String) -> (r: &mut Self)
        ensures
            r.label_view() == Some(header@),
            r.cells_view() == old(self).cells_view(),
            *final(self) == *final(r),
    {
        self.header = Some(header);
        self
    }

    /// A copy of the text at `idx`, if `idx` is in range and the cell is not empty.
    pub fn get(&self, idx: usize) -> (r: Option<String>)
        ensures
            text_view(r) == (if idx < self.cells_view().len() {
                self.cells_view()[idx as int]
            } else {
                None
            }),
    {
        if idx < self.cells.len() {
            match &self.cells[idx] {
                Some(s) => Some(s.clone()),
                None => None,
            }
        } else {
            None
        }
    }

    /// The text at `idx`, if `idx` is in range and the cell is not empty.
    pub fn get_ref(&self, idx: usize) -> (r: Option<&String>)
        ensures
            r matches Some(s) ==> idx < self.cells_view().len() && self.cells_view()[idx as int]
                == Some(s@),
            r is None ==> idx >= self.cells_view().len() || self.cells_view()[idx as int] is None,
    {
        if idx < self.cells.len() {
            match &self.cells[idx] {
                Some(s) => Some(s),
                None => None,
            }
        } else {
            None
        }
    }

    /// Reads every string in `values`; null strings become empty cells.
    pub fn parse_str(values: &Vec<String>, null: &str) -> (r: Self)
        ensures
            r.label_view() is None,
            r.cells_view() == values@.map_values(|v: String| spec_text_cell(v@, null@)),
    {
        let mut cells: Vec<Option<String>> = Vec::new();
        let mut i: usize = 0;
        while i < values.len()
            invariant
                i <= values@.len(),
                cells@.len() == i,
                forall|j: int|
                    0 <= j < i ==> text_view(#[trigger] cells@[j]) == spec_text_cell(
                        values@[j]@,
                        null@,
                    ),
            decreases values.len() - i,
        {
            let parsed = parse_text(values[i].as_str(), null);
            cells.push(parsed);
            i = i + 1;
        }
        let r = ArrayText { header: None, cells };
        assert(r.cells_view() =~= values@.map_values(|v: String| spec_text_cell(v@, null@)));
        r
    }

    /// Appends `value`; a null value appends an empty cell.
    pub fn push(&mut self, value: &str, null: &str)
        ensures
            final(self).label_view() == old(self).label_view(),
            final(self).cells_view() == old(self).cells_view().push(spec_text_cell(value@, null@)),
    {
        let parsed = parse_text(value, null);
        self.cells.push(parsed);
        assert(self.cells_view() =~= old(self).cells_view().push(spec_text_cell(value@, null@)));
    }

    /// Removes the cell at `idx`, if any, shifting the cells below up.
    pub fn remove(&mut self, idx: usize)
        ensures
            final(self).label_view() == old(self).label_view(),
            final(self).cells_view() == (if idx < old(self).cells_view().len() {
                old(self).cells_view().remove(idx as int)
            } else {
                old(self).cells_view()
            }),
    {
        if idx >= self.cells.len() {
            return ;
        }
        self.cells.remove(idx);
        assert(self.cells_view() =~= old(self).cells_view().remove(idx as int));
    }

    /// Removes every cell.
    pub fn remove_all(&mut self)
        ensures
            final(self).label_view() == old(self).label_view(),
            final(self).cells_view() == Seq::<Option<Seq<char>>>::empty(),
    {
        self.cells.clear();
        assert(self.cells_view() =~= Seq::<Option<Seq<char>>>::empty());
    }

    /// Inserts `value` at `idx`; a null value inserts an empty cell. Nothing
    /// happens if `idx` is past the end.
    pub fn insert(&mut self, value: &str, idx: usize, null: &str)
        ensures
            final(self).label_view() == old(self).label_view(),
            final(self).cells_view() == (if idx <= old(self).cells_view().len() {
                old(self).cells_view().insert(idx as int, spec_text_cell(value@, null@))
            } else {
                old(self).cells_view()
            }),
    {
        if idx > self.cells.len() {
            return ;
        }
        let parsed = parse_text(value, null);
        self.cells.insert(idx, parsed);
        assert(self.cells_view() =~= old(self).cells_view().insert(
            idx as int,
            spec_text_cell(value@, null@),
        ));
    }

    /// Swaps the cells at `pos` and `indices[pos]`, for each `pos` in order.
    pub fn apply_index_swap(&mut self, indices: &[usize])
        requires
            forall|i: int| 0 <= i < indices@.len() ==> #[trigger] indices@[i] < old(self).cells_view().len(),
            indices@.len() <= old(self).cells_view().len(),
        ensures
            final(self).label_view() == old(self).label_view(),
            final(self).cells_view() == swaps_applied(old(self).cells_view(), indices@),
    {
        let mut pos: usize = 0;
        while pos < indices.len()
            invariant
                pos <= indices@.len(),
                indices@.len() <= self.cells@.len(),
                self.cells@.len() == old(self).cells@.len(),
                forall|i: int| 0 <= i < indices@.len() ==> #[trigger] indices@[i] < self.cells@.len(),
                self.header == old(self).header,
                self.cells_view() == swaps_applied(old(self).cells_view(), indices@.take(pos as int)),
            decreases indices.len() - pos,
        {
            let elem = indices[pos];
            self.swap_cells(pos, elem);
            proof {
                assert(indices@.take(pos + 1).drop_last() =~= indices@.take(pos as int));
            }
            pos = pos + 1;
        }
        assert(indices@.take(pos as int) =~= indices@);
    }

    fn swap_cells(&mut self, x: usize, y: usize)
        requires
            x < old(self).cells@.len(),
            y < old(self).cells@.len(),
        ensures
            final(self).header == old(self).header,
            final(self).cells@.len() == old(self).cells@.len(),
            final(self).cells_view() == swap_seq(old(self).cells_view(), x as int, y as int),
    {
        let ghost c = self.cells@;
        if x == y {
            assert(self.cells@ =~= swap_seq(c, x as int, y as int));
            return ;
        }
        let mut tmp: Option<String> = None;
        self.cells.set_and_swap(x, &mut tmp);
        self.cells.set_and_swap(y, &mut tmp);
        self.cells.set_and_swap(x, &mut tmp);
        assert(self.cells@ =~= swap_seq(c, x as int, y as int));
        assert(self.cells_view() =~= swap_seq(old(self).cells_view(), x as int, y as int));
    }

    /// The cells of the column, top to bottom.
    pub fn iter(&self) -> (r: core::slice::Iter<'_, Option<String>>)
        ensures
            vstd::std_specs::iter::IteratorSpec::remaining(&r).unref().map_values(|c: Option<String>| text_view(c))
                == self.cells_view(),
    {
        broadcast use vstd::std_specs::slice::axiom_spec_slice_iter;
        self.cells.as_slice().iter()
    }

    /// The cells of the column, to change in place, top to bottom.
    pub fn iter_mut(&mut self) -> (r: &mut [Option<String>])
        ensures
            r@.map_values(|c: Option<String>| text_view(c)) == old(self).cells_view(),
            final(self).cells_view() == final(r)@.map_values(|c: Option<String>| text_view(c)),
            final(self).label_view() == old(self).label_view(),
    {
        self.cells.as_mut_slice()
    }

    /// The text at `idx` for modification, if `idx` is in range and the cell
    /// is not empty.
    pub fn get_mut(&mut self, idx: usize) -> (r: Option<&mut String>)
        ensures
            r matches Some(v) ==> idx < old(self).cells_view().len() && old(self).cells_view()[idx as int] == Some(v@)
                && final(self).cells_view() == old(self).cells_view().update(idx as int, Some(final(v)@))
                && final(self).label_view() == old(self).label_view(),
            r is None ==> (idx >= old(self).cells_view().len() || old(self).cells_view()[idx as int] is None)
                && final(self).cells_view() == old(self).cells_view()
                && final(self).label_view() == old(self).label_view(),
    {
        if idx >= self.cells.len() {
            return None;
        }
        match &mut self.cells[idx] {
            Some(v) => Some(v),
            None => None,
        }
    }

    pub fn label(&self) -> (r: Option<&str>)
        ensures
            r matches Some(s) ==> self.label_view() == Some(s@),
            r is None ==> self.label_view() is None,
    {
        match &self.header {
            Some(h) => Some(h.as_str()),
            None => None,
        }
    }

    pub fn kind(&self) -> (r: DataType)
        ensures
            r == DataType::Text,
    {
        DataType::Text
    }

    pub fn len(&self) -> (r: usize)
        ensures
            r == self.cells_view().len(),
    {
        self.cells.len()
    }

    pub fn is_empty(&self) -> (r: bool)
        ensures
            r == (self.cells_view().len() == 0),
    {
        self.cells.len() == 0
    }

    /// Overwrites the cell at `idx` with `value`; a null value empties it. An
    /// out of range `idx` changes nothing. Text always reads, so this returns true.
    pub fn set_position(&mut self, value: &str, idx: usize, null: &str) -> (r: bool)
        ensures
            r,
            final(self).label_view() == old(self).label_view(),
            final(self).cells_view() == (if idx < old(self).cells_view().len() {
                old(self).cells_view().update(idx as int, spec_text_cell(value@, null@))
            } else {
                old(self).cells_view()
            }),
    {
        let parsed = parse_text(value, null);
        if idx < self.cells.len() {
            self.cells.set(idx, parsed);
            assert(self.cells_view() =~= old(self).cells_view().update(
                idx as int,
                spec_text_cell(value@, null@),
            ));
        }
        true
    }

    /// Swaps the cells at `x` and `y`; nothing happens if either is out of range.
    pub fn swap(&mut self, x: usize, y: usize)
        ensures
            final(self).label_view() == old(self).label_view(),
            final(self).cells_view() == (if x < old(self).cells_view().len() && y < old(
                self,
            ).cells_view().len() {
                swap_seq(old(self).cells_view(), x as int, y as int)
            } else {
                old(self).cells_view()
            }),
    {
        if x >= self.cells.len() || y >= self.cells.len() {
            return ;
        }
        self.swap_cells(x, y);
    }

    /// Empties the cell at `idx`, if any.
    pub fn clear(&mut self, idx: usize)
        ensures
            final(self).label_view() == old(self).label_view(),
            final(self).cells_view() == (if idx < old(self).cells_view().len() {
                old(self).cells_view().update(idx as int, None)
            } else {
                old(self).cells_view()
            }),
    {
        if idx < self.cells.len() {
            self.cells.set(idx, None);
            assert(self.cells_view() =~= old(self).cells_view().update(idx as int, None));
        }
    }

    /// Empties every cell, keeping the length.
    pub fn clear_all(&mut self)
        ensures
            final(self).label_view() == old(self).label_view(),
            final(self).cells_view() == Seq::new(
                old(self).cells_view().len(),
                |i: int| None::<Seq<char>>,
            ),
    {
        let len = self.cells.len();
        let mut cells: Vec<Option<String>> = Vec::new();
        let mut i: usize = 0;
        while i < len
            invariant
                i <= len,
                cells@.len() == i,
                forall|j: int| 0 <= j < i ==> #[trigger] cells@[j] is None,
            decreases len - i,
        {
            cells.push(None);
            i = i + 1;
        }
        self.cells = cells;
        assert(self.cells_view() =~= Seq::new(
            old(self).cells_view().len(),
            |i: int| None::<Seq<char>>,
        ));
    }

    /// A copy of the column.
    pub fn duplicate(&self) -> (r: Self)
        ensures
            r.label_view() == self.label_view(),
            r.cells_view() == self.cells_view(),
    {
        let header = match &self.header {
            Some(h) => Some(h.clone()),
            None => None,
        };
        let mut cells: Vec<Option<String>> = Vec::new();
        let mut i: usize = 0;
        while i < self.cells.len()
            invariant
                i <= self.cells@.len(),
                cells@.len() == i,
                forall|j: int| 0 <= j < i ==> text_view(#[trigger] cells@[j]) == text_view(self.cells@[j]),
            decreases self.cells@.len() - i,
        {
            let c = match &self.cells[i] {
                Some(s) => Some(s.clone()),
                None => None,
            };
            cells.push(c);
            i = i + 1;
        }
        let r = ArrayText { header, cells };
        assert(r.cells_view() =~= self.cells_view());
        r
    }
}

} // verus!
