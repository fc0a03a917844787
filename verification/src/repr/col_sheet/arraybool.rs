use vstd::prelude::*;

use super::utils::{parse_helper, parse_unchecked, spec_parse_cell, spec_parse_cell_lossy, swap_seq, swaps_applied, DataType};

verus! {

/// A column of `bool` cells, each of which may be empty.
#[derive(Debug, Clone, PartialEq)]
pub struct ArrayBool {
    header: Option<String>,
    cells: Vec<Option<bool>>,
}

impl ArrayBool {
    /// The header label of the column.
    pub closed spec fn label_view(&self) -> Option<Seq<char>> {
        match self.header {
            Some(h) => Some(h@),
            None => None,
        }
    }

    /// The cells of the column, top to bottom.
    pub closed spec fn cells_view(&self) -> Seq<Option<bool>> {
        self.cells@
    }

    pub fn new() -> (r: Self)
        ensures
            r.label_view() is None,
            r.cells_view() == Seq::<Option<bool>>::empty(),
    {
        ArrayBool { header: None, cells: Vec::new() }
    }

    /// A column holding `values`, none of them empty.
    pub fn from_iterator(values: Vec<bool>) -> (r: Self)
        ensures
            r.label_view() is None,
            r.cells_view() == values@.map_values(|v: bool| Some(v)),
    {
        let mut cells: Vec<Option<bool>> = Vec::new();
        let mut i: usize = 0;
        while i < values.len()
            invariant
                i <= values.len(),
                cells@ == values@.take(i as int).map_values(|v: bool| Some(v)),
            decreases values.len() - i,
        {
            cells.push(Some(values[i]));
            i = i + 1;
            assert(cells@ =~= values@.take(i as int).map_values(|v: bool| Some(v)));
        }
        assert(values@.take(i as int) =~= values@);
        ArrayBool { header: None, cells }
    }

    /// A column holding `values` as they are.
    pub fn from_iterator_option(values: Vec<Option<bool>>) -> (r: Self)
        ensures
            r.label_view() is None,
            r.cells_view() == values@,
    {
        ArrayBool { header: None, cells: values }
    }

    /// Sets the header label and hands the column back for further calls.
    pub fn set_header(&mut self, header: String) -> (r: &mut Self)
        ensures
            r.label_view() == Some(header@),
            r.cells_view() == old(self).cells_view(),
            *final(self) == *final(r),
    {
        self.header = Some(header);
        self
    }

    /// The value at `idx`, if `idx` is in range and the cell is not empty.
    pub fn get(&self, idx: usize) -> (r: Option<bool>)
        ensures
            r == (if idx < self.cells_view().len() {
                self.cells_view()[idx as int]
            } else {
                None
            }),
    {
        if idx < self.cells.len() {
            self.cells[idx]
        } else {
            None
        }
    }

    /// Reads every string in `values`; fails if any is neither null nor an `bool`.
    pub fn parse_str(values: &Vec<String>, null: &str) -> (r: Option<Self>)
        ensures
            r is Some <==> forall|i: int|
                0 <= i < values@.len() ==> spec_parse_cell::<bool>(values@[i]@, null@) is Ok,
            r matches Some(a) ==> a.label_view() is None && a.cells_view().len()
                == values@.len() && forall|i: int|
                0 <= i < values@.len() ==> spec_parse_cell::<bool>(values@[i]@, null@) == Ok::<
                    Option<bool>,
                    (),
                >(#[trigger] a.cells_view()[i]),
    {
        let mut cells: Vec<Option<bool>> = Vec::new();
        let mut i: usize = 0;
        while i < values.len()
            invariant
                i <= values@.len(),
                cells@.len() == i,
                forall|j: int|
                    0 <= j < i ==> spec_parse_cell::<bool>(values@[j]@, null@) == Ok::<
                        Option<bool>,
                        (),
                    >(#[trigger] cells@[j]),
            decreases values.len() - i,
        {
            match parse_helper::<bool>(values[i].as_str(), null) {
                Ok(v) => cells.push(v),
                Err(_) => return None,
            }
            i = i + 1;
        }
        assert forall|j: int| 0 <= j < values@.len() implies spec_parse_cell::<bool>(
            values@[j]@,
            null@,
        ) is Ok by {
            assert(spec_parse_cell::<bool>(values@[j]@, null@) == Ok::<Option<bool>, ()>(cells@[j]));
        }
        Some(ArrayBool { header: None, cells })
    }

    /// Appends `value` read as an `bool`; a null or unreadable value appends an empty cell.
    pub fn push(&mut self, value: &str, null: &str)
        ensures
            final(self).label_view() == old(self).label_view(),
            final(self).cells_view() == old(self).cells_view().push(
                spec_parse_cell_lossy::<bool>(value@, null@),
            ),
    {
        let parsed = parse_unchecked::<bool>(value, null);
        self.cells.push(parsed);
    }

    /// Removes the cell at `idx`, if any, shifting the cells below up.
    pub fn remove(&mut self, idx: usize)
        ensures
            final(self).label_view() == old(self).label_view(),
            final(self).cells_view() == (if idx < old(self).cells_view().len() {
                old(self).cells_view().remove(idx as int)
            } else {
                old(self).cells_view()
            }),
    {
        if idx >= self.cells.len() {
            return ;
        }
        self.cells.remove(idx);
    }

    /// Removes every cell.
    pub fn remove_all(&mut self)
        ensures
            final(self).label_view() == old(self).label_view(),
            final(self).cells_view() == Seq::<Option<bool>>::empty(),
    {
        self.cells.clear();
    }

    /// Inserts `value`, read as an `bool`, at `idx`; a null or unreadable value
    /// inserts an empty cell. Nothing happens if `idx` is past the end.
    pub fn insert(&mut self, value: &str, idx: usize, null: &str)
        ensures
            final(self).label_view() == old(self).label_view(),
            final(self).cells_view() == (if idx <= old(self).cells_view().len() {
                old(self).cells_view().insert(
                    idx as int,
                    spec_parse_cell_lossy::<bool>(value@, null@),
                )
            } else {
                old(self).cells_view()
            }),
    {
        if idx > self.cells.len() {
            return ;
        }
        let parsed = parse_unchecked::<bool>(value, null);
        self.cells.insert(idx, parsed);
    }

    /// Swaps the cells at `pos` and `indices[pos]`, for each `pos` in order.
    pub fn apply_index_swap(&mut self, indices: &[usize])
        requires
            forall|i: int| 0 <= i < indices@.len() ==> #[trigger] indices@[i] < old(self).cells_view().len(),
            indices@.len() <= old(self).cells_view().len(),
        ensures
            final(self).label_view() == old(self).label_view(),
            final(self).cells_view() == swaps_applied(old(self).cells_view(), indices@),
    {
        let mut pos: usize = 0;
        while pos < indices.len()
            invariant
                pos <= indices@.len(),
                indices@.len() <= self.cells@.len(),
                self.cells@.len() == old(self).cells@.len(),
                forall|i: int| 0 <= i < indices@.len() ==> #[trigger] indices@[i] < self.cells@.len(),
                self.header == old(self).header,
                self.cells@ == swaps_applied(old(self).cells@, indices@.take(pos as int)),
            decreases indices.len() - pos,
        {
            let elem = indices[pos];
            self.swap_cells(pos, elem);
            proof {
                assert(indices@.take(pos + 1).drop_last() =~= indices@.take(pos as int));
            }
            pos = pos + 1;
        }
        assert(indices@.take(pos as int) =~= indices@);
    }

    fn swap_cells(&mut self, x: usize, y: usize)
        requires
            x < old(self).cells@.len(),
            y < old(self).cells@.len(),
        ensures
            final(self).header == old(self).header,
            final(self).cells@ == swap_seq(old(self).cells@, x as int, y as int),
    {
        let a = self.cells[x];
        let b = self.cells[y];
        self.cells.set(x, b);
        self.cells.set(y, a);
    }

    /// The cells of the column, top to bottom.
    pub fn iter(&self) -> (r: core::slice::Iter<'_, Option<bool>>)
        ensures
            vstd::std_specs::iter::IteratorSpec::remaining(&r).unref() == self.cells_view(),
    {
        broadcast use vstd::std_specs::slice::axiom_spec_slice_iter;
        self.cells.as_slice().iter()
    }

    /// The cells of the column, to change in place, top to bottom.
    pub fn iter_mut(&mut self) -> (r: &mut [Option<bool>])
        ensures
            r@ == old(self).cells_view(),
            final(self).cells_view() == final(r)@,
            final(self).label_view() == old(self).label_view(),
    {
        self.cells.as_mut_slice()
    }

    pub fn label(&self) -> (r: Option<&str>)
        ensures
            r matches Some(s) ==> self.label_view() == Some(s@),
            r is None ==> self.label_view() is None,
    {
        match &self.header {
            Some(h) => Some(h.as_str()),
            None => None,
        }
    }

    pub fn kind(&self) -> (r: DataType)
        ensures
            r == DataType::Bool,
    {
        DataType::Bool
    }

    pub fn len(&self) -> (r: usize)
        ensures
            r == self.cells_view().len(),
    {
        self.cells.len()
    }

    pub fn is_empty(&self) -> (r: bool)
        ensures
            r == (self.cells_view().len() == 0),
    {
        self.cells.len() == 0
    }

    /// Overwrites the cell at `idx` with `value` read as an `bool`.
    ///
    /// Returns false, changing nothing, when `value` is neither null nor an
    /// `bool`; an out of range `idx` changes nothing.
    pub fn set_position(&mut self, value: &str, idx: usize, null: &str) -> (r: bool)
        ensures
            r == spec_parse_cell::<bool>(value@, null@) is Ok,
            !r ==> *final(self) == *old(self),
            final(self).label_view() == old(self).label_view(),
            final(self).cells_view() == (match spec_parse_cell::<bool>(value@, null@) {
                Ok(v) => if idx < old(self).cells_view().len() {
                    old(self).cells_view().update(idx as int, v)
                } else {
                    old(self).cells_view()
                },
                Err(_) => old(self).cells_view(),
            }),
    {
        let parsed = match parse_helper::<bool>(value, null) {
            Ok(v) => v,
            Err(_) => return false,
        };
        if idx < self.cells.len() {
            self.cells.set(idx, parsed);
        }
        true
    }

    /// Swaps the cells at `x` and `y`; nothing happens if either is out of range.
    pub fn swap(&mut self, x: usize, y: usize)
        ensures
            final(self).label_view() == old(self).label_view(),
            final(self).cells_view() == (if x < old(self).cells_view().len() && y < old(
                self,
            ).cells_view().len() {
                swap_seq(old(self).cells_view(), x as int, y as int)
            } else {
                old(self).cells_view()
            }),
    {
        if x >= self.cells.len() || y >= self.cells.len() {
            return ;
        }
        self.swap_cells(x, y);
    }

    /// Empties the cell at `idx`, if any.
    pub fn clear(&mut self, idx: usize)
        ensures
            final(self).label_view() == old(self).label_view(),
            final(self).cells_view() == (if idx < old(self).cells_view().len() {
                old(self).cells_view().update(idx as int, None)
            } else {
                old(self).cells_view()
            }),
    {
        if idx < self.cells.len() {
            self.cells.set(idx, None);
        }
    }

    /// Empties every cell, keeping the length.
    pub fn clear_all(&mut self)
        ensures
            final(self).label_view() == old(self).label_view(),
            final(self).cells_view() == Seq::new(old(self).cells_view().len(), |i: int| None::<bool>),
    {
        let len = self.cells.len();
        let mut cells: Vec<Option<bool>> = Vec::new();
        let mut i: usize = 0;
        while i < len
            invariant
                i <= len,
                cells@ == Seq::new(i as nat, |j: int| None::<bool>),
            decreases len - i,
        {
            cells.push(None);
            i = i + 1;
            assert(cells@ =~= Seq::new(i as nat, |j: int| None::<bool>));
        }
        self.cells = cells;
    }

    /// A copy of the column.
    pub fn duplicate(&self) -> (r: Self)
        ensures
            r.label_view() == self.label_view(),
            r.cells_view() == self.cells_view(),
    {
        let header = match &self.header {
            Some(h) => Some(h.clone()),
            None => None,
        };
        let mut cells: Vec<Option<bool>> = Vec::new();
        let mut i: usize = 0;
        while i < self.cells.len()
            invariant
                i <= self.cells@.len(),
                cells@ == self.cells@.take(i as int),
            decreases self.cells@.len() - i,
        {
            cells.push(self.cells[i]);
            i = i + 1;
            assert(cells@ =~= self.cells@.take(i as int));
        }
        assert(cells@ =~= self.cells@);
        ArrayBool { header, cells }
    }

    /// The value at `idx` for modification, if `idx` is in range and the cell is not empty.
    pub fn get_mut(&mut self, idx: usize) -> (r: Option<&mut bool>)
        ensures
            r matches Some(v) ==> idx < old(self).cells_view().len() && old(self).cells_view()[idx as int] == Some(*v)
                && final(self).cells_view() == old(self).cells_view().update(idx as int, Some(*final(v)))
                && final(self).label_view() == old(self).label_view(),
            r is None ==> (idx >= old(self).cells_view().len() || old(self).cells_view()[idx as int] is None)
                && final(self).cells_view() == old(self).cells_view()
                && final(self).label_view() == old(self).label_view(),
    {
        if idx >= self.cells.len() {
            return None;
        }
        match &mut self.cells[idx] {
            Some(v) => Some(v),
            None => None,
        }
    }
}

} // verus!
