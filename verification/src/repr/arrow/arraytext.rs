use vstd::prelude::*;
use vstd::utf8::{decode_utf8, encode_utf8, encode_utf8_decode_utf8, encode_utf8_valid_utf8, valid_utf8};

use super::utils::DataType;

verus! {

broadcast use {encode_utf8_decode_utf8, encode_utf8_valid_utf8};

/// A cell of text that may be null.
pub type Text = Option<String>;

/// The contents of a cell of text.
pub open spec fn text_cell(t: Text) -> Option<Seq<char>> {
    match t {
        Some(s) => Some(s@),
        None => None,
    }
}

/// The contents of a run of cells of text.
pub open spec fn text_cells(v: Seq<Text>) -> Seq<Option<Seq<char>>> {
    v.map_values(|t: Text| text_cell(t))
}

/// The bytes a cell contributes to the values buffer.
pub open spec fn cell_bytes(t: Option<Seq<char>>) -> Seq<u8> {
    match t {
        Some(s) => encode_utf8(s),
        None => Seq::empty(),
    }
}

/// The values buffer of a run of cells: their UTF-8 encodings, one after the other.
pub open spec fn joined(v: Seq<Option<Seq<char>>>) -> Seq<u8>
    decreases v.len(),
{
    if v.len() == 0 {
        Seq::empty()
    } else {
        joined(v.drop_last()) + cell_bytes(v.last())
    }
}

/// Where the bytes of cell `i` start in the values buffer.
pub open spec fn offset_of(v: Seq<Option<Seq<char>>>, i: int) -> int {
    joined(v.take(i)).len() as int
}

/// The number of null cells.
pub open spec fn null_count(v: Seq<Option<Seq<char>>>) -> nat
    decreases v.len(),
{
    if v.len() == 0 {
        0
    } else {
        null_count(v.drop_last()) + if v.last() is None {
            1nat
        } else {
            0nat
        }
    }
}

/// `n` null cells.
pub open spec fn all_nulls(n: nat) -> Seq<Option<Seq<char>>> {
    Seq::new(n, |i: int| None::<Seq<char>>)
}

/// What an array built from `v` holds: `v` itself, unless no cell holds a
/// single byte, in which case every cell is null.
pub open spec fn stored(v: Seq<Option<Seq<char>>>) -> Seq<Option<Seq<char>>> {
    if joined(v).len() == 0 {
        all_nulls(v.len())
    } else {
        v
    }
}

/// Whether bit `j` of `b` is set.
pub open spec fn byte_bit(b: u8, j: int) -> bool {
    b & (1u8 << (j as u8)) != 0
}

/// Whether bit `i` of a validity bitmap is set.
pub open spec fn bit(bytes: Seq<u8>, i: int) -> bool {
    byte_bit(bytes[i / 8], i % 8)
}

proof fn lemma_joined_concat(a: Seq<Option<Seq<char>>>, b: Seq<Option<Seq<char>>>)
    ensures
        joined(a + b) == joined(a) + joined(b),
    decreases b.len(),
{
    if b.len() == 0 {
        assert(a + b =~= a);
        assert(joined(b) =~= Seq::<u8>::empty());
        assert(joined(a) + joined(b) =~= joined(a));
    } else {
        assert((a + b).drop_last() =~= a + b.drop_last());
        lemma_joined_concat(a, b.drop_last());
        assert(joined(a) + joined(b) =~= joined(a) + joined(b.drop_last()) + cell_bytes(b.last()));
    }
}

proof fn lemma_joined_step(v: Seq<Option<Seq<char>>>, i: int)
    requires
        0 <= i < v.len(),
    ensures
        joined(v.take(i + 1)) == joined(v.take(i)) + cell_bytes(v[i]),
        null_count(v.take(i + 1)) == null_count(v.take(i)) + if v[i] is None {
            1nat
        } else {
            0nat
        },
{
    assert(v.take(i + 1).drop_last() =~= v.take(i));
}

/// The bytes of cell `i` sit between its offset and the next one.
proof fn lemma_cell_slice(v: Seq<Option<Seq<char>>>, i: int)
    requires
        0 <= i < v.len(),
    ensures
        offset_of(v, i + 1) == offset_of(v, i) + cell_bytes(v[i]).len(),
        offset_of(v, i + 1) <= joined(v).len(),
        joined(v).subrange(offset_of(v, i), offset_of(v, i + 1)) == cell_bytes(v[i]),
{
    lemma_joined_step(v, i);
    assert(v =~= v.take(i + 1) + v.skip(i + 1));
    lemma_joined_concat(v.take(i + 1), v.skip(i + 1));
    assert(joined(v).subrange(offset_of(v, i), offset_of(v, i + 1)) =~= cell_bytes(v[i]));
}

proof fn lemma_null_count_bound(v: Seq<Option<Seq<char>>>)
    ensures
        null_count(v) <= v.len(),
        null_count(v) == v.len() <==> forall|i: int| 0 <= i < v.len() ==> #[trigger] v[i] is None,
        null_count(v) == 0 <==> forall|i: int| 0 <= i < v.len() ==> #[trigger] v[i] is Some,
    decreases v.len(),
{
    if v.len() > 0 {
        let d = v.drop_last();
        lemma_null_count_bound(d);
        if null_count(v) == 0 {
            assert forall|i: int| 0 <= i < v.len() implies #[trigger] v[i] is Some by {
                if i < v.len() - 1 {
                    assert(d[i] == v[i]);
                }
            }
        }
        if forall|i: int| 0 <= i < v.len() ==> #[trigger] v[i] is Some {
            assert forall|i: int| 0 <= i < d.len() implies #[trigger] d[i] is Some by {
                assert(v[i] is Some);
            }
            assert(v[v.len() - 1] is Some);
        }
        if null_count(v) == v.len() {
            assert forall|i: int| 0 <= i < v.len() implies #[trigger] v[i] is None by {
                if i < v.len() - 1 {
                    assert(d[i] == v[i]);
                }
            }
        }
        if forall|i: int| 0 <= i < v.len() ==> #[trigger] v[i] is None {
            assert forall|i: int| 0 <= i < d.len() implies #[trigger] d[i] is None by {
                assert(v[i] is None);
            }
            assert(v[v.len() - 1] is None);
        }
    }
}

proof fn lemma_all_nulls(n: nat)
    ensures
        joined(all_nulls(n)).len() == 0,
        null_count(all_nulls(n)) == n,
    decreases n,
{
    if n > 0 {
        assert(all_nulls(n).drop_last() =~= all_nulls((n - 1) as nat));
        lemma_all_nulls((n - 1) as nat);
    }
}

proof fn lemma_set_bit(b: u8, k: u8, j: u8)
    requires
        k < 8,
        j < 8,
    ensures
        ((b | (1u8 << k)) & (1u8 << j) != 0) == (j == k || b & (1u8 << j) != 0),
        ((b & !(1u8 << k)) & (1u8 << j) != 0) == (j != k && b & (1u8 << j) != 0),
        0u8 & (1u8 << j) == 0,
{
    assert(((b | (1u8 << k)) & (1u8 << j) != 0) == (j == k || b & (1u8 << j) != 0))
        by (bit_vector)
        requires
            k < 8,
            j < 8,
    ;
    assert(((b & !(1u8 << k)) & (1u8 << j) != 0) == (j != k && b & (1u8 << j) != 0))
        by (bit_vector)
        requires
            k < 8,
            j < 8,
    ;
    assert(0u8 & (1u8 << j) == 0) by (bit_vector);
}

proof fn lemma_same_bits(a: u8, b: u8)
    requires
        (a & (1u8 << 0u8) != 0) == (b & (1u8 << 0u8) != 0),
        (a & (1u8 << 1u8) != 0) == (b & (1u8 << 1u8) != 0),
        (a & (1u8 << 2u8) != 0) == (b & (1u8 << 2u8) != 0),
        (a & (1u8 << 3u8) != 0) == (b & (1u8 << 3u8) != 0),
        (a & (1u8 << 4u8) != 0) == (b & (1u8 << 4u8) != 0),
        (a & (1u8 << 5u8) != 0) == (b & (1u8 << 5u8) != 0),
        (a & (1u8 << 6u8) != 0) == (b & (1u8 << 6u8) != 0),
        (a & (1u8 << 7u8) != 0) == (b & (1u8 << 7u8) != 0),
    ensures
        a == b,
{
    assert(a == b) by (bit_vector)
        requires
            (a & (1u8 << 0u8) != 0) == (b & (1u8 << 0u8) != 0),
            (a & (1u8 << 1u8) != 0) == (b & (1u8 << 1u8) != 0),
            (a & (1u8 << 2u8) != 0) == (b & (1u8 << 2u8) != 0),
            (a & (1u8 << 3u8) != 0) == (b & (1u8 << 3u8) != 0),
            (a & (1u8 << 4u8) != 0) == (b & (1u8 << 4u8) != 0),
            (a & (1u8 << 5u8) != 0) == (b & (1u8 << 5u8) != 0),
            (a & (1u8 << 6u8) != 0) == (b & (1u8 << 6u8) != 0),
            (a & (1u8 << 7u8) != 0) == (b & (1u8 << 7u8) != 0),
    ;
}

/// Two bitmaps of one length with the same bits set are equal.
proof fn lemma_bitmaps_equal(a: Seq<u8>, b: Seq<u8>)
    requires
        a.len() == b.len(),
        forall|i: int| 0 <= i < 8 * a.len() ==> bit(a, i) == bit(b, i),
    ensures
        a == b,
{
    assert forall|k: int| 0 <= k < a.len() implies a[k] == b[k] by {
        assert forall|j: int| 0 <= j < 8 implies byte_bit(a[k], j) == byte_bit(b[k], j) by {
            assert((8 * k + j) / 8 == k && (8 * k + j) % 8 == j);
            assert(bit(a, 8 * k + j) == bit(b, 8 * k + j));
        }
        assert(byte_bit(a[k], 0) == byte_bit(b[k], 0));
        assert(byte_bit(a[k], 1) == byte_bit(b[k], 1));
        assert(byte_bit(a[k], 2) == byte_bit(b[k], 2));
        assert(byte_bit(a[k], 3) == byte_bit(b[k], 3));
        assert(byte_bit(a[k], 4) == byte_bit(b[k], 4));
        assert(byte_bit(a[k], 5) == byte_bit(b[k], 5));
        assert(byte_bit(a[k], 6) == byte_bit(b[k], 6));
        assert(byte_bit(a[k], 7) == byte_bit(b[k], 7));
        lemma_same_bits(a[k], b[k]);
    }
    assert(a =~= b);
}

/// The contents of an optional buffer.
pub open spec fn buffer<T>(b: Option<Vec<T>>) -> Option<Seq<T>> {
    match b {
        Some(v) => Some(v@),
        None => None,
    }
}

fn copy_bytes(v: &Vec<u8>) -> (r: Vec<u8>)
    ensures
        r@ == v@,
{
    let mut r: Vec<u8> = Vec::new();
    let mut i: usize = 0;
    while i < v.len()
        invariant
            i <= v@.len(),
            r@ == v@.take(i as int),
        decreases v@.len() - i,
    {
        r.push(v[i]);
        i = i + 1;
        assert(r@ =~= v@.take(i as int));
    }
    assert(v@.take(i as int) =~= v@);
    r
}

fn copy_offsets(v: &Vec<u64>) -> (r: Vec<u64>)
    ensures
        r@ == v@,
{
    let mut r: Vec<u64> = Vec::new();
    let mut i: usize = 0;
    while i < v.len()
        invariant
            i <= v@.len(),
            r@ == v@.take(i as int),
        decreases v@.len() - i,
    {
        r.push(v[i]);
        i = i + 1;
        assert(r@ =~= v@.take(i as int));
    }
    assert(v@.take(i as int) =~= v@);
    r
}

fn same_bytes(a: &Option<Vec<u8>>, b: &Option<Vec<u8>>) -> (r: bool)
    ensures
        r == (buffer(*a) == buffer(*b)),
{
    match (a, b) {
        (Some(x), Some(y)) => {
            if x.len() != y.len() {
                assert(x@.len() != y@.len());
                return false;
            }
            let mut i: usize = 0;
            while i < x.len()
                invariant
                    x@.len() == y@.len(),
                    buffer(*a) == Some(x@),
                    buffer(*b) == Some(y@),
                    i <= x@.len(),
                    forall|j: int| 0 <= j < i ==> x@[j] == y@[j],
                decreases x@.len() - i,
            {
                if x[i] != y[i] {
                    assert(x@[i as int] != y@[i as int]);
                    return false;
                }
                i = i + 1;
            }
            assert(x@ =~= y@);
            true
        },
        (None, None) => true,
        _ => false,
    }
}

/// `std::str::from_utf8`: reads the bytes as text when they are valid UTF-8,
/// and fails otherwise.
#[verifier::external_body]
fn utf8_text(bytes: &[u8]) -> (r: Option<&str>)
    ensures
        r is Some <==> valid_utf8(bytes@),
        r matches Some(s) ==> s@ == decode_utf8(bytes@),
{
    std::str::from_utf8(bytes).ok()
}

/// Column of text laid out after Apache Arrow's variable sized binary layout:
/// a values buffer holding the bytes of every cell one after the other, an
/// offsets buffer telling where each cell starts, and a validity bitmap
/// telling which cells are null.
pub struct ArrayText {
    /// The bytes of all cells; absent when every cell is null.
    values: Option<Vec<u8>>,
    /// One bit per cell, set for the cells that are not null; absent when
    /// no cell, or every cell, is null.
    validity: Option<Vec<u8>>,
    /// Where each cell's bytes start, and where the last one ends; absent
    /// when every cell is null.
    offsets: Option<Vec<u64>>,
    /// The number of cells.
    len: usize,
    /// The combined length in bytes of all cells.
    str_len: usize,
    /// The number of null cells.
    nulls: usize,
    contents: Ghost<Seq<Option<Seq<char>>>>,
}

impl View for ArrayText {
    type V = Seq<Option<Seq<char>>>;

    closed spec fn view(&self) -> Seq<Option<Seq<char>>> {
        self.contents@
    }
}

impl ArrayText {
    #[verifier::type_invariant]
    closed spec fn buffers_match(&self) -> bool {
        let v = self.contents@;
        &&& self.len == v.len()
        &&& self.nulls == null_count(v)
        &&& self.str_len == joined(v).len()
        &&& (self.nulls == self.len <==> self.values is None)
        &&& (self.nulls == self.len <==> self.offsets is None)
        &&& (self.nulls == self.len ==> self.validity is None)
        &&& (joined(v).len() == 0 ==> self.nulls == self.len)
        &&& (self.values matches Some(b) ==> b@ == joined(v))
        &&& (self.offsets matches Some(o) ==> o@.len() == v.len() + 1 && forall|i: int|
            0 <= i <= v.len() ==> #[trigger] o@[i] == offset_of(v, i))
        &&& (self.nulls < self.len ==> (self.nulls == 0 <==> self.validity is None))
        &&& (self.validity matches Some(b) ==> b@.len() == (v.len() + 7) / 8 && forall|i: int|
            0 <= i < 8 * b@.len() ==> #[trigger] bit(b@, i) == (i < v.len() && v[i] is Some))
    }

    /// An array of no cells.
    pub fn empty() -> (r: Self)
        ensures
            r@ == Seq::<Option<Seq<char>>>::empty(),
    {
        proof {
            lemma_all_nulls(0);
            assert(all_nulls(0) =~= Seq::<Option<Seq<char>>>::empty());
        }
        ArrayText {
            values: None,
            validity: None,
            offsets: None,
            len: 0,
            str_len: 0,
            nulls: 0,
            contents: Ghost(Seq::empty()),
        }
    }

    /// An array of `len` null cells.
    fn nulls_only(len: usize) -> (r: Self)
        ensures
            r@ == all_nulls(len as nat),
    {
        proof {
            lemma_all_nulls(len as nat);
        }
        ArrayText {
            values: None,
            validity: None,
            offsets: None,
            len,
            str_len: 0,
            nulls: len,
            contents: Ghost(all_nulls(len as nat)),
        }
    }

    /// An array holding the given texts.
    pub fn from_str_iter(values: Vec<&str>) -> (r: Self)
        requires
            joined(values@.map_values(|s: &str| Some(s@))).len() <= usize::MAX,
        ensures
            r@ == stored(values@.map_values(|s: &str| Some(s@))),
    {
        let mut texts: Vec<Text> = Vec::new();
        let mut i: usize = 0;
        while i < values.len()
            invariant
                i <= values@.len(),
                texts@.len() == i,
                forall|j: int| 0 <= j < i ==> #[trigger] text_cell(texts@[j]) == Some(values@[j]@),
            decreases values.len() - i,
        {
            texts.push(Some(values[i].to_owned()));
            i = i + 1;
        }
        assert(text_cells(texts@) =~= values@.map_values(|s: &str| Some(s@)));
        Self::from_sized_iter(texts)
    }

    fn from_sized_iter(values: Vec<Text>) -> (r: Self)
        requires
            joined(text_cells(values@)).len() <= usize::MAX,
        ensures
            r@ == stored(text_cells(values@)),
    {
        let ghost v = text_cells(values@);
        let len = values.len();
        if len == 0 {
            let r = Self::empty();
            proof {
                lemma_all_nulls(0);
                assert(all_nulls(0) =~= Seq::<Option<Seq<char>>>::empty());
                assert(v =~= Seq::<Option<Seq<char>>>::empty());
            }
            return r;
        }
        let mut str_len: usize = 0;
        let mut i: usize = 0;
        while i < len
            invariant
                len == values@.len(),
                v == text_cells(values@),
                joined(v).len() <= usize::MAX,
                i <= len,
                str_len == joined(v.take(i as int)).len(),
            decreases len - i,
        {
            proof {
                lemma_joined_step(v, i as int);
                lemma_cell_slice(v, i as int);
                assert(v[i as int] == text_cell(values@[i as int]));
            }
            match &values[i] {
                Some(text) => {
                    str_len = str_len + text.as_str().len();
                },
                None => {},
            }
            i = i + 1;
        }
        assert(v.take(len as int) =~= v);
        if str_len == 0 {
            return Self::nulls_only(len);
        }
        let mut bytes: Vec<u8> = Vec::new();
        let mut offsets: Vec<u64> = Vec::new();
        let mut validity: Vec<u8> = Vec::new();
        let mut val_byte: u8 = 0;
        let mut nulls: usize = 0;
        let mut offset: u64 = 0;
        let mut idx: usize = 0;
        proof {
            assert forall|j: int| 0 <= j < 8 implies !byte_bit(val_byte, j) by {
                lemma_set_bit(0, 0, j as u8);
            }
        }
        while idx < len
            invariant
                len == values@.len(),
                v == text_cells(values@),
                joined(v).len() == str_len,
                str_len <= usize::MAX,
                idx <= len,
                bytes@ == joined(v.take(idx as int)),
                offset == bytes@.len(),
                offsets@.len() == idx,
                forall|k: int| 0 <= k < idx ==> #[trigger] offsets@[k] == offset_of(v, k),
                nulls == null_count(v.take(idx as int)),
                validity@.len() == idx / 8,
                forall|k: int| 0 <= k < 8 * validity@.len() ==> #[trigger] bit(validity@, k) == v[k] is Some,
                forall|j: int|
                    0 <= j < 8 ==> #[trigger] byte_bit(val_byte, j) == (j < idx % 8 && v[idx - idx
                        % 8 + j] is Some),
            decreases len - idx,
        {
            proof {
                lemma_joined_step(v, idx as int);
                lemma_cell_slice(v, idx as int);
                lemma_null_count_bound(v.take(idx as int));
                assert(v[idx as int] == text_cell(values@[idx as int]));
            }
            offsets.push(offset);
            let ghost prev_byte = val_byte;
            let k: u8 = (idx % 8) as u8;
            match &values[idx] {
                Some(text) => {
                    let b = text.as_str().as_bytes();
                    let ghost before = bytes@;
                    let mut j: usize = 0;
                    while j < b.len()
                        invariant
                            j <= b@.len(),
                            bytes@ == before + b@.take(j as int),
                        decreases b@.len() - j,
                    {
                        bytes.push(b[j]);
                        j = j + 1;
                        assert(bytes@ =~= before + b@.take(j as int));
                    }
                    assert(b@.take(j as int) =~= b@);
                    offset = offset + b.len() as u64;
                    val_byte = val_byte | (1u8 << k);
                    proof {
                        assert(v[idx as int] is Some);
                        assert forall|j: int| 0 <= j < 8 implies #[trigger] byte_bit(val_byte, j) == (
                        j <= idx % 8 && v[idx - idx % 8 + j] is Some) by {
                            lemma_set_bit(prev_byte, k, j as u8);
                            assert(byte_bit(prev_byte, j) == (j < idx % 8 && v[idx - idx % 8
                                + j] is Some));
                            if j == idx % 8 {
                                assert(j as u8 == k);
                            } else {
                                assert(j as u8 != k);
                            }
                        }
                    }
                },
                None => {
                    nulls = nulls + 1;
                    val_byte = val_byte & !(1u8 << k);
                    proof {
                        assert(v[idx as int] is None);
                        assert forall|j: int| 0 <= j < 8 implies #[trigger] byte_bit(val_byte, j) == (
                        j <= idx % 8 && v[idx - idx % 8 + j] is Some) by {
                            lemma_set_bit(prev_byte, k, j as u8);
                            assert(byte_bit(prev_byte, j) == (j < idx % 8 && v[idx - idx % 8
                                + j] is Some));
                            if j == idx % 8 {
                                assert(j as u8 == k);
                            } else {
                                assert(j as u8 != k);
                            }
                        }
                    }
                },
            }
            assert(bytes@ =~= joined(v.take(idx as int + 1)));
            if (idx + 1) % 8 == 0 {
                let ghost before = validity@;
                validity.push(val_byte);
                proof {
                    assert forall|q: int| 0 <= q < 8 * validity@.len() implies #[trigger] bit(
                        validity@,
                        q,
                    ) == v[q] is Some by {
                        if q < 8 * before.len() {
                            assert(bit(before, q) == v[q] is Some);
                            assert(validity@[q / 8] == before[q / 8]);
                        } else {
                            assert(q / 8 == before.len());
                            assert(validity@[q / 8] == val_byte);
                            assert(byte_bit(val_byte, q % 8) == (q % 8 <= idx % 8 && v[idx - idx
                                % 8 + q % 8] is Some));
                            assert(idx - idx % 8 + q % 8 == q);
                        }
                    }
                }
                val_byte = 0;
                proof {
                    assert forall|j: int| 0 <= j < 8 implies !byte_bit(val_byte, j) by {
                        lemma_set_bit(0, 0, j as u8);
                    }
                }
            }
            idx = idx + 1;
        }
        assert(v.take(len as int) =~= v);
        offsets.push(offset);
        if len % 8 != 0 {
            let ghost before = validity@;
            validity.push(val_byte);
            proof {
                assert forall|q: int| 0 <= q < 8 * validity@.len() implies #[trigger] bit(
                    validity@,
                    q,
                ) == (q < len && v[q] is Some) by {
                    if q < 8 * before.len() {
                        assert(bit(before, q) == v[q] is Some);
                        assert(validity@[q / 8] == before[q / 8]);
                    } else {
                        assert(q / 8 == before.len());
                        assert(validity@[q / 8] == val_byte);
                        assert(byte_bit(val_byte, q % 8) == (q % 8 < len % 8 && v[len - len % 8
                            + q % 8] is Some));
                        assert(len - len % 8 + q % 8 == q);
                    }
                }
            }
        }
        proof {
            lemma_null_count_bound(v);
            if nulls == len {
                assert forall|q: int| 0 <= q < v.len() implies v[q] is None by {}
                assert(v =~= all_nulls(len as nat));
                lemma_all_nulls(len as nat);
            }
            assert forall|q: int| 0 <= q <= v.len() implies #[trigger] offsets@[q] == offset_of(v, q) by {
                if q == v.len() {
                    assert(v.take(q) =~= v);
                }
            }
        }
        ArrayText {
            values: Some(bytes),
            validity: if nulls == 0 {
                None
            } else {
                Some(validity)
            },
            offsets: Some(offsets),
            len,
            str_len,
            nulls,
            contents: Ghost(v),
        }
    }
}

impl ArrayText {
    /// Creates an array from the given cells.
    pub fn new(values: Vec<Text>) -> (r: Self)
        requires
            joined(text_cells(values@)).len() <= usize::MAX,
        ensures
            r@ == stored(text_cells(values@)),
    {
        Self::from_sized_iter(values)
    }

    /// Creates an [`ArrayText`] from a vec.
    pub fn from_vec(values: Vec<Text>) -> (r: Self)
        requires
            joined(text_cells(values@)).len() <= usize::MAX,
        ensures
            r@ == stored(text_cells(values@)),
    {
        Self::from_sized_iter(values)
    }

    /// Creates an array of texts, none of them null.
    pub fn from_strings(values: Vec<String>) -> (r: Self)
        requires
            joined(values@.map_values(|s: String| Some(s@))).len() <= usize::MAX,
        ensures
            r@ == stored(values@.map_values(|s: String| Some(s@))),
    {
        let mut texts: Vec<Text> = Vec::new();
        let mut values = values;
        let ghost orig = values@;
        let mut i: usize = 0;
        let n = values.len();
        let mut rest: Vec<String> = Vec::new();
        while values.len() > 0
            invariant
                values@.len() + rest@.len() == n,
                n == orig.len(),
                forall|j: int| 0 <= j < values@.len() ==> #[trigger] values@[j] == orig[j],
                forall|j: int| 0 <= j < rest@.len() ==> #[trigger] rest@[j] == orig[n - 1 - j],
            decreases values@.len(),
        {
            let s = values.pop().unwrap();
            rest.push(s);
        }
        while rest.len() > 0
            invariant
                texts@.len() + rest@.len() == n,
                n == orig.len(),
                forall|j: int| 0 <= j < rest@.len() ==> #[trigger] rest@[j] == orig[n - 1 - j],
                forall|j: int| 0 <= j < texts@.len() ==> #[trigger] text_cell(texts@[j]) == Some(orig[j]@),
            decreases rest@.len(),
        {
            let s = rest.pop().unwrap();
            texts.push(Some(s));
        }
        assert(text_cells(texts@) =~= orig.map_values(|s: String| Some(s@)));
        Self::from_sized_iter(texts)
    }

    /// Returns the number of cells.
    pub fn len(&self) -> (r: usize)
        ensures
            r == self@.len(),
    {
        proof {
            use_type_invariant(self);
        }
        self.len
    }

    /// Returns true if the array holds no cell.
    pub fn is_empty(&self) -> (r: bool)
        ensures
            r == (self@.len() == 0),
    {
        self.len() == 0
    }

    /// Returns the data type of the array.
    pub fn data_type(&self) -> (r: DataType)
        ensures
            r == DataType::Text,
    {
        DataType::Text
    }

    /// Returns true if every cell is null.
    pub fn all_null(&self) -> (r: bool)
        ensures
            r == forall|i: int| 0 <= i < self@.len() ==> #[trigger] self@[i] is None,
    {
        proof {
            use_type_invariant(self);
            lemma_null_count_bound(self@);
        }
        self.nulls == self.len
    }

    /// Returns true if the cell at `idx` is null.
    pub fn check_null(&self, idx: usize) -> (r: bool)
        requires
            idx < self@.len(),
        ensures
            r == self@[idx as int] is None,
    {
        proof {
            use_type_invariant(self);
            lemma_null_count_bound(self@);
        }
        if self.len == self.nulls {
            return true;
        }
        match &self.validity {
            None => false,
            Some(bits) => {
                let byte_index = idx / 8;
                let byte = bits[byte_index];
                proof {
                    assert(bit(bits@, idx as int) == (idx < self@.len() && self@[idx as int] is Some));
                }
                byte & (1u8 << ((idx % 8) as u8)) == 0
            },
        }
    }

    fn get_str(&self, idx: usize) -> (r: Option<&str>)
        ensures
            r is Some <==> (idx < self@.len() && self@[idx as int] is Some),
            r matches Some(s) ==> self@[idx as int] == Some(s@),
    {
        proof {
            use_type_invariant(self);
        }
        if idx >= self.len {
            return None;
        }
        if self.check_null(idx) {
            return None;
        }
        let ghost v = self@;
        proof {
            lemma_null_count_bound(v);
            assert(self.nulls < self.len);
        }
        let offsets = match &self.offsets {
            Some(o) => o,
            None => {
                return None;
            },
        };
        let values = match &self.values {
            Some(b) => b,
            None => {
                return None;
            },
        };
        proof {
            lemma_cell_slice(v, idx as int);
            assert(offsets@[idx as int] == offset_of(v, idx as int));
            assert(offsets@[idx + 1] == offset_of(v, idx + 1));
        }
        let start = offsets[idx] as usize;
        let end = offsets[idx + 1] as usize;
        let slice = &values.as_slice()[start..end];
        assert(slice@ == cell_bytes(v[idx as int]));
        utf8_text(slice)
    }

    /// Returns a shared reference to the text at `idx`, if it is in range and
    /// not null.
    pub fn get_ref(&self, idx: usize) -> (r: Option<&str>)
        ensures
            r is Some <==> (idx < self@.len() && self@[idx as int] is Some),
            r matches Some(s) ==> self@[idx as int] == Some(s@),
    {
        self.get_str(idx)
    }

    /// Returns the text at `idx`, if it is in range and not null.
    pub fn get(&self, idx: usize) -> (r: Option<String>)
        ensures
            r is Some <==> (idx < self@.len() && self@[idx as int] is Some),
            r matches Some(s) ==> self@[idx as int] == Some(s@),
    {
        match self.get_str(idx) {
            Some(s) => Some(s.to_owned()),
            None => None,
        }
    }

    /// Returns an iterator over the cells.
    pub fn iter(&self) -> (r: Iter<'_>)
        ensures
            r.remaining() == self@,
    {
        Iter { array: self, idx: 0 }
    }

    /// Turns the array into an iterator over its cells.
    pub fn into_iter(self) -> (r: IntoIter)
        ensures
            r.remaining() == self@,
    {
        IntoIter::new(self)
    }

    /// The cells of the array, in order.
    pub fn to_vec(self) -> (r: Vec<Text>)
        ensures
            text_cells(r@) == self@,
    {
        let mut out: Vec<Text> = Vec::new();
        let mut i: usize = 0;
        let n = self.len();
        while i < n
            invariant
                n == self@.len(),
                i <= n,
                out@.len() == i,
                forall|j: int| 0 <= j < i ==> #[trigger] text_cell(out@[j]) == self@[j],
            decreases n - i,
        {
            out.push(self.get(i));
            i = i + 1;
        }
        assert(text_cells(out@) =~= self@);
        out
    }

    /// Whether the two arrays have the same buffers.
    fn same_buffers(&self, other: &Self) -> (r: bool)
        ensures
            r == (self@ == other@),
    {
        proof {
            use_type_invariant(self);
            use_type_invariant(other);
        }
        let r = self.len == other.len && self.str_len == other.str_len && self.nulls == other.nulls
            && same_bytes(&self.validity, &other.validity) && self.compare_offsets(other)
            && same_bytes(&self.values, &other.values);
        proof {
            let v = self@;
            let w = other@;
            lemma_null_count_bound(v);
            lemma_null_count_bound(w);
            if r {
                if self.nulls == self.len {
                    assert(v =~= w);
                } else {
                    assert forall|i: int| 0 <= i < v.len() implies v[i] == w[i] by {
                        lemma_cell_slice(v, i);
                        lemma_cell_slice(w, i);
                        let o = self.offsets->0@;
                        let p = other.offsets->0@;
                        assert(o[i] == p[i] && o[i + 1] == p[i + 1]);
                        if self.nulls != 0 {
                            let b = self.validity->0@;
                            assert(bit(b, i) == v[i] is Some);
                            assert(bit(other.validity->0@, i) == w[i] is Some);
                        }
                        if v[i] is Some {
                            assert(decode_utf8(encode_utf8(v[i]->0)) == v[i]->0);
                            assert(decode_utf8(encode_utf8(w[i]->0)) == w[i]->0);
                        }
                    }
                    assert(v =~= w);
                }
            } else if v == w {
                if self.validity is Some {
                    lemma_bitmaps_equal(self.validity->0@, other.validity->0@);
                }
                if self.values is Some {
                    assert(self.offsets->0@ =~= other.offsets->0@);
                }
                assert(false);
            }
        }
        r
    }

    fn compare_offsets(&self, other: &Self) -> (r: bool)
        ensures
            r == (buffer(self.offsets) == buffer(other.offsets)),
    {
        match (&self.offsets, &other.offsets) {
            (Some(x), Some(y)) => {
                if x.len() != y.len() {
                    assert(x@.len() != y@.len());
                    return false;
                }
                let mut i: usize = 0;
                while i < x.len()
                    invariant
                        x@.len() == y@.len(),
                        buffer(self.offsets) == Some(x@),
                        buffer(other.offsets) == Some(y@),
                        i <= x@.len(),
                        forall|j: int| 0 <= j < i ==> x@[j] == y@[j],
                    decreases x@.len() - i,
                {
                    if x[i] != y[i] {
                        assert(x@[i as int] != y@[i as int]);
                        return false;
                    }
                    i = i + 1;
                }
                assert(x@ =~= y@);
                true
            },
            (None, None) => true,
            _ => false,
        }
    }

    /// A copy of the array: every cell, an array whose cells are all empty
    /// included, so that the copy equals the array (`==`).
    pub fn duplicate(&self) -> (r: Self)
        ensures
            r@ == self@,
    {
        proof {
            use_type_invariant(self);
        }
        let values = match &self.values {
            Some(b) => Some(copy_bytes(b)),
            None => None,
        };
        let validity = match &self.validity {
            Some(b) => Some(copy_bytes(b)),
            None => None,
        };
        let offsets = match &self.offsets {
            Some(o) => Some(copy_offsets(o)),
            None => None,
        };
        ArrayText {
            values,
            validity,
            offsets,
            len: self.len,
            str_len: self.str_len,
            nulls: self.nulls,
            contents: Ghost(self@),
        }
    }
}

impl Clone for ArrayText {
    /// A copy that equals the array; see [`ArrayText::duplicate`]. An array
    /// of empty cells keeps its length.
    fn clone(&self) -> (r: Self)
        ensures
            r@ == self@,
    {
        self.duplicate()
    }
}

impl PartialEq for ArrayText {
    fn eq(&self, other: &Self) -> (r: bool) {
        self.same_buffers(other)
    }
}

impl vstd::std_specs::cmp::PartialEqSpecImpl for ArrayText {
    open spec fn obeys_eq_spec() -> bool {
        true
    }

    open spec fn eq_spec(&self, other: &Self) -> bool {
        self@ == other@
    }
}

/// An iterator over shared references to the cells of an [`ArrayText`].
pub struct Iter<'a> {
    array: &'a ArrayText,
    idx: usize,
}

impl<'a> Iter<'a> {
    #[verifier::type_invariant]
    closed spec fn in_range(&self) -> bool {
        self.idx <= self.array@.len()
    }

    /// The cells not yet visited.
    pub closed spec fn remaining(&self) -> Seq<Option<Seq<char>>> {
        self.array@.skip(self.idx as int)
    }

    /// Returns the next cell, if any.
    pub fn next(&mut self) -> (r: Option<Option<&'a str>>)
        ensures
            old(self).remaining().len() > 0 ==> (r matches Some(c) && (match c {
                Some(s) => old(self).remaining()[0] == Some(s@),
                None => old(self).remaining()[0] is None,
            }) && final(self).remaining() == old(self).remaining().drop_first()),
            old(self).remaining().len() == 0 ==> r is None && final(self).remaining() == old(self).remaining(),
    {
        proof {
            use_type_invariant(&*self);
        }
        let n = self.array.len();
        if self.idx >= n {
            return None;
        }
        let c = self.array.get_ref(self.idx);
        self.idx = self.idx + 1;
        proof {
            assert(self.array@.skip(self.idx as int) =~= old(self).array@.skip(old(self).idx as int).drop_first());
        }
        Some(c)
    }

    /// Returns the number of cells not yet visited.
    pub fn len(&self) -> (r: usize)
        ensures
            r == self.remaining().len(),
    {
        proof {
            use_type_invariant(self);
        }
        let n = self.array.len();
        if self.idx >= n {
            0
        } else {
            n - self.idx
        }
    }
}

/// An iterator over the cells of an [`ArrayText`], which it owns.
pub struct IntoIter {
    array: ArrayText,
    idx: usize,
}

impl IntoIter {
    #[verifier::type_invariant]
    closed spec fn in_range(&self) -> bool {
        self.idx <= self.array@.len()
    }

    /// The cells not yet visited.
    pub closed spec fn remaining(&self) -> Seq<Option<Seq<char>>> {
        self.array@.skip(self.idx as int)
    }

    pub fn new(array: ArrayText) -> (r: Self)
        ensures
            r.remaining() == array@,
    {
        let r = IntoIter { array, idx: 0 };
        assert(r.array@.skip(0) =~= r.array@);
        r
    }

    /// Returns the next cell, if any.
    pub fn next(&mut self) -> (r: Option<Text>)
        ensures
            old(self).remaining().len() > 0 ==> (r matches Some(c) && text_cell(c) == old(
                self,
            ).remaining()[0] && final(self).remaining() == old(self).remaining().drop_first()),
            old(self).remaining().len() == 0 ==> r is None && final(self).remaining() == old(self).remaining(),
    {
        proof {
            use_type_invariant(&*self);
        }
        let n = self.array.len();
        if self.idx >= n {
            return None;
        }
        let c = self.array.get(self.idx);
        self.idx = self.idx + 1;
        proof {
            assert(self.array@.skip(self.idx as int) =~= old(self).array@.skip(old(self).idx as int).drop_first());
        }
        Some(c)
    }

    /// Returns the number of cells not yet visited.
    pub fn len(&self) -> (r: usize)
        ensures
            r == self.remaining().len(),
    {
        proof {
            use_type_invariant(self);
        }
        let n = self.array.len();
        if self.idx >= n {
            0
        } else {
            n - self.idx
        }
    }
}

} // verus!
