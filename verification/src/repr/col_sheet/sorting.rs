//! Stable sorting of cells, and the swaps that carry a sorted order out.
use vstd::prelude::*;

use super::column::{lemma_swaps_map, CellRef, CellValue, Column};
use super::super::floats::{f32_is_nan, f32_rank, f64_of_int, lemma_exact_int_rank_increases, lemma_widen_rank_increases};
use super::ordering::{cell_order, compare_cells, int_as_f64, int_of, num_rank, sign_of, text_order};
use super::utils::{swap_seq, swaps_applied, DataType};

verus! {

/// The value a cell reference stands for, if any.
pub open spec fn key_of(k: Option<CellRef>) -> Option<CellValue> {
    match k {
        Some(c) => Some(c.value()),
        None => None,
    }
}

/// The order of two keys: a missing key comes first, values follow
/// [`cell_order`].
pub open spec fn key_order(a: Option<CellValue>, b: Option<CellValue>) -> int {
    match (a, b) {
        (None, None) => 0,
        (None, Some(_)) => -1,
        (Some(_), None) => 1,
        (Some(x), Some(y)) => cell_order(x, y),
    }
}

/// The order of the keys at `x` and `y`, reversed when `rev` holds.
pub open spec fn dir_order(keys: Seq<Option<CellValue>>, rev: bool, x: int, y: int) -> int {
    if rev {
        key_order(keys[y], keys[x])
    } else {
        key_order(keys[x], keys[y])
    }
}

/// The keys are ordered consistently: the order of two keys flips when they
/// are swapped, and "not after" is transitive.
pub open spec fn orderly(keys: Seq<Option<CellValue>>) -> bool {
    &&& forall|i: int, j: int|
        0 <= i < keys.len() && 0 <= j < keys.len() ==> #[trigger] key_order(keys[i], keys[j]) == -key_order(
            keys[j],
            keys[i],
        )
    &&& forall|i: int, j: int, l: int|
        0 <= i < keys.len() && 0 <= j < keys.len() && 0 <= l < keys.len() && #[trigger] key_order(
            keys[i],
            keys[j],
        ) <= 0 && #[trigger] key_order(keys[j], keys[l]) <= 0 ==> key_order(keys[i], keys[l]) <= 0
}

/// `p` lists each of `0..n` once.
pub open spec fn is_perm(p: Seq<usize>, n: nat) -> bool {
    &&& p.len() == n
    &&& forall|i: int| 0 <= i < p.len() ==> #[trigger] p[i] < n
    &&& forall|i: int, j: int| 0 <= i < p.len() && 0 <= j < p.len() && i != j ==> p[i] != p[j]
}

/// `p` lists positions in the order of their keys, keeping the first of two
/// equal keys first.
pub open spec fn sorted_stably(p: Seq<usize>, keys: Seq<Option<CellValue>>, rev: bool) -> bool {
    forall|i: int, j: int|
        0 <= i < j < p.len() ==> #[trigger] dir_order(keys, rev, p[i] as int, p[j] as int) <= 0 && (
        dir_order(keys, rev, p[i] as int, p[j] as int) == 0 ==> p[i] < p[j])
}

/// The value `v` holds when it is empty or of type `kind`.
pub open spec fn fits_kind(v: CellValue, kind: DataType) -> bool {
    match v {
        CellValue::Null => true,
        CellValue::I32(_) => kind == DataType::I32,
        CellValue::U32(_) => kind == DataType::U32,
        CellValue::ISize(_) => kind == DataType::ISize,
        CellValue::USize(_) => kind == DataType::USize,
        CellValue::Bool(_) => kind == DataType::Bool,
        CellValue::F32(_) => kind == DataType::F32,
        CellValue::F64(_) => kind == DataType::F64,
        CellValue::Text(_) => kind == DataType::Text,
    }
}

/// The order of texts is -1, 0 or 1, antisymmetric and transitive.
pub proof fn lemma_text_order(x: Seq<char>, y: Seq<char>, z: Seq<char>)
    ensures
        -1 <= text_order(x, y) <= 1,
        text_order(x, y) == -text_order(y, x),
        text_order(x, y) <= 0 && text_order(y, z) <= 0 ==> text_order(x, z) <= 0,
    decreases x.len(),
{
    if x.len() > 0 && y.len() > 0 {
        if z.len() > 0 {
            lemma_text_order(x.drop_first(), y.drop_first(), z.drop_first());
        } else {
            lemma_text_order(x.drop_first(), y.drop_first(), z);
        }
    }
}

/// The order of values is -1, 0 or 1.
pub proof fn lemma_cell_order_range(a: CellValue, b: CellValue)
    ensures
        -1 <= cell_order(a, b) <= 1,
{
    match (a, b) {
        (CellValue::Text(x), CellValue::Text(y)) => {
            lemma_text_order(x, y, y);
        },
        _ => {},
    }
}

/// Values of one type, empty ones among them, are ordered consistently.
pub proof fn lemma_cell_order_same_kind(a: CellValue, b: CellValue, c: CellValue, kind: DataType)
    requires
        fits_kind(a, kind),
        fits_kind(b, kind),
        fits_kind(c, kind),
    ensures
        -1 <= cell_order(a, b) <= 1,
        cell_order(a, b) == -cell_order(b, a),
        cell_order(a, b) <= 0 && cell_order(b, c) <= 0 ==> cell_order(a, c) <= 0,
{
    match (a, b, c) {
        (CellValue::Text(x), CellValue::Text(y), CellValue::Text(z)) => {
            lemma_text_order(x, y, z);
        },
        (CellValue::Text(x), CellValue::Text(y), _) => {
            lemma_text_order(x, y, y);
        },
        _ => {},
    }
}

/// The order of cell values is antisymmetric: comparing the other way round
/// gives the opposite result.
pub proof fn law_cell_order_antisymmetric(a: CellValue, b: CellValue)
    ensures
        -1 <= cell_order(a, b) <= 1,
        cell_order(a, b) == -cell_order(b, a),
{
    match (a, b) {
        (CellValue::Text(x), CellValue::Text(y)) => {
            lemma_text_order(x, y, y);
        },
        _ => {},
    }
}

/// The family of a number: 0 for integers of any type, 1 for 32 bit floats,
/// 2 for 64 bit floats; -1 for a value that is not a number.
pub open spec fn number_family(v: CellValue) -> int {
    match v {
        CellValue::I32(_) | CellValue::U32(_) | CellValue::ISize(_) | CellValue::USize(_) => 0,
        CellValue::F32(_) => 1,
        CellValue::F64(_) => 2,
        _ => -1,
    }
}

/// An integer that a 64 bit float holds exactly: of magnitude below 2^53.
pub open spec fn exact_int(v: CellValue) -> bool {
    int_of(v) matches Some(x) && -0x20_0000_0000_0000 < x < 0x20_0000_0000_0000
}

/// A number that compares with a 64 bit float without rounding: a 64 bit
/// float, an integer that a 64 bit float holds exactly, or a 32 bit float
/// that is not a NaN.
pub open spec fn f64_comparable(v: CellValue) -> bool {
    ||| exact_int(v)
    ||| v is F64
    ||| v matches CellValue::F32(x) && !f32_is_nan(x)
}

/// The two values are not numbers of different families, unless both
/// compare with 64 bit floats without rounding.
pub open spec fn same_family(a: CellValue, b: CellValue) -> bool {
    ||| number_family(a) == -1
    ||| number_family(b) == -1
    ||| number_family(a) == number_family(b)
    ||| f64_comparable(a) && f64_comparable(b)
}

proof fn lemma_exact_ints_by_rank(a: CellValue, b: CellValue)
    requires
        exact_int(a),
        exact_int(b),
    ensures
        cell_order(a, b) == sign_of(num_rank(a), num_rank(b)),
{
    let x = int_of(a)->Some_0;
    let y = int_of(b)->Some_0;
    let (nx, mx) = if x < 0 { (true, (-x) as nat) } else { (false, x as nat) };
    let (ny, my) = if y < 0 { (true, (-y) as nat) } else { (false, y as nat) };
    assert(int_as_f64(x) == f64_of_int(nx, mx));
    assert(int_as_f64(y) == f64_of_int(ny, my));
    if x < y {
        lemma_exact_int_rank_increases(nx, mx, ny, my);
    } else if y < x {
        lemma_exact_int_rank_increases(ny, my, nx, mx);
    }
}

/// Two numbers that compare with 64 bit floats without rounding compare as
/// the 64 bit floats they convert to.
proof fn lemma_comparable_by_rank(a: CellValue, b: CellValue)
    requires
        f64_comparable(a),
        f64_comparable(b),
    ensures
        cell_order(a, b) == sign_of(num_rank(a), num_rank(b)),
{
    if exact_int(a) && exact_int(b) {
        lemma_exact_ints_by_rank(a, b);
    }
    if let (CellValue::F32(x), CellValue::F32(y)) = (a, b) {
        if f32_rank(x) < f32_rank(y) {
            lemma_widen_rank_increases(x, y);
        } else if f32_rank(y) < f32_rank(x) {
            lemma_widen_rank_increases(y, x);
        } else {
            assert(x == y);
        }
    }
}

/// The order of cell values is transitive among values that do not mix
/// numbers of different families (integers, 32 bit floats, 64 bit floats),
/// unless every number mixed compares with 64 bit floats without rounding:
/// integers below 2^53 in magnitude, 32 bit floats other than NaNs, and 64
/// bit floats. Empty cells, booleans and text go with any of these.
pub proof fn law_cell_order_transitive(a: CellValue, b: CellValue, c: CellValue)
    requires
        same_family(a, b),
        same_family(b, c),
        same_family(a, c),
        cell_order(a, b) <= 0,
        cell_order(b, c) <= 0,
    ensures
        cell_order(a, c) <= 0,
{
    if f64_comparable(a) && f64_comparable(b) {
        lemma_comparable_by_rank(a, b);
    }
    if f64_comparable(b) && f64_comparable(c) {
        lemma_comparable_by_rank(b, c);
    }
    if f64_comparable(a) && f64_comparable(c) {
        lemma_comparable_by_rank(a, c);
    }
    match (a, b, c) {
        (CellValue::Text(x), CellValue::Text(y), CellValue::Text(z)) => {
            lemma_text_order(x, y, z);
        },
        _ => {},
    }
}

/// Keys every two of which go together in the sense of [`same_family`] are
/// orderly.
pub proof fn lemma_families_orderly(keys: Seq<Option<CellValue>>)
    requires
        forall|i: int, j: int|
            0 <= i < keys.len() && 0 <= j < keys.len() && #[trigger] keys[i] is Some && #[trigger] keys[j] is Some
                ==> same_family(keys[i]->Some_0, keys[j]->Some_0),
    ensures
        orderly(keys),
{
    assert forall|i: int, j: int|
        0 <= i < keys.len() && 0 <= j < keys.len() implies #[trigger] key_order(keys[i], keys[j]) == -key_order(
        keys[j],
        keys[i],
    ) by {
        if keys[i] is Some && keys[j] is Some {
            law_cell_order_antisymmetric(keys[i]->Some_0, keys[j]->Some_0);
        }
    }
    assert forall|i: int, j: int, l: int|
        0 <= i < keys.len() && 0 <= j < keys.len() && 0 <= l < keys.len() && #[trigger] key_order(
            keys[i],
            keys[j],
        ) <= 0 && #[trigger] key_order(keys[j], keys[l]) <= 0 implies key_order(keys[i], keys[l]) <= 0 by {
        if keys[i] is Some && keys[j] is Some && keys[l] is Some {
            law_cell_order_transitive(keys[i]->Some_0, keys[j]->Some_0, keys[l]->Some_0);
        }
    }
}

/// Keys that are all present and of one type are orderly.
pub proof fn lemma_same_kind_orderly(keys: Seq<Option<CellValue>>, kind: DataType)
    requires
        forall|i: int| 0 <= i < keys.len() ==> #[trigger] keys[i] is Some && fits_kind(keys[i]->Some_0, kind),
    ensures
        orderly(keys),
{
    assert forall|i: int, j: int|
        0 <= i < keys.len() && 0 <= j < keys.len() implies #[trigger] key_order(keys[i], keys[j]) == -key_order(
        keys[j],
        keys[i],
    ) by {
        lemma_cell_order_same_kind(keys[i]->Some_0, keys[j]->Some_0, keys[j]->Some_0, kind);
    }
    assert forall|i: int, j: int, l: int|
        0 <= i < keys.len() && 0 <= j < keys.len() && 0 <= l < keys.len() && #[trigger] key_order(
            keys[i],
            keys[j],
        ) <= 0 && #[trigger] key_order(keys[j], keys[l]) <= 0 implies key_order(keys[i], keys[l]) <= 0 by {
        lemma_cell_order_same_kind(keys[i]->Some_0, keys[j]->Some_0, keys[l]->Some_0, kind);
    }
}

proof fn lemma_key_order_range(a: Option<CellValue>, b: Option<CellValue>)
    ensures
        -1 <= key_order(a, b) <= 1,
{
    if a is Some && b is Some {
        lemma_cell_order_range(a->Some_0, b->Some_0);
    }
}

fn compare_keys(a: &Option<CellRef>, b: &Option<CellRef>) -> (r: i8)
    ensures
        r == key_order(key_of(*a), key_of(*b)),
{
    match (a, b) {
        (None, None) => 0,
        (None, Some(_)) => -1,
        (Some(_), None) => 1,
        (Some(x), Some(y)) => compare_cells(x, y),
    }
}

/// The positions `0..keys.len()` in the order of their keys (reversed when
/// `rev` holds), equal keys kept in their first order; when the keys are not
/// orderly, some order of the positions.
pub fn sort_indices(keys: &Vec<Option<CellRef>>, rev: bool) -> (p: Vec<usize>)
    ensures
        is_perm(p@, keys@.len()),
        orderly(keys@.map_values(|k: Option<CellRef>| key_of(k))) ==> sorted_stably(
            p@,
            keys@.map_values(|k: Option<CellRef>| key_of(k)),
            rev,
        ),
{
    let ghost ks = keys@.map_values(|k: Option<CellRef>| key_of(k));
    let n = keys.len();
    let mut p: Vec<usize> = Vec::new();
    let mut i: usize = 0;
    while i < n
        invariant
            n == keys@.len(),
            ks == keys@.map_values(|k: Option<CellRef>| key_of(k)),
            i <= n,
            p@.len() == i,
            forall|a: int| 0 <= a < p@.len() ==> #[trigger] p@[a] < i,
            forall|a: int, b: int| 0 <= a < p@.len() && 0 <= b < p@.len() && a != b ==> p@[a] != p@[b],
            orderly(ks) ==> sorted_stably(p@, ks, rev),
        decreases n - i,
    {
        let mut j: usize = p.len();
        while j > 0
            invariant
                n == keys@.len(),
                ks == keys@.map_values(|k: Option<CellRef>| key_of(k)),
                i < n,
                j <= p@.len(),
                p@.len() == i,
                forall|a: int| 0 <= a < p@.len() ==> #[trigger] p@[a] < i,
                forall|a: int| j <= a < p@.len() ==> #[trigger] dir_order(ks, rev, p@[a] as int, i as int) == 1,
            ensures
                j <= p@.len(),
                forall|a: int| j <= a < p@.len() ==> #[trigger] dir_order(ks, rev, p@[a] as int, i as int) == 1,
                j == 0 || dir_order(ks, rev, p@[j - 1] as int, i as int) <= 0,
            decreases j,
        {
            let prev = p[j - 1];
            let o = if rev {
                compare_keys(&keys[i], &keys[prev])
            } else {
                compare_keys(&keys[prev], &keys[i])
            };
            if o <= 0 {
                break;
            }
            proof {
                lemma_key_order_range(ks[prev as int], ks[i as int]);
                lemma_key_order_range(ks[i as int], ks[prev as int]);
            }
            j = j - 1;
        }
        let ghost before = p@;
        p.insert(j, i);
        proof {
            assert forall|a: int| 0 <= a < p@.len() implies #[trigger] p@[a] < i + 1 by {
                if a < j {
                    assert(p@[a] == before[a]);
                } else if a > j {
                    assert(p@[a] == before[a - 1]);
                }
            }
            assert forall|a: int, b: int| 0 <= a < p@.len() && 0 <= b < p@.len() && a != b implies p@[a] != p@[b] by {
                if a != j && b != j {
                    let a0 = if a < j { a } else { a - 1 };
                    let b0 = if b < j { b } else { b - 1 };
                    assert(p@[a] == before[a0] && p@[b] == before[b0]);
                } else if a == j {
                    let b0 = if b < j { b } else { b - 1 };
                    assert(p@[b] == before[b0]);
                } else {
                    let a0 = if a < j { a } else { a - 1 };
                    assert(p@[a] == before[a0]);
                }
            }
            if orderly(ks) {
                assert forall|a: int, b: int| 0 <= a < b < p@.len() implies #[trigger] dir_order(
                    ks,
                    rev,
                    p@[a] as int,
                    p@[b] as int,
                ) <= 0 && (dir_order(ks, rev, p@[a] as int, p@[b] as int) == 0 ==> p@[a] < p@[b]) by {
                    if a != j && b != j {
                        let a0 = if a < j { a } else { a - 1 };
                        let b0 = if b < j { b } else { b - 1 };
                        assert(p@[a] == before[a0] && p@[b] == before[b0]);
                        assert(dir_order(ks, rev, before[a0] as int, before[b0] as int) <= 0);
                    } else if a == j {
                        assert(p@[b] == before[b - 1]);
                        let x = before[b - 1] as int;
                        assert(dir_order(ks, rev, x, i as int) == 1);
                        if rev {
                            assert(key_order(ks[i as int], ks[x]) == -key_order(ks[x], ks[i as int]));
                        } else {
                            assert(key_order(ks[x], ks[i as int]) == -key_order(ks[i as int], ks[x]));
                        }
                    } else {
                        assert(b == j);
                        assert(p@[a] == before[a]);
                        let x = before[a] as int;
                        let y = before[j - 1] as int;
                        assert(dir_order(ks, rev, y, i as int) <= 0);
                        if a < j - 1 {
                            assert(dir_order(ks, rev, x, y) <= 0);
                            if rev {
                                assert(key_order(ks[i as int], ks[y]) <= 0 && key_order(ks[y], ks[x]) <= 0);
                            } else {
                                assert(key_order(ks[x], ks[y]) <= 0 && key_order(ks[y], ks[i as int]) <= 0);
                            }
                        }
                    }
                }
            }
        }
        i = i + 1;
    }
    p
}

/// `0, 1, ..., n - 1`.
pub open spec fn ident(n: nat) -> Seq<usize> {
    Seq::new(n, |i: int| i as usize)
}

/// Where `x` sits in `s`.
pub open spec fn location(s: Seq<usize>, x: usize) -> int {
    choose|i: int| 0 <= i < s.len() && s[i] == x
}

/// The first `k` swaps that carry out the order `p`: swap `j` exchanges
/// position `j` with where the element `p[j]` sits after the swaps before it.
pub open spec fn swap_plan(p: Seq<usize>, k: nat) -> Seq<usize>
    decreases k,
{
    if k == 0 {
        Seq::empty()
    } else {
        let prev = swap_plan(p, (k - 1) as nat);
        prev.push(location(swaps_applied(ident(p.len()), prev), p[k - 1]) as usize)
    }
}

/// Where the element first at `x` sits after the swaps `q[..pos]`, found by
/// following the swaps that moved it.
spec fn chase(q: Seq<usize>, pos: int, x: int) -> int
    decreases pos - x,
{
    if 0 <= x < pos && x < q.len() && x < q[x] as int {
        if (q[x] as int) < pos {
            chase(q, pos, q[x] as int)
        } else {
            q[x] as int
        }
    } else {
        x
    }
}

proof fn lemma_chase_agree(q1: Seq<usize>, q2: Seq<usize>, pos: int, x: int)
    requires
        0 <= pos <= q1.len(),
        pos <= q2.len(),
        forall|j: int| 0 <= j < pos ==> q1[j] == q2[j],
    ensures
        chase(q1, pos, x) == chase(q2, pos, x),
    decreases pos - x,
{
    if 0 <= x < pos && x < q1[x] as int && (q1[x] as int) < pos {
        lemma_chase_agree(q1, q2, pos, q1[x] as int);
    }
}

proof fn lemma_chase_extend(q: Seq<usize>, pos: int, x: int)
    requires
        0 <= pos < q.len(),
        0 <= x,
        chase(q, pos, x) != pos,
    ensures
        chase(q, pos + 1, x) == chase(q, pos, x),
    decreases pos - x,
{
    if 0 <= x < pos && x < q[x] as int && (q[x] as int) < pos {
        lemma_chase_extend(q, pos, q[x] as int);
    }
}

proof fn lemma_chase_arrive(q: Seq<usize>, pos: int, x: int)
    requires
        0 <= pos < q.len(),
        0 <= x,
        chase(q, pos, x) == pos,
        q[pos] as int > pos,
    ensures
        chase(q, pos + 1, x) == q[pos] as int,
    decreases pos - x,
{
    assert(chase(q, pos + 1, pos) == q[pos] as int);
    if 0 <= x < pos && x < q[x] as int {
        if (q[x] as int) < pos {
            lemma_chase_arrive(q, pos, q[x] as int);
        } else {
            assert(q[x] as int == pos);
        }
    }
}

/// Turns the order `indices` (position `i` of the sorted sequence takes the
/// element at `indices[i]`) into swaps: exchanging, for each position `i` in
/// turn, the elements at `i` and at `indices[i]` sorts the sequence.
pub fn index_sort_swap(indices: &mut Vec<usize>)
    requires
        is_perm(old(indices)@, old(indices)@.len()),
    ensures
        final(indices)@ == swap_plan(old(indices)@, old(indices)@.len()),
        swaps_applied(ident(old(indices)@.len()), final(indices)@) == old(indices)@,
        final(indices)@.len() == old(indices)@.len(),
        forall|i: int| 0 <= i < final(indices)@.len() ==> i <= #[trigger] final(indices)@[i] < old(indices)@.len(),
{
    let ghost p = indices@;
    let end = indices.len();
    let ghost n = end as nat;
    let ghost mut perm = ident(n);
    let ghost mut loc = Seq::new(n, |i: int| i);
    let mut pos: usize = 0;
    proof {
        assert(indices@.take(0) =~= Seq::<usize>::empty());
        assert(swap_plan(p, 0) =~= Seq::<usize>::empty());
    }
    while pos < end
        invariant
            end == n,
            p.len() == n,
            is_perm(p, n),
            pos <= end,
            indices@.len() == n,
            forall|j: int| pos <= j < n ==> #[trigger] indices@[j] == p[j],
            indices@.take(pos as int) == swap_plan(p, pos as nat),
            forall|j: int| 0 <= j < pos ==> j <= #[trigger] indices@[j] < n,
            perm == swaps_applied(ident(n), indices@.take(pos as int)),
            perm.len() == n,
            loc.len() == n,
            forall|i: int| 0 <= i < n ==> #[trigger] perm[i] < n && loc[perm[i] as int] == i,
            forall|x: int| 0 <= x < n ==> 0 <= #[trigger] loc[x] < n && perm[loc[x]] == x,
            forall|j: int| 0 <= j < pos ==> #[trigger] perm[j] == p[j],
            forall|x: int|
                0 <= x < n && (forall|j: int| 0 <= j < pos ==> p[j] != x) ==> #[trigger] loc[x] == chase(
                    indices@,
                    pos as int,
                    x,
                ) && loc[x] >= pos,
        decreases end - pos,
    {
        let ghost target = p[pos as int];
        proof {
            assert forall|j: int| 0 <= j < pos implies p[j] != target by {
                assert(p[j] != p[pos as int]);
            }
        }
        let ghost entry = indices@;
        let mut elem = indices[pos];
        while pos > elem
            invariant
                forall|j: int| 0 <= j < pos ==> #[trigger] indices@[j] == entry[j],
                end == n,
                p.len() == n,
                pos < end,
                indices@.len() == n,
                forall|j: int| pos < j < n ==> #[trigger] indices@[j] == p[j],
                forall|j: int| 0 <= j < pos ==> j <= #[trigger] indices@[j] < n,
                elem == indices@[pos as int],
                elem < n,
                chase(indices@, pos as int, elem as int) == loc[target as int],
                loc[target as int] >= pos,
                indices@.take(pos as int) == swap_plan(p, pos as nat),
            decreases n - elem,
        {
            let next = indices[elem];
            let ghost before = indices@;
            proof {
                if next <= elem {
                    assert(chase(indices@, pos as int, elem as int) == elem);
                }
                assert(next > elem);
            }
            indices.set(pos, next);
            proof {
                lemma_chase_agree(before, indices@, pos as int, elem as int);
                lemma_chase_agree(before, indices@, pos as int, next as int);
                assert(indices@.take(pos as int) =~= before.take(pos as int));
            }
            elem = next;
        }
        let ghost q = indices@;
        let ghost t = elem as int;
        let ghost z = perm[pos as int];
        proof {
            assert forall|x: int| 0 <= x < n implies chase(entry, pos as int, x) == chase(q, pos as int, x) by {
                lemma_chase_agree(entry, q, pos as int, x);
            }
            assert(t == loc[target as int]);
            assert(perm[t] == target);
            assert forall|j: int| 0 <= j < pos implies perm[j] != z by {
                assert(loc[perm[j] as int] == j);
            }
            assert(loc[z as int] == pos);
            assert forall|j: int| 0 <= j < pos implies p[j] != z by {
                assert(perm[j] == p[j]);
            }
            assert(q.take(pos + 1).drop_last() =~= q.take(pos as int));
            assert(swap_plan(p, pos as nat + 1) == swap_plan(p, pos as nat).push(
                location(swaps_applied(ident(p.len()), swap_plan(p, pos as nat)), target) as usize,
            ));
            let l = location(perm, target);
            assert(0 <= t < n && perm[t] == target);
            assert(0 <= l < n && perm[l] == target);
            assert(loc[perm[l] as int] == l);
            assert(q.take(pos + 1) =~= swap_plan(p, pos as nat + 1));
            let new_perm = swap_seq(perm, pos as int, t);
            let new_loc = loc.update(z as int, t).update(target as int, pos as int);
            assert forall|i: int| 0 <= i < n implies #[trigger] new_perm[i] < n && new_loc[new_perm[i] as int] == i by {
                if i == pos {
                } else if i == t {
                } else {
                    assert(new_perm[i] == perm[i]);
                    assert(loc[perm[i] as int] == i);
                }
            }
            assert forall|x: int| 0 <= x < n implies 0 <= #[trigger] new_loc[x] < n && new_perm[new_loc[x]] == x by {
                if x == target as int {
                } else if x == z as int {
                } else {
                    assert(new_loc[x] == loc[x]);
                    assert(loc[x] != pos && loc[x] != t);
                }
            }
            assert forall|x: int|
                0 <= x < n && (forall|j: int| 0 <= j < pos + 1 ==> p[j] != x) implies #[trigger] new_loc[x]
                == chase(q, pos + 1, x) && new_loc[x] >= pos + 1 by {
                assert(p[pos as int] != x);
                assert(forall|j: int| 0 <= j < pos ==> p[j] != x);
                if x == z as int {
                    assert(t != pos);
                    assert(chase(q, pos as int, x) == pos);
                    lemma_chase_arrive(q, pos as int, x);
                } else {
                    assert(loc[x] != pos);
                    lemma_chase_extend(q, pos as int, x);
                }
            }
            perm = new_perm;
            loc = new_loc;
        }
        pos = pos + 1;
    }
    proof {
        assert(indices@.take(n as int) =~= indices@);
        assert(perm =~= p);
    }
}

/// `s` with its first `p.len()` elements taken in the order `p`.
pub open spec fn permuted<T>(s: Seq<T>, p: Seq<usize>) -> Seq<T> {
    Seq::new(s.len(), |i: int| if i < p.len() { s[p[i] as int] } else { s[i] })
}

proof fn lemma_swaps_len<T>(s: Seq<T>, q: Seq<usize>)
    requires
        forall|i: int| 0 <= i < q.len() ==> #[trigger] q[i] < s.len(),
        q.len() <= s.len(),
    ensures
        swaps_applied(s, q).len() == s.len(),
    decreases q.len(),
{
    if q.len() > 0 {
        let d = q.drop_last();
        assert forall|i: int| 0 <= i < d.len() implies #[trigger] d[i] < s.len() by {
            assert(d[i] == q[i]);
        }
        lemma_swaps_len(s, d);
    }
}

proof fn lemma_swaps_prefix<T>(s: Seq<T>, q: Seq<usize>, n: int)
    requires
        0 <= n <= s.len(),
        q.len() <= n,
        forall|i: int| 0 <= i < q.len() ==> #[trigger] q[i] < n,
    ensures
        swaps_applied(s, q) == swaps_applied(s.take(n), q) + s.skip(n),
        swaps_applied(s.take(n), q).len() == n,
    decreases q.len(),
{
    if q.len() == 0 {
        assert(s =~= s.take(n) + s.skip(n));
    } else {
        let d = q.drop_last();
        assert forall|i: int| 0 <= i < d.len() implies #[trigger] d[i] < n by {
            assert(d[i] == q[i]);
        }
        lemma_swaps_prefix(s, d, n);
        let x = swaps_applied(s.take(n), d);
        let a = q.len() - 1;
        let b = q.last() as int;
        assert(swap_seq(x + s.skip(n), a, b) =~= swap_seq(x, a, b) + s.skip(n));
    }
}

/// Carrying out the swaps that `index_sort_swap` makes of an order `p`
/// takes the first elements of any sequence in that order.
pub proof fn lemma_swaps_follow_order<T>(s: Seq<T>, q: Seq<usize>, p: Seq<usize>)
    requires
        q.len() == p.len() <= s.len(),
        q.len() <= usize::MAX,
        forall|i: int| 0 <= i < q.len() ==> #[trigger] q[i] < q.len(),
        swaps_applied(ident(q.len()), q) == p,
    ensures
        swaps_applied(s, q) == permuted(s, p),
{
    let n = q.len() as int;
    let f = |k: usize| s[k as int];
    assert forall|i: int| 0 <= i < q.len() implies #[trigger] q[i] < ident(q.len()).len() by {}
    lemma_swaps_map(ident(q.len()), q, f);
    assert forall|i: int| 0 <= i < n implies #[trigger] ident(q.len()).map_values(f)[i] == s.take(n)[i] by {
        assert(ident(q.len())[i] as int == i);
    }
    assert(ident(q.len()).map_values(f) =~= s.take(n));
    lemma_swaps_prefix(s, q, n);
    assert(swaps_applied(s, q) =~= permuted(s, p));
}

/// The cells of a column are empty or of the column's type.
pub proof fn lemma_cells_fit_kind(c: Column)
    ensures
        forall|i: int| 0 <= i < c.cells().len() ==> fits_kind(#[trigger] c.cells()[i], c.kind_view()),
{
}

} // verus!
