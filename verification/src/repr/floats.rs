//! Floating point numbers held by their IEEE 754 bit patterns: their total
//! order, and the conversions that comparing them with integers needs.
use vstd::arithmetic::div_mod::{lemma_div_is_ordered, lemma_div_by_multiple, lemma_multiply_divide_lt};
use vstd::arithmetic::mul::lemma_mul_strict_inequality;
use vstd::arithmetic::power2::{lemma2_to64, lemma2_to64_rest, lemma_pow2_adds, lemma_pow2_pos, lemma_pow2_strictly_increases, lemma_pow2_unfold, pow2};
use vstd::prelude::*;

verus! {

/// Where a 64 bit float falls in the total order of IEEE 754 (`totalOrder`):
/// negative patterns in reverse, below the positive ones.
pub open spec fn f64_rank(bits: u64) -> int {
    if bits < 0x8000_0000_0000_0000 {
        bits as int
    } else {
        0x7fff_ffff_ffff_ffff - bits as int
    }
}

/// Where a 32 bit float falls in the total order of IEEE 754.
pub open spec fn f32_rank(bits: u32) -> int {
    if bits < 0x8000_0000 {
        bits as int
    } else {
        0x7fff_ffff - bits as int
    }
}

/// The position of the highest set bit of `m`.
pub open spec fn top_bit(m: nat) -> nat
    decreases m,
{
    if m < 2 {
        0
    } else {
        1 + top_bit(m / 2)
    }
}

proof fn lemma_top_bit(m: nat)
    requires
        m >= 1,
    ensures
        pow2(top_bit(m)) <= m < pow2(top_bit(m) + 1),
    decreases m,
{
    if m >= 2 {
        lemma_top_bit(m / 2);
        lemma_pow2_unfold(top_bit(m));
        lemma_pow2_unfold(top_bit(m) + 1);
    } else {
        lemma2_to64();
    }
}

fn find_top_bit(m: u64) -> (e: u64)
    requires
        m >= 1,
    ensures
        e == top_bit(m as nat),
        e < 64,
        pow2(e as nat) <= m < pow2(e as nat + 1),
{
    let mut t = m;
    let mut e: u64 = 0;
    while t >= 2
        invariant
            1 <= t <= m,
            e + t <= m + 1,
            top_bit(m as nat) == e + top_bit(t as nat),
        decreases t,
    {
        t = t / 2;
        e = e + 1;
    }
    proof {
        lemma_top_bit(m as nat);
        lemma2_to64();
        if e >= 64 {
            lemma_pow2_strictly_increases(64, e as nat);
        }
    }
    e
}

fn pow2_u64(k: u64) -> (p: u64)
    requires
        k < 64,
    ensures
        p == pow2(k as nat),
{
    let mut p: u64 = 1;
    let mut i: u64 = 0;
    proof {
        lemma2_to64();
        lemma2_to64_rest();
    }
    while i < k
        invariant
            i <= k < 64,
            p == pow2(i as nat),
            pow2(63) == 0x8000_0000_0000_0000,
        decreases k - i,
    {
        proof {
            lemma_pow2_unfold(i as nat + 1);
            if i + 1 < 63 {
                lemma_pow2_strictly_increases(i as nat + 1, 63);
            }
        }
        p = p * 2;
        i = i + 1;
    }
    p
}

/// The pattern of the 64 bit float nearest to the integer of magnitude `m`,
/// negative when `neg` holds; ties go to the even significand.
pub open spec fn f64_of_int(neg: bool, m: nat) -> u64 {
    if m == 0 {
        0
    } else {
        let e = top_bit(m);
        let sign: int = if neg {
            0x8000_0000_0000_0000
        } else {
            0
        };
        if e <= 52 {
            (sign + (e + 1023) * 0x10_0000_0000_0000 + (m - pow2(e)) * pow2((52 - e) as nat)) as u64
        } else {
            let k = (e - 52) as nat;
            let q = m / pow2(k);
            let r = m % pow2(k);
            let h = pow2((k - 1) as nat);
            let q2 = if r > h || (r == h && q % 2 == 1) {
                q + 1
            } else {
                q
            };
            if q2 == 0x20_0000_0000_0000 {
                (sign + (e + 1024) * 0x10_0000_0000_0000) as u64
            } else {
                (sign + (e + 1023) * 0x10_0000_0000_0000 + (q2 - 0x10_0000_0000_0000)) as u64
            }
        }
    }
}

/// The pattern, without its sign, of the 64 bit float equal to `m`, for
/// `1 <= m < 2^53`.
spec fn exact_bits(m: nat) -> int {
    let e = top_bit(m);
    (e + 1023) * 0x10_0000_0000_0000 + (m - pow2(e)) * pow2((52 - e) as nat)
}

proof fn lemma_exact_bits(m: nat)
    requires
        1 <= m < 0x20_0000_0000_0000,
    ensures
        top_bit(m) <= 52,
        pow2(top_bit(m)) <= m < pow2(top_bit(m) + 1),
        (top_bit(m) + 1023) * 0x10_0000_0000_0000 <= exact_bits(m) < (top_bit(m) + 1024) * 0x10_0000_0000_0000,
        0 < exact_bits(m) < 0x8000_0000_0000_0000,
        f64_of_int(false, m) as int == exact_bits(m),
        f64_of_int(true, m) as int == 0x8000_0000_0000_0000 + exact_bits(m),
{
    let e = top_bit(m);
    lemma_top_bit(m);
    lemma2_to64();
    lemma2_to64_rest();
    if e > 52 {
        lemma_pow2_strictly_increases(53, e);
    }
    lemma_pow2_adds(e, (52 - e) as nat);
    let pe = pow2(e);
    let sh = pow2((52 - e) as nat);
    lemma_pow2_pos((52 - e) as nat);
    lemma_pow2_unfold(e + 1);
    assert(0 <= (m - pe) * sh < pe * sh) by (nonlinear_arith)
        requires
            0 <= m - pe < pe,
            sh > 0,
    ;
    assert(pe * sh == 0x10_0000_0000_0000);
}

/// Among integers of magnitude below `2^53`, which 64 bit floats hold
/// exactly, a greater integer has a greater pattern without the sign.
proof fn lemma_exact_bits_increase(m1: nat, m2: nat)
    requires
        1 <= m1 < m2 < 0x20_0000_0000_0000,
    ensures
        exact_bits(m1) < exact_bits(m2),
{
    lemma_exact_bits(m1);
    lemma_exact_bits(m2);
    let e1 = top_bit(m1);
    let e2 = top_bit(m2);
    if e1 > e2 {
        lemma_pow2_strictly_increases(e2 + 1, e1);
        assert(false);
    } else if e1 == e2 {
        let sh = pow2((52 - e1) as nat);
        lemma_pow2_pos((52 - e1) as nat);
        assert((m1 - pow2(e1)) * sh < (m2 - pow2(e1)) * sh) by (nonlinear_arith)
            requires
                m1 < m2,
                sh > 0,
        ;
    }
}

/// The rank of the 64 bit float nearest to an integer of magnitude `m`
/// (negative when `neg` holds) is, for `m < 2^53`, zero for zero, the
/// unsigned pattern for a positive integer and one below its negation for a
/// negative one.
pub proof fn lemma_exact_int_rank_increases(neg1: bool, m1: nat, neg2: bool, m2: nat)
    requires
        m1 < 0x20_0000_0000_0000,
        m2 < 0x20_0000_0000_0000,
        (if neg1 { -m1 } else { m1 as int }) < (if neg2 { -m2 } else { m2 as int }),
    ensures
        f64_rank(f64_of_int(neg1, m1)) < f64_rank(f64_of_int(neg2, m2)),
{
    if m1 >= 1 {
        lemma_exact_bits(m1);
    }
    if m2 >= 1 {
        lemma_exact_bits(m2);
    }
    if m1 >= 1 && m2 >= 1 {
        if neg1 && neg2 {
            lemma_exact_bits_increase(m2, m1);
        } else if !neg1 && !neg2 {
            lemma_exact_bits_increase(m1, m2);
        }
    }
}

/// The pattern, without its sign, of the 64 bit float equal to the 32 bit
/// float of pattern `p` (sign bit clear, not a NaN).
spec fn widened_bits(p: int) -> int {
    let e = p / 0x80_0000;
    let m = p % 0x80_0000;
    if e == 0xff {
        0x7ff0_0000_0000_0000
    } else if e != 0 {
        (e + 896) * 0x10_0000_0000_0000 + m * 0x2000_0000
    } else if m == 0 {
        0
    } else {
        let t = top_bit(m as nat);
        (t + 874) * 0x10_0000_0000_0000 + (m - pow2(t)) * pow2((52 - t) as nat)
    }
}

/// Where the widened pattern falls: below `k * 2^52` and from `(k - 1) *
/// 2^52` on, where `k` is the biased exponent after widening plus one.
spec fn widened_band(p: int) -> int {
    let e = p / 0x80_0000;
    let m = p % 0x80_0000;
    if e == 0xff {
        2048
    } else if e != 0 {
        e + 897
    } else if m == 0 {
        0
    } else {
        top_bit(m as nat) + 875int
    }
}

proof fn lemma_widened_bits(p: int)
    requires
        0 <= p <= 0x7f80_0000,
    ensures
        p > 0 ==> (widened_band(p) - 1) * 0x10_0000_0000_0000 <= widened_bits(p) < widened_band(p)
            * 0x10_0000_0000_0000,
        p == 0 ==> widened_bits(p) == 0 && widened_band(p) == 0,
        0 <= widened_bits(p) < 0x8000_0000_0000_0000,
        p / 0x80_0000 != 0 ==> widened_band(p) >= 898,
        p / 0x80_0000 == 0 ==> widened_band(p) <= 897,
        f64_of_f32(p as u32) as int == widened_bits(p),
        f64_of_f32((p + 0x8000_0000) as u32) as int == 0x8000_0000_0000_0000 + widened_bits(p),
{
    lemma2_to64();
    lemma2_to64_rest();
    let e = p / 0x80_0000;
    let m = p % 0x80_0000;
    assert(0 <= e <= 0xff && 0 <= m < 0x80_0000);
    assert(e == 0xff ==> m == 0);
    assert(((p + 0x8000_0000) / 0x80_0000) % 0x100 == e && (p + 0x8000_0000) % 0x80_0000 == m) by (nonlinear_arith)
        requires
            0 <= p <= 0x7f80_0000,
            e == p / 0x80_0000,
            m == p % 0x80_0000,
    ;
    assert((p / 0x80_0000) % 0x100 == e);
    if e != 0 && e != 0xff {
        assert(m * 0x2000_0000 < 0x10_0000_0000_0000);
    }
    if e == 0 && m != 0 {
        let t = top_bit(m as nat);
        lemma_top_bit(m as nat);
        if t > 22 {
            lemma_pow2_strictly_increases(23, t);
        }
        lemma_pow2_adds(t, (52 - t) as nat);
        let pt = pow2(t);
        let sh = pow2((52 - t) as nat);
        lemma_pow2_pos((52 - t) as nat);
        lemma_pow2_unfold(t + 1);
        assert(0 <= (m - pt) * sh < pt * sh) by (nonlinear_arith)
            requires
                0 <= m - pt < pt,
                sh > 0,
        ;
        assert(pt * sh == 0x10_0000_0000_0000);
    }
}

proof fn lemma_widened_bits_increase(p1: int, p2: int)
    requires
        0 <= p1 < p2 <= 0x7f80_0000,
    ensures
        widened_bits(p1) < widened_bits(p2),
{
    lemma_widened_bits(p1);
    lemma_widened_bits(p2);
    let e1 = p1 / 0x80_0000;
    let e2 = p2 / 0x80_0000;
    let m1 = p1 % 0x80_0000;
    let m2 = p2 % 0x80_0000;
    assert(e1 <= e2 && (e1 == e2 ==> m1 < m2)) by (nonlinear_arith)
        requires
            0 <= p1 < p2,
            e1 == p1 / 0x80_0000,
            e2 == p2 / 0x80_0000,
            m1 == p1 % 0x80_0000,
            m2 == p2 % 0x80_0000,
    ;
    if p1 > 0 {
        if widened_band(p1) < widened_band(p2) {
            assert(widened_band(p1) * 0x10_0000_0000_0000 <= (widened_band(p2) - 1) * 0x10_0000_0000_0000);
        } else if e1 == e2 && e1 != 0 {
            assert(m1 * 0x2000_0000 < m2 * 0x2000_0000);
        } else if e1 == 0 && e2 == 0 {
            let t1 = top_bit(m1 as nat);
            let t2 = top_bit(m2 as nat);
            lemma_top_bit(m1 as nat);
            lemma_top_bit(m2 as nat);
            if t1 > t2 {
                lemma_pow2_strictly_increases(t2 + 1, t1);
            } else if t1 == t2 {
                let sh = pow2((52 - t1) as nat);
                lemma_pow2_pos((52 - t1) as nat);
                assert((m1 - pow2(t1)) * sh < (m2 - pow2(t1)) * sh) by (nonlinear_arith)
                    requires
                        m1 < m2,
                        sh > 0,
                ;
            }
        } else {
            assert(e1 != 0 ==> e2 != 0);
        }
    }
}

/// Widening a 32 bit float that is not a NaN to 64 bits keeps its place
/// in the total order: a greater rank widens to a greater rank.
pub proof fn lemma_widen_rank_increases(x: u32, y: u32)
    requires
        !f32_is_nan(x),
        !f32_is_nan(y),
        f32_rank(x) < f32_rank(y),
    ensures
        f64_rank(f64_of_f32(x)) < f64_rank(f64_of_f32(y)),
{
    let px = (x % 0x8000_0000) as int;
    let py = (y % 0x8000_0000) as int;
    lemma_widened_bits(px);
    lemma_widened_bits(py);
    if x >= 0x8000_0000 {
        assert(x as int == px + 0x8000_0000);
    } else {
        assert(x as int == px);
    }
    if y >= 0x8000_0000 {
        assert(y as int == py + 0x8000_0000);
    } else {
        assert(y as int == py);
    }
    if x < 0x8000_0000 && y < 0x8000_0000 {
        lemma_widened_bits_increase(px, py);
    } else if x >= 0x8000_0000 && y >= 0x8000_0000 {
        lemma_widened_bits_increase(py, px);
    }
}

/// Converts the integer of magnitude `m`, negative when `neg` holds, to the
/// pattern of the nearest 64 bit float.
pub fn int_to_f64_bits(neg: bool, m: u64) -> (r: u64)
    ensures
        r == f64_of_int(neg, m as nat),
{
    if m == 0 {
        return 0;
    }
    let e = find_top_bit(m);
    let sign: u64 = if neg {
        0x8000_0000_0000_0000
    } else {
        0
    };
    proof {
        lemma2_to64();
        lemma2_to64_rest();
    }
    if e <= 52 {
        let pe = pow2_u64(e);
        let shift = pow2_u64(52 - e);
        proof {
            lemma_pow2_adds(e as nat, (52 - e) as nat);
            assert((e as nat + (52 - e) as nat) == 52);
            lemma_mul_strict_inequality((m - pe) as int, pe as int, shift as int);
        }
        let mantissa = (m - pe) * shift;
        sign + (e + 1023) * 0x10_0000_0000_0000 + mantissa
    } else {
        let k = e - 52;
        let p = pow2_u64(k);
        let h = pow2_u64(k - 1);
        proof {
            lemma_pow2_unfold(k as nat);
            lemma_pow2_adds(52, k as nat);
            lemma_pow2_adds(53, k as nat);
            assert(52 + k == e);
            lemma_pow2_unfold(e as nat + 1);
            lemma_div_is_ordered(pow2(e as nat) as int, m as int, p as int);
            lemma_div_by_multiple(pow2(52) as int, p as int);
            lemma_multiply_divide_lt(m as int, p as int, pow2(53) as int);
            assert(pow2(53) * p == p * pow2(53)) by (nonlinear_arith);
        }
        let q = m / p;
        let r = m % p;
        let q2 = if r > h || (r == h && q % 2 == 1) {
            q + 1
        } else {
            q
        };
        if q2 == 0x20_0000_0000_0000 {
            sign + (e + 1024) * 0x10_0000_0000_0000
        } else {
            sign + (e + 1023) * 0x10_0000_0000_0000 + (q2 - 0x10_0000_0000_0000)
        }
    }
}

/// The pattern of the 64 bit float equal to the 32 bit float `b`; a NaN
/// stays a NaN of the same sign and payload, made quiet.
pub open spec fn f64_of_f32(b: u32) -> u64 {
    let sign: int = if b >= 0x8000_0000 {
        0x8000_0000_0000_0000
    } else {
        0
    };
    let e = (b as int / 0x80_0000) % 0x100;
    let m = b as int % 0x80_0000;
    if e == 0xff {
        if m == 0 {
            (sign + 0x7ff0_0000_0000_0000) as u64
        } else {
            let quiet = if m >= 0x40_0000 {
                m
            } else {
                m + 0x40_0000
            };
            (sign + 0x7ff0_0000_0000_0000 + quiet * 0x2000_0000) as u64
        }
    } else if e != 0 {
        (sign + (e + 896) * 0x10_0000_0000_0000 + m * 0x2000_0000) as u64
    } else if m == 0 {
        sign as u64
    } else {
        let t = top_bit(m as nat);
        (sign + (t + 874) * 0x10_0000_0000_0000 + (m - pow2(t)) * pow2((52 - t) as nat)) as u64
    }
}

/// Widens the 32 bit float `b` to a 64 bit float, both by their patterns.
pub fn f32_to_f64_bits(b: u32) -> (r: u64)
    ensures
        r == f64_of_f32(b),
{
    let sign: u64 = if b >= 0x8000_0000 {
        0x8000_0000_0000_0000
    } else {
        0
    };
    let e: u64 = ((b / 0x80_0000) % 0x100) as u64;
    let m: u64 = (b % 0x80_0000) as u64;
    if e == 0xff {
        if m == 0 {
            sign + 0x7ff0_0000_0000_0000
        } else {
            let quiet = if m >= 0x40_0000 {
                m
            } else {
                m + 0x40_0000
            };
            sign + 0x7ff0_0000_0000_0000 + quiet * 0x2000_0000
        }
    } else if e != 0 {
        sign + (e + 896) * 0x10_0000_0000_0000 + m * 0x2000_0000
    } else if m == 0 {
        sign
    } else {
        let t = find_top_bit(m);
        proof {
            lemma2_to64();
            if t >= 23 {
                lemma_pow2_strictly_increases(23, t as nat);
            }
        }
        let pt = pow2_u64(t);
        let shift = pow2_u64(52 - t);
        proof {
            lemma_pow2_adds(t as nat, (52 - t) as nat);
            assert((t as nat + (52 - t) as nat) == 52);
            lemma_pow2_unfold(t as nat + 1);
            lemma_pow2_pos((52 - t) as nat);
            assert((m - pt) < pt);
            lemma_mul_strict_inequality((m - pt) as int, pt as int, shift as int);
            lemma2_to64_rest();
        }
        sign + (t + 874) * 0x10_0000_0000_0000 + (m - pt) * shift
    }
}

/// Compares two 64 bit floats by the total order of IEEE 754.
pub fn f64_total_order(x: u64, y: u64) -> (r: i8)
    ensures
        r == (if f64_rank(x) < f64_rank(y) {
            -1
        } else if f64_rank(x) == f64_rank(y) {
            0
        } else {
            1
        }),
{
    let xn = x >= 0x8000_0000_0000_0000;
    let yn = y >= 0x8000_0000_0000_0000;
    if xn && !yn {
        -1
    } else if !xn && yn {
        1
    } else if xn {
        if x > y {
            -1
        } else if x == y {
            0
        } else {
            1
        }
    } else {
        if x < y {
            -1
        } else if x == y {
            0
        } else {
            1
        }
    }
}

/// Compares two 32 bit floats by the total order of IEEE 754.
pub fn f32_total_order(x: u32, y: u32) -> (r: i8)
    ensures
        r == (if f32_rank(x) < f32_rank(y) {
            -1
        } else if f32_rank(x) == f32_rank(y) {
            0
        } else {
            1
        }),
{
    let xn = x >= 0x8000_0000;
    let yn = y >= 0x8000_0000;
    if xn && !yn {
        -1
    } else if !xn && yn {
        1
    } else if xn {
        if x > y {
            -1
        } else if x == y {
            0
        } else {
            1
        }
    } else {
        if x < y {
            -1
        } else if x == y {
            0
        } else {
            1
        }
    }
}

/// The 32 bit float is not a number.
pub open spec fn f32_is_nan(b: u32) -> bool {
    b % 0x8000_0000 > 0x7f80_0000
}

/// The 32 bit float is zero, of either sign.
pub open spec fn f32_is_zero(b: u32) -> bool {
    b % 0x8000_0000 == 0
}

/// The two 32 bit floats are equal as numbers (`==` of IEEE 754): neither
/// is not a number, and they are the same float or both zero.
pub open spec fn f32_equal(x: u32, y: u32) -> bool {
    !f32_is_nan(x) && !f32_is_nan(y) && (x == y || (f32_is_zero(x) && f32_is_zero(y)))
}

/// How two 32 bit floats compare as numbers (-1, 0 or 1), where whatever is
/// not a number comes before every number.
pub open spec fn f32_value_order(x: u32, y: u32) -> int {
    if f32_is_nan(x) && f32_is_nan(y) {
        0
    } else if f32_is_nan(x) {
        -1
    } else if f32_is_nan(y) {
        1
    } else if f32_is_zero(x) && f32_is_zero(y) {
        0
    } else if f32_rank(x) < f32_rank(y) {
        -1
    } else if f32_rank(x) == f32_rank(y) {
        0
    } else {
        1
    }
}

pub fn f32_nan(b: u32) -> (r: bool)
    ensures
        r == f32_is_nan(b),
{
    b % 0x8000_0000 > 0x7f80_0000
}

pub fn f32_zero(b: u32) -> (r: bool)
    ensures
        r == f32_is_zero(b),
{
    b % 0x8000_0000 == 0
}

/// Whether two 32 bit floats are equal as numbers.
pub fn f32_eq(x: u32, y: u32) -> (r: bool)
    ensures
        r == f32_equal(x, y),
{
    !f32_nan(x) && !f32_nan(y) && (x == y || (f32_zero(x) && f32_zero(y)))
}

/// Compares two 32 bit floats as numbers, what is not a number first.
pub fn f32_value_compare(x: u32, y: u32) -> (r: i8)
    ensures
        r == f32_value_order(x, y),
{
    let xn = f32_nan(x);
    let yn = f32_nan(y);
    if xn && yn {
        0
    } else if xn {
        -1
    } else if yn {
        1
    } else if f32_zero(x) && f32_zero(y) {
        0
    } else {
        f32_total_order(x, y)
    }
}

/// The 32 bit float is below zero (`< 0.0` of IEEE 754).
pub open spec fn f32_below_zero(b: u32) -> bool {
    !f32_is_nan(b) && !f32_is_zero(b) && b >= 0x8000_0000
}

/// The first 32 bit float is at most the second (`<=` of IEEE 754).
pub open spec fn f32_le(x: u32, y: u32) -> bool {
    !f32_is_nan(x) && !f32_is_nan(y) && f32_value_order(x, y) <= 0
}

pub fn f32_negative(b: u32) -> (r: bool)
    ensures
        r == f32_below_zero(b),
{
    !f32_nan(b) && !f32_zero(b) && b >= 0x8000_0000
}

pub fn f32_at_most(x: u32, y: u32) -> (r: bool)
    ensures
        r == f32_le(x, y),
{
    !f32_nan(x) && !f32_nan(y) && f32_value_compare(x, y) <= 0
}


/// The magnitude of the finite 32 bit float `b`, truncated toward zero.
pub open spec fn f32_truncated(b: u32) -> nat {
    let e = (b as int / 0x80_0000) % 0x100;
    let m = b as int % 0x80_0000;
    if e < 127 {
        0
    } else if e >= 150 {
        ((m + 0x80_0000) * pow2((e - 150) as nat)) as nat
    } else {
        ((m + 0x80_0000) / (pow2((150 - e) as nat) as int)) as nat
    }
}

/// The integer that `as` makes of the 32 bit float `b` for an integer type
/// whose values run from `lo` to `hi`: zero for a NaN, otherwise the float
/// truncated toward zero and held within the bounds.
pub open spec fn f32_as_int(b: u32, lo: int, hi: int) -> int {
    let e = (b as int / 0x80_0000) % 0x100;
    let m = b as int % 0x80_0000;
    let neg = b >= 0x8000_0000;
    if e == 0xff && m != 0 {
        0
    } else if e == 0xff {
        if neg {
            lo
        } else {
            hi
        }
    } else {
        let v: int = if neg {
            -(f32_truncated(b) as int)
        } else {
            f32_truncated(b) as int
        };
        if v < lo {
            lo
        } else if v > hi {
            hi
        } else {
            v
        }
    }
}

/// Converts the 32 bit float `b` to an integer of a type whose values run
/// from `lo` to `hi`, as `as` does.
pub fn f32_to_int(b: u32, lo: i128, hi: i128) -> (r: i128)
    requires
        i64::MIN <= lo <= 0 <= hi <= u64::MAX,
    ensures
        r == f32_as_int(b, lo as int, hi as int),
        lo <= r <= hi,
{
    let e: u64 = ((b / 0x80_0000) % 0x100) as u64;
    let m: u64 = (b % 0x80_0000) as u64;
    let neg = b >= 0x8000_0000;
    if e == 0xff {
        if m != 0 {
            return 0;
        }
        return if neg {
            lo
        } else {
            hi
        };
    }
    if e < 127 {
        return 0;
    }
    let sig: u64 = m + 0x80_0000;
    proof {
        lemma2_to64();
        lemma2_to64_rest();
    }
    if e >= 191 {
        proof {
            let k = (e - 150) as nat;
            if k > 41 {
                lemma_pow2_strictly_increases(41, k);
            }
            lemma_pow2_adds(23, 41);
            let p = pow2(k);
            assert(sig * p >= 0x80_0000 * 0x200_0000_0000) by (nonlinear_arith)
                requires
                    sig >= 0x80_0000,
                    p >= 0x200_0000_0000,
            ;
        }
        return if neg {
            lo
        } else {
            hi
        };
    }
    let mag: i128 = if e >= 150 {
        let p = pow2_u64(e - 150);
        proof {
            if e - 150 < 40 {
                lemma_pow2_strictly_increases((e - 150) as nat, 40);
            }
            assert(sig * p <= 0x100_0000 * 0x100_0000_0000) by (nonlinear_arith)
                requires
                    sig <= 0x100_0000,
                    p <= 0x100_0000_0000,
            ;
        }
        (sig as i128) * (p as i128)
    } else {
        let p = pow2_u64(150 - e);
        proof {
            lemma_pow2_pos((150 - e) as nat);
        }
        (sig / p) as i128
    };
    assert(mag == f32_truncated(b));
    let v = if neg {
        -mag
    } else {
        mag
    };
    if v < lo {
        lo
    } else if v > hi {
        hi
    } else {
        v
    }
}

} // verus!
