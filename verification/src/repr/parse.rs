//! Readers for the textual forms of integers and booleans.
//!
//! These follow the grammar of the standard library's `FromStr` for the
//! integer types and `bool`: an integer is an optional sign (a `-` only for
//! signed types) followed by one or more ASCII digits whose value fits the
//! type; a boolean is exactly `true` or `false`.
use vstd::prelude::*;

verus! {

broadcast use vstd::string::is_ascii_spec_bytes;

pub open spec fn is_digit(c: char) -> bool {
    '0' <= c && c <= '9'
}

pub open spec fn all_digits(s: Seq<char>) -> bool {
    forall|i: int| 0 <= i < s.len() ==> #[trigger] is_digit(s[i])
}

/// The value of a run of decimal digits.
pub open spec fn digits_value(s: Seq<char>) -> int
    decreases s.len(),
{
    if s.len() == 0 {
        0
    } else {
        10 * digits_value(s.drop_last()) + (s.last() as int - '0' as int)
    }
}

/// The magnitude spelled by a non-empty run of digits.
pub open spec fn magnitude(s: Seq<char>) -> Option<int> {
    if s.len() > 0 && all_digits(s) {
        Some(digits_value(s))
    } else {
        None
    }
}

/// The integer spelled by `s`: an optional sign, then digits. A leading
/// `-` is only understood when `signed` holds.
pub open spec fn int_value(s: Seq<char>, signed: bool) -> Option<int> {
    if s.len() > 0 && s[0] == '-' && signed {
        match magnitude(s.skip(1)) {
            Some(m) => Some(-m),
            None => None,
        }
    } else if s.len() > 0 && s[0] == '+' {
        magnitude(s.skip(1))
    } else {
        magnitude(s)
    }
}

/// The integer spelled by `s` if it lies within `[min, max]`.
pub open spec fn int_in_range(s: Seq<char>, signed: bool, min: int, max: int) -> Option<int> {
    match int_value(s, signed) {
        Some(v) => if min <= v && v <= max {
            Some(v)
        } else {
            None
        },
        None => None,
    }
}

pub open spec fn spec_read_i32(s: Seq<char>) -> Option<i32> {
    match int_in_range(s, true, i32::MIN as int, i32::MAX as int) {
        Some(v) => Some(v as i32),
        None => None,
    }
}

pub open spec fn spec_read_u32(s: Seq<char>) -> Option<u32> {
    match int_in_range(s, false, 0, u32::MAX as int) {
        Some(v) => Some(v as u32),
        None => None,
    }
}

pub open spec fn spec_read_isize(s: Seq<char>) -> Option<isize> {
    match int_in_range(s, true, isize::MIN as int, isize::MAX as int) {
        Some(v) => Some(v as isize),
        None => None,
    }
}

pub open spec fn spec_read_usize(s: Seq<char>) -> Option<usize> {
    match int_in_range(s, false, 0, usize::MAX as int) {
        Some(v) => Some(v as usize),
        None => None,
    }
}

/// `true` and `false` are the only spellings of a boolean.
pub open spec fn spec_read_bool(s: Seq<char>) -> Option<bool> {
    if s == seq!['t', 'r', 'u', 'e'] {
        Some(true)
    } else if s == seq!['f', 'a', 'l', 's', 'e'] {
        Some(false)
    } else {
        None
    }
}

proof fn lemma_digits_value_nonneg(s: Seq<char>)
    requires
        all_digits(s),
    ensures
        digits_value(s) >= 0,
    decreases s.len(),
{
    if s.len() > 0 {
        assert(all_digits(s.drop_last())) by {
            assert forall|i: int| 0 <= i < s.drop_last().len() implies #[trigger] is_digit(
                s.drop_last()[i],
            ) by {
                assert(is_digit(s[i]));
            }
        }
        lemma_digits_value_nonneg(s.drop_last());
        assert(is_digit(s[s.len() - 1]));
    }
}

proof fn lemma_digits_prefix(s: Seq<char>, i: int)
    requires
        all_digits(s),
        0 <= i <= s.len(),
    ensures
        digits_value(s.take(i)) <= digits_value(s),
    decreases s.len() - i,
{
    if i < s.len() {
        lemma_digits_prefix(s, i + 1);
        let t = s.take(i + 1);
        assert(t.drop_last() =~= s.take(i));
        assert(all_digits(s.take(i))) by {
            assert forall|j: int| 0 <= j < s.take(i).len() implies #[trigger] is_digit(
                s.take(i)[j],
            ) by {
                assert(is_digit(s[j]));
            }
        }
        lemma_digits_value_nonneg(s.take(i));
        assert(is_digit(s[i]));
    } else {
        assert(s.take(i) =~= s);
    }
}

/// Reads a decimal integer that must lie within `[min, max]`.
fn read_integer(s: &str, signed: bool, min: i128, max: i128) -> (r: Option<i128>)
    requires
        min <= 0 <= max,
        max <= u64::MAX,
        -min <= u64::MAX,
    ensures
        r == (match int_in_range(s@, signed, min as int, max as int) {
            Some(v) => Some(v as i128),
            None => None::<i128>,
        }),
{
    if !s.is_ascii() {
        proof {
            let k = choose|k: int| 0 <= k < s@.len() && !('\0' <= #[trigger] s@[k] <= '\u{7f}');
            assert(!is_digit(s@[k]));
            if s@.len() > 0 && (s@[0] == '-' || s@[0] == '+') {
                assert(k != 0);
                assert(s@.skip(1)[k - 1] == s@[k]);
            }
        }
        return None;
    }
    let bytes = s.as_bytes();
    let n = bytes.len();
    proof {
        vstd::utf8::is_ascii_chars_encode_utf8(s@);
    }
    assert(n == s@.len());
    assert forall|j: int| 0 <= j < n implies #[trigger] bytes@[j] as int == s@[j] as int by {
        assert(bytes@[j] == s@[j] as u8);
        assert('\0' <= s@[j] <= '\u{7f}');
    }
    let mut start: usize = 0;
    let mut negative = false;
    if n > 0 && bytes[0] == 45u8 && signed {
        start = 1;
        negative = true;
        assert(s@[0] == '-');
    } else if n > 0 && bytes[0] == 43u8 {
        start = 1;
        assert(s@[0] == '+');
    }
    let ghost body = s@.skip(start as int);
    proof {
        if !(n > 0 && bytes[0] == 45u8 && signed) && !(n > 0 && bytes[0] == 43u8) {
            assert(!(s@.len() > 0 && s@[0] == '-' && signed));
            assert(!(s@.len() > 0 && s@[0] == '+'));
            assert(body =~= s@);
        }
        if n > 0 && bytes[0] == 45u8 && signed {
            assert(s@[0] == '-');
        }
        assert(int_value(s@, signed) == if negative {
            match magnitude(body) {
                Some(m) => Some(-m),
                None => None,
            }
        } else {
            magnitude(body)
        });
    }
    if start == n {
        return None;
    }
    let bound: i128 = if negative {
        -min
    } else {
        max
    };
    let mut acc: i128 = 0;
    let mut i: usize = start;
    while i < n
        invariant
            start <= i <= n,
            n == s@.len(),
            bytes@.len() == n,
            forall|j: int| 0 <= j < n ==> #[trigger] bytes@[j] as int == s@[j] as int,
            body == s@.skip(start as int),
            all_digits(body.take(i - start)),
            acc == digits_value(body.take(i - start)),
            0 <= acc <= bound,
            0 <= bound <= u64::MAX,
            min <= 0 <= max,
            bound == (if negative { -min } else { max as int }),
            int_value(s@, signed) == (if negative {
                match magnitude(body) {
                    Some(m) => Some(-m),
                    None => None,
                }
            } else {
                magnitude(body)
            }),
        decreases n - i,
    {
        let b = bytes[i];
        if b < 48u8 || b > 57u8 {
            proof {
                assert(body[i - start] == s@[i as int]);
                assert(!is_digit(body[i - start]));
            }
            return None;
        }
        proof {
            assert(body[i - start] == s@[i as int]);
            assert(bytes@[i as int] as int == s@[i as int] as int);
            assert(is_digit(s@[i as int]));
            let t = body.take(i - start + 1);
            assert(t.drop_last() =~= body.take(i - start));
            assert(t.last() == s@[i as int]);
            assert(all_digits(t)) by {
                assert forall|j: int| 0 <= j < t.len() implies #[trigger] is_digit(t[j]) by {
                    if j < t.len() - 1 {
                        assert(t[j] == body.take(i - start)[j]);
                    }
                }
            }
        }
        acc = acc * 10 + (b - 48u8) as i128;
        i = i + 1;
        if acc > bound {
            // Any further digits only make the value larger.
            assert forall|k: int| 0 <= k < i - start implies #[trigger] is_digit(body[k]) by {
                assert(body.take(i - start)[k] == body[k]);
            }
            let mut j = i;
            while j < n
                invariant
                    i <= j <= n,
                    n == s@.len(),
                    bytes@.len() == n,
                    forall|k: int| 0 <= k < n ==> #[trigger] bytes@[k] as int == s@[k] as int,
                    body == s@.skip(start as int),
                    start <= i,
                    forall|k: int| 0 <= k < j - start ==> #[trigger] is_digit(body[k]),
                    body.len() == n - start,
                    acc == digits_value(body.take(i - start)),
                    acc > bound,
                    min <= 0 <= max,
                    bound == (if negative { -min } else { max as int }),
                    int_value(s@, signed) == (if negative {
                        match magnitude(body) {
                            Some(m) => Some(-m),
                            None => None,
                        }
                    } else {
                        magnitude(body)
                    }),
                decreases n - j,
            {
                if bytes[j] < 48u8 || bytes[j] > 57u8 {
                    proof {
                        assert(body[j - start] == s@[j as int]);
                        assert(bytes@[j as int] as int == s@[j as int] as int);
                        assert(!is_digit(body[j - start]));
                        assert(!all_digits(body));
                    }
                    return None;
                }
                assert(body[j - start] == s@[j as int]);
                assert(bytes@[j as int] as int == s@[j as int] as int);
                assert(is_digit(body[j - start]));
                j = j + 1;
            }
            proof {
                assert(all_digits(body));
                lemma_digits_prefix(body, i - start);
            }
            return None;
        }
    }
    proof {
        assert(body.take(n - start) =~= body);
    }
    if negative {
        Some(-acc)
    } else {
        Some(acc)
    }
}

/// Reads an `i32` the way `str::parse::<i32>` does.
pub fn read_i32(s: &str) -> (r: Option<i32>)
    ensures
        r == spec_read_i32(s@),
{
    match read_integer(s, true, i32::MIN as i128, i32::MAX as i128) {
        Some(v) => Some(v as i32),
        None => None,
    }
}

/// Reads a `u32` the way `str::parse::<u32>` does.
pub fn read_u32(s: &str) -> (r: Option<u32>)
    ensures
        r == spec_read_u32(s@),
{
    match read_integer(s, false, 0, u32::MAX as i128) {
        Some(v) => Some(v as u32),
        None => None,
    }
}

/// Reads an `isize` the way `str::parse::<isize>` does.
pub fn read_isize(s: &str) -> (r: Option<isize>)
    ensures
        r == spec_read_isize(s@),
{
    match read_integer(s, true, isize::MIN as i128, isize::MAX as i128) {
        Some(v) => Some(v as isize),
        None => None,
    }
}

/// Reads a `usize` the way `str::parse::<usize>` does.
pub fn read_usize(s: &str) -> (r: Option<usize>)
    ensures
        r == spec_read_usize(s@),
{
    match read_integer(s, false, 0, usize::MAX as i128) {
        Some(v) => Some(v as usize),
        None => None,
    }
}

/// Reads a `bool` the way `str::parse::<bool>` does.
pub fn read_bool(s: &str) -> (r: Option<bool>)
    ensures
        r == spec_read_bool(s@),
{
    if !s.is_ascii() {
        proof {
            let k = choose|k: int| 0 <= k < s@.len() && !('\0' <= #[trigger] s@[k] <= '\u{7f}');
            if s@ == seq!['t', 'r', 'u', 'e'] {
                assert(s@[k] == seq!['t', 'r', 'u', 'e'][k]);
            }
            if s@ == seq!['f', 'a', 'l', 's', 'e'] {
                assert(s@[k] == seq!['f', 'a', 'l', 's', 'e'][k]);
            }
        }
        return None;
    }
    let b = s.as_bytes();
    proof {
        vstd::utf8::is_ascii_chars_encode_utf8(s@);
    }
    let n = b.len();
    if n == 4 && b[0] == 116u8 && b[1] == 114u8 && b[2] == 117u8 && b[3] == 101u8 {
        proof {
            assert(s@[0] as u8 == 116u8);
            assert(s@ =~= seq!['t', 'r', 'u', 'e']);
        }
        Some(true)
    } else if n == 5 && b[0] == 102u8 && b[1] == 97u8 && b[2] == 108u8 && b[3] == 115u8 && b[4]
        == 101u8 {
        proof {
            assert(s@ =~= seq!['f', 'a', 'l', 's', 'e']);
        }
        Some(false)
    } else {
        proof {
            if s@ == seq!['t', 'r', 'u', 'e'] {
                assert(b@[0] == s@[0] as u8);
                assert(b@[1] == s@[1] as u8);
                assert(b@[2] == s@[2] as u8);
                assert(b@[3] == s@[3] as u8);
            }
            if s@ == seq!['f', 'a', 'l', 's', 'e'] {
                assert(b@[0] == s@[0] as u8);
                assert(b@[1] == s@[1] as u8);
                assert(b@[2] == s@[2] as u8);
                assert(b@[3] == s@[3] as u8);
                assert(b@[4] == s@[4] as u8);
            }
        }
        None
    }
}

} // verus!
