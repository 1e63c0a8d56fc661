//! Decimal integers as `str::parse` reads them: an optional sign, then one
//! or more ASCII digits, with a value that fits the target type.

use vstd::prelude::*;
use crate::text::chars_of;

verus! {

/// An ASCII decimal digit.
pub open spec fn is_digit(c: char) -> bool {
    '0' <= c <= '9'
}

/// Every character of `s` is an ASCII decimal digit.
pub open spec fn all_digits(s: Seq<char>) -> bool {
    forall|i: int| 0 <= i < s.len() ==> is_digit(#[trigger] s[i])
}

/// The number written by the digits `s` (most significant first).
pub open spec fn digits_value(s: Seq<char>) -> int
    decreases s.len(),
{
    if s.len() == 0 {
        0
    } else {
        digits_value(s.drop_last()) * 10 + (s.last() as int - '0' as int)
    }
}

/// The number a decimal literal denotes: an optional `+` (or `-` where
/// `signed`), then at least one digit. `None` for anything else.
pub open spec fn decimal_spec(s: Seq<char>, signed: bool) -> Option<int> {
    if s.len() > 0 && (s[0] == '+' || (signed && s[0] == '-')) {
        let d = s.drop_first();
        if d.len() > 0 && all_digits(d) {
            if s[0] == '-' {
                Some(-digits_value(d))
            } else {
                Some(digits_value(d))
            }
        } else {
            None
        }
    } else if s.len() > 0 && all_digits(s) {
        Some(digits_value(s))
    } else {
        None
    }
}

/// What `s.parse::<i64>()` gives: the value when `s` is a decimal literal
/// within the range of `i64`.
pub open spec fn parse_i64_spec(s: Seq<char>) -> Option<i64> {
    match decimal_spec(s, true) {
        Some(v) => if i64::MIN <= v <= i64::MAX {
            Some(v as i64)
        } else {
            None
        },
        None => None,
    }
}

/// What `s.parse::<u16>()` gives: the value when `s` is an unsigned decimal
/// literal within the range of `u16`.
pub open spec fn parse_u16_spec(s: Seq<char>) -> Option<u16> {
    match decimal_spec(s, false) {
        Some(v) => if 0 <= v <= u16::MAX {
            Some(v as u16)
        } else {
            None
        },
        None => None,
    }
}

proof fn lemma_digits_value_nonneg(s: Seq<char>)
    requires
        all_digits(s),
    ensures
        digits_value(s) >= 0,
    decreases s.len(),
{
    if s.len() > 0 {
        lemma_digits_value_nonneg(s.drop_last());
    }
}

/// Adding digits never makes a number smaller.
proof fn lemma_digits_value_prefix(s: Seq<char>, k: int)
    requires
        all_digits(s),
        0 <= k <= s.len(),
    ensures
        digits_value(s.take(k)) <= digits_value(s),
    decreases s.len() - k,
{
    if k < s.len() {
        lemma_digits_value_prefix(s, k + 1);
        assert(s.take(k + 1).drop_last() =~= s.take(k));
        lemma_digits_value_nonneg(s.take(k));
    } else {
        assert(s.take(k) =~= s);
    }
}

/// The value of the digits `cs[from..]` when they are all digits, there is
/// at least one, and the value fits in a `u64`; `None` otherwise.
fn digits_to_u64(cs: &Vec<char>, from: usize) -> (r: Option<u64>)
    requires
        from <= cs.len(),
    ensures
        ({
            let d = cs@.subrange(from as int, cs.len() as int);
            match r {
                Some(v) => d.len() > 0 && all_digits(d) && v == digits_value(d),
                None => !(d.len() > 0 && all_digits(d) && digits_value(d) <= u64::MAX),
            }
        }),
{
    let ghost d = cs@.subrange(from as int, cs.len() as int);
    if from == cs.len() {
        return None;
    }
    let mut acc: u128 = 0;
    let mut i: usize = from;
    while i < cs.len()
        invariant
            from <= i <= cs.len(),
            d == cs@.subrange(from as int, cs.len() as int),
            all_digits(d.take(i - from)),
            acc == digits_value(d.take(i - from)),
            acc <= u64::MAX,
        decreases cs.len() - i,
    {
        let c = cs[i];
        assert(d[i - from] == c);
        if !('0' <= c && c <= '9') {
            assert(!all_digits(d));
            return None;
        }
        let digit = (c as u32 - '0' as u32) as u128;
        assert(d.take(i - from + 1).drop_last() =~= d.take(i - from));
        acc = acc * 10 + digit;
        i = i + 1;
        assert(all_digits(d.take(i - from)));
        if acc > u64::MAX as u128 {
            proof {
                if all_digits(d) {
                    lemma_digits_value_prefix(d, i - from);
                }
            }
            return None;
        }
    }
    assert(d.take(i - from) =~= d);
    Some(acc as u64)
}

/// Reads a decimal `i64` the way `str::parse::<i64>` does: `None` for an
/// empty string, a bare sign, any other character, or a value out of range.
pub fn parse_i64(s: &str) -> (r: Option<i64>)
    ensures
        r == parse_i64_spec(s@),
{
    let cs = chars_of(s);
    if cs.len() == 0 {
        return None;
    }
    let negative = cs[0] == '-';
    let from: usize = if cs[0] == '+' || cs[0] == '-' { 1 } else { 0 };
    proof {
        if from == 1 {
            assert(cs@.subrange(1, cs.len() as int) =~= cs@.drop_first());
        } else {
            assert(cs@.subrange(0, cs.len() as int) =~= cs@);
        }
    }
    match digits_to_u64(&cs, from) {
        None => None,
        Some(m) => {
            if negative {
                if m <= 9223372036854775808u64 {
                    if m == 9223372036854775808u64 {
                        Some(i64::MIN)
                    } else {
                        Some(-(m as i64))
                    }
                } else {
                    None
                }
            } else if m <= i64::MAX as u64 {
                Some(m as i64)
            } else {
                None
            }
        },
    }
}

/// Reads a decimal `u16` the way `str::parse::<u16>` does: `None` for an
/// empty string, a bare `+`, a `-`, any other character, or a value above
/// `u16::MAX`.
pub fn parse_u16(s: &str) -> (r: Option<u16>)
    ensures
        r == parse_u16_spec(s@),
{
    let cs = chars_of(s);
    if cs.len() == 0 {
        return None;
    }
    let from: usize = if cs[0] == '+' { 1 } else { 0 };
    proof {
        if from == 1 {
            assert(cs@.subrange(1, cs.len() as int) =~= cs@.drop_first());
        } else {
            assert(cs@.subrange(0, cs.len() as int) =~= cs@);
            if cs@[0] == '-' {
                assert(!is_digit(cs@[0]));
            }
        }
    }
    match digits_to_u64(&cs, from) {
        None => None,
        Some(m) => if m <= 65535 {
            Some(m as u16)
        } else {
            None
        },
    }
}

/// `s.parse::<i64>().unwrap_or(0)`: the number, or 0 when `s` is not one.
pub fn parse_i64_or_zero(s: &str) -> (r: i64)
    ensures
        r == match parse_i64_spec(s@) {
            Some(v) => v,
            None => 0,
        },
{
    match parse_i64(s) {
        Some(v) => v,
        None => 0,
    }
}

/// Reading digits gives the number they denote, whatever their count:
/// a run of ASCII digits whose value `v` fits reads as `v`, with a `+` in
/// front as `v`, with a `-` in front as `-v`; and one more digit `c` at the
/// end turns `v` into `10 * v + c`.
pub proof fn law_digits_read_as_their_value(d: Seq<char>, c: char)
    requires
        d.len() > 0,
        all_digits(d),
    ensures
        digits_value(d) <= i64::MAX ==> parse_i64_spec(d) == Some(digits_value(d) as i64),
        digits_value(d) <= i64::MAX ==> parse_i64_spec(seq!['+'] + d) == Some(
            digits_value(d) as i64,
        ),
        digits_value(d) <= i64::MAX + 1 ==> parse_i64_spec(seq!['-'] + d) == Some(
            (-digits_value(d)) as i64,
        ),
        digits_value(d) <= u16::MAX ==> parse_u16_spec(d) == Some(digits_value(d) as u16),
        is_digit(c) ==> digits_value(d.push(c)) == 10 * digits_value(d) + (c as int - '0' as int),
        is_digit(c) && 10 * digits_value(d) + (c as int - '0' as int) <= i64::MAX ==> parse_i64_spec(
            d.push(c),
        ) == Some((10 * digits_value(d) + (c as int - '0' as int)) as i64),
{
    assert(is_digit(d[0]));
    assert((seq!['+'] + d).drop_first() =~= d);
    assert((seq!['-'] + d).drop_first() =~= d);
    assert((seq!['+'] + d)[0] == '+');
    assert((seq!['-'] + d)[0] == '-');
    lemma_digits_value_nonneg(d);
    if is_digit(c) {
        let e = d.push(c);
        assert(e.drop_last() =~= d);
        assert(is_digit(e[0]));
        assert(all_digits(e)) by {
            assert forall|k: int| 0 <= k < e.len() implies is_digit(#[trigger] e[k]) by {
                if k < d.len() {
                    assert(e[k] == d[k]);
                }
            }
        }
    }
}

} // verus!
