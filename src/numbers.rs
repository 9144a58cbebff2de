//! Parsing of signed decimal integers and fixed-point decimal numbers from
//! column text.

use vstd::prelude::*;

verus! {

/// The largest magnitude of the scaled integer that a decimal number may have.
pub const DECIMAL_UNITS_MAX: u64 = 999_999_999_999_999_999;

pub open spec fn spec_is_digit(c: char) -> bool {
    '0' <= c <= '9'
}

pub open spec fn spec_digit_value(c: char) -> int {
    c as int - '0' as int
}

pub open spec fn spec_all_digits(s: Seq<char>) -> bool {
    forall|i: int| 0 <= i < s.len() ==> spec_is_digit(#[trigger] s[i])
}

/// The value of a run of decimal digits, most significant first.
pub open spec fn spec_digits_value(s: Seq<char>) -> int
    decreases s.len(),
{
    if s.len() == 0 {
        0
    } else {
        spec_digits_value(s.drop_last()) * 10 + spec_digit_value(s.last())
    }
}

/// Whether the text starts with a `-` sign.
pub open spec fn spec_is_negative(s: Seq<char>) -> bool {
    s.len() > 0 && s[0] == '-'
}

/// The text after an optional leading `+` or `-` sign.
pub open spec fn spec_unsigned_part(s: Seq<char>) -> Seq<char> {
    if s.len() > 0 && (s[0] == '-' || s[0] == '+') {
        s.drop_first()
    } else {
        s
    }
}

pub open spec fn spec_signed(negative: bool, v: int) -> int {
    if negative { -v } else { v }
}

/// The integer that the text denotes: an optional sign followed by one or more
/// digits, within the range of `i32`.
pub open spec fn spec_parse_int(s: Seq<char>) -> Option<int> {
    let body = spec_unsigned_part(s);
    let v = spec_signed(spec_is_negative(s), spec_digits_value(body));
    if body.len() > 0 && spec_all_digits(body) && i32::MIN <= v <= i32::MAX {
        Some(v)
    } else {
        None
    }
}

/// Index of the first character that is not a digit, or the length.
pub open spec fn spec_first_non_digit(s: Seq<char>) -> int
    decreases s.len(),
{
    if s.len() == 0 || !spec_is_digit(s[0]) {
        0
    } else {
        1 + spec_first_non_digit(s.drop_first())
    }
}

/// A fixed-point number: `units / 10^scale`.
#[derive(Clone, Copy, Debug, PartialEq, Eq, Structural)]
pub struct Decimal {
    pub units: i64,
    pub scale: usize,
}

/// The digits of an unsigned decimal body with its point removed, and the
/// number of digits after the point, where the body is well formed: digits,
/// optionally one `.` followed by digits, with at least one digit overall.
pub open spec fn spec_decimal_digits(body: Seq<char>) -> Option<(Seq<char>, nat)> {
    let k = spec_first_non_digit(body);
    if body.len() == 0 {
        None
    } else if k == body.len() {
        Some((body, 0))
    } else if body[k] == '.' && body.len() > 1 && spec_all_digits(body.subrange(k + 1, body.len() as int)) {
        Some((body.take(k) + body.subrange(k + 1, body.len() as int), (body.len() - k - 1) as nat))
    } else {
        None
    }
}

/// The decimal number that the text denotes: an optional sign, then digits with
/// at most one decimal point, with at least one digit, and a scaled magnitude no
/// greater than `DECIMAL_UNITS_MAX`.
pub open spec fn spec_parse_decimal(s: Seq<char>) -> Option<Decimal> {
    match spec_decimal_digits(spec_unsigned_part(s)) {
        Some((digits, scale)) => {
            let v = spec_digits_value(digits);
            if v <= DECIMAL_UNITS_MAX {
                Some(Decimal { units: spec_signed(spec_is_negative(s), v) as i64, scale: scale as usize })
            } else {
                None
            }
        },
        None => None,
    }
}

proof fn lemma_digits_value_nonneg(s: Seq<char>)
    requires
        spec_all_digits(s),
    ensures
        spec_digits_value(s) >= 0,
    decreases s.len(),
{
    if s.len() > 0 {
        lemma_digits_value_nonneg(s.drop_last());
    }
}

/// A prefix of a digit run never has a greater value than the whole run.
proof fn lemma_digits_value_prefix_le(s: Seq<char>, k: int)
    requires
        spec_all_digits(s),
        0 <= k <= s.len(),
    ensures
        spec_digits_value(s.take(k)) <= spec_digits_value(s),
    decreases s.len(),
{
    if k < s.len() {
        let p = s.drop_last();
        lemma_digits_value_prefix_le(p, k);
        lemma_digits_value_nonneg(p);
        assert(p.take(k) =~= s.take(k));
    } else {
        assert(s.take(k) =~= s);
    }
}

proof fn lemma_first_non_digit(s: Seq<char>, k: int)
    requires
        0 <= k <= s.len(),
        spec_all_digits(s.take(k)),
        k == s.len() || !spec_is_digit(s[k]),
    ensures
        spec_first_non_digit(s) == k,
    decreases k,
{
    if k > 0 {
        assert(spec_is_digit(s.take(k)[0]));
        let t = s.drop_first();
        assert forall|i: int| 0 <= i < k - 1 implies spec_is_digit(#[trigger] t.take(k - 1)[i]) by {
            assert(s.take(k)[i + 1] == t.take(k - 1)[i]);
        }
        lemma_first_non_digit(t, k - 1);
    }
}

/// The value of the digits `s[lo..]`, where they are all digits and the value
/// is at most `cap`.
fn digits_value_capped(s: &Vec<char>, lo: usize, cap: u64) -> (r: Option<u64>)
    requires
        lo <= s@.len(),
        cap <= DECIMAL_UNITS_MAX,
    ensures
        ({
            let d = s@.subrange(lo as int, s@.len() as int);
            match r {
                Some(v) => spec_all_digits(d) && v as int == spec_digits_value(d) && v <= cap,
                None => !spec_all_digits(d) || spec_digits_value(d) > cap,
            }
        }),
{
    let ghost d = s@.subrange(lo as int, s@.len() as int);
    let mut acc: u64 = 0;
    let mut i = lo;
    while i < s.len()
        invariant
            lo <= i <= s@.len(),
            cap <= DECIMAL_UNITS_MAX,
            d == s@.subrange(lo as int, s@.len() as int),
            spec_all_digits(s@.subrange(lo as int, i as int)),
            acc as int == spec_digits_value(s@.subrange(lo as int, i as int)),
            acc <= cap,
        decreases s@.len() - i,
    {
        let c = s[i];
        if !('0' <= c && c <= '9') {
            assert(d[i - lo] == c);
            return None;
        }
        let ghost p = s@.subrange(lo as int, i + 1);
        assert(p.drop_last() =~= s@.subrange(lo as int, i as int));
        let dv = (c as u64) - ('0' as u64);
        acc = acc * 10 + dv;
        i = i + 1;
        assert(spec_all_digits(p)) by {
            assert forall|j: int| 0 <= j < p.len() implies spec_is_digit(#[trigger] p[j]) by {
                if j < p.len() - 1 {
                    assert(p[j] == s@.subrange(lo as int, i - 1)[j]);
                }
            }
        }
        if acc > cap {
            proof {
                if spec_all_digits(d) {
                    lemma_digits_value_prefix_le(d, i - lo);
                    assert(d.take(i - lo) =~= p);
                }
            }
            return None;
        }
    }
    assert(d =~= s@.subrange(lo as int, i as int));
    Some(acc)
}

/// Parses an optionally signed decimal integer that fits in `i32`; no
/// surrounding whitespace is accepted.
pub fn parse_int(s: &Vec<char>) -> (r: Option<i32>)
    ensures
        match r {
            Some(v) => spec_parse_int(s@) == Some(v as int),
            None => spec_parse_int(s@) is None,
        },
{
    let negative = s.len() > 0 && s[0] == '-';
    let lo: usize = if s.len() > 0 && (s[0] == '-' || s[0] == '+') { 1 } else { 0 };
    let ghost body = spec_unsigned_part(s@);
    assert(body =~= s@.subrange(lo as int, s@.len() as int));
    if lo == s.len() {
        return None;
    }
    let cap: u64 = if negative { 2147483648 } else { 2147483647 };
    match digits_value_capped(s, lo, cap) {
        None => None,
        Some(v) => {
            if negative {
                if v == 2147483648 {
                    Some(-2147483648i32)
                } else {
                    Some(-(v as i32))
                }
            } else {
                Some(v as i32)
            }
        },
    }
}

/// Parses an optionally signed fixed-point decimal number (`-12.5`, `36.7000`,
/// `7`); no exponent and no surrounding whitespace are accepted.
pub fn parse_decimal(s: &Vec<char>) -> (r: Option<Decimal>)
    ensures
        r == spec_parse_decimal(s@),
{
    let negative = s.len() > 0 && s[0] == '-';
    let lo: usize = if s.len() > 0 && (s[0] == '-' || s[0] == '+') { 1 } else { 0 };
    let ghost body = spec_unsigned_part(s@);
    assert(body =~= s@.subrange(lo as int, s@.len() as int));
    let n = s.len();
    if lo == n {
        return None;
    }
    let mut k = lo;
    while k < n && '0' <= s[k] && s[k] <= '9'
        invariant
            lo <= k <= n == s@.len(),
            forall|j: int| lo <= j < k ==> spec_is_digit(#[trigger] s@[j]),
        decreases n - k,
    {
        k = k + 1;
    }
    proof {
        assert forall|j: int| 0 <= j < k - lo implies spec_is_digit(#[trigger] body.take(k - lo)[j]) by {
            assert(body.take(k - lo)[j] == s@[lo + j]);
        }
        lemma_first_non_digit(body, k - lo);
    }
    let mut digits: Vec<char> = Vec::new();
    let mut scale: usize = 0;
    if k == n {
        let mut i = lo;
        while i < n
            invariant
                lo <= i <= n == s@.len(),
                digits@ == s@.subrange(lo as int, i as int),
            decreases n - i,
        {
            digits.push(s[i]);
            assert(digits@ =~= s@.subrange(lo as int, i + 1));
            i = i + 1;
        }
        assert(digits@ =~= body);
    } else {
        if s[k] != '.' || n - lo <= 1 {
            return None;
        }
        let mut i = lo;
        while i < k
            invariant
                lo <= i <= k < n == s@.len(),
                digits@ == s@.subrange(lo as int, i as int),
            decreases k - i,
        {
            digits.push(s[i]);
            assert(digits@ =~= s@.subrange(lo as int, i + 1));
            i = i + 1;
        }
        let mut i = k + 1;
        while i < n
            invariant
                lo <= k < i <= n == s@.len(),
                body == s@.subrange(lo as int, n as int),
                body == spec_unsigned_part(s@),
                spec_first_non_digit(body) == k - lo,
                body[k - lo] == '.',
                digits@ == s@.subrange(lo as int, k as int) + s@.subrange(k + 1, i as int),
                forall|j: int| k < j < i ==> spec_is_digit(#[trigger] s@[j]),
            decreases n - i,
        {
            if !('0' <= s[i] && s[i] <= '9') {
                assert(body.subrange(k - lo + 1, body.len() as int)[i - k - 1] == s@[i as int]);
                assert(!spec_all_digits(body.subrange(k - lo + 1, body.len() as int)));
                return None;
            }
            digits.push(s[i]);
            assert(digits@ =~= s@.subrange(lo as int, k as int) + s@.subrange(k + 1, i + 1));
            i = i + 1;
        }
        assert(body.take(k - lo) =~= s@.subrange(lo as int, k as int));
        assert(body.subrange(k - lo + 1, body.len() as int) =~= s@.subrange(k + 1, n as int));
        scale = n - k - 1;
    }
    match digits_value_capped(&digits, 0, DECIMAL_UNITS_MAX) {
        None => {
            assert(digits@.subrange(0, digits@.len() as int) =~= digits@);
            None
        },
        Some(v) => {
            assert(digits@.subrange(0, digits@.len() as int) =~= digits@);
            let units: i64 = if negative { -(v as i64) } else { v as i64 };
            Some(Decimal { units, scale })
        },
    }
}

} // verus!
