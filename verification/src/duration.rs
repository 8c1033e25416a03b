//! Durations written in a configuration: whole minutes, or text such as
//! `30d` or `1w3d2h32m`.
use vstd::prelude::*;
use crate::text::{
    chars_of, decimal, is_white_space, lemma_decimal_digits, lemma_trim_ends, lemma_trim_fixed, trim,
    trim_bounds,
};

verus! {

/// Why a duration text is refused.
#[derive(Clone, Copy, Debug, PartialEq, Eq, Structural)]
pub enum DurationError {
    /// Nothing but white space.
    Empty,
    /// A unit letter with no number before it.
    Invalid,
    /// A number too large for a 64-bit signed integer.
    NumberTooLarge,
    /// A character that is neither a digit nor one of `m`, `h`, `d`, `w`.
    InvalidUnit(char),
    /// Digits at the end with no unit after them.
    MissingUnit,
}

pub open spec fn is_digit(c: char) -> bool {
    '0' <= c && c <= '9'
}

pub open spec fn digit_value(c: char) -> int {
    (c as int) - ('0' as int)
}

pub open spec fn all_digits(d: Seq<char>) -> bool {
    forall|i: int| 0 <= i < d.len() ==> is_digit(#[trigger] d[i])
}

/// The number that a string of decimal digits writes.
pub open spec fn digits_value(d: Seq<char>) -> int
    decreases d.len(),
{
    if d.len() == 0 {
        0
    } else {
        digits_value(d.drop_last()) * 10 + digit_value(d.last())
    }
}

/// The `i64` that a string denotes as Rust's `str::parse::<i64>` reads it:
/// an optional sign, then at least one digit, within range.
pub open spec fn parse_i64(s: Seq<char>) -> Option<int> {
    let neg = s.len() > 0 && s[0] == '-';
    let body = if s.len() > 0 && (s[0] == '-' || s[0] == '+') {
        s.drop_first()
    } else {
        s
    };
    let v = if neg {
        -digits_value(body)
    } else {
        digits_value(body)
    };
    if body.len() > 0 && all_digits(body) && i64::MIN <= v <= i64::MAX {
        Some(v)
    } else {
        None
    }
}

/// Minutes per unit letter.
pub open spec fn unit_minutes(c: char) -> Option<int> {
    if c == 'm' {
        Some(1)
    } else if c == 'h' {
        Some(60)
    } else if c == 'd' {
        Some(1440int)
    } else if c == 'w' {
        Some(10080int)
    } else {
        None
    }
}

/// The state after reading `s` as amounts with units, left to right: the
/// error met, if any; the minutes summed so far; the digits not yet given a
/// unit.
pub open spec fn scan(s: Seq<char>) -> (Option<DurationError>, int, Seq<char>)
    decreases s.len(),
{
    if s.len() == 0 {
        (None, 0, Seq::<char>::empty())
    } else {
        let prev = scan(s.drop_last());
        let c = s.last();
        if prev.0 is Some {
            prev
        } else if is_digit(c) {
            (None, prev.1, prev.2.push(c))
        } else if prev.2.len() == 0 {
            (Some(DurationError::Invalid), prev.1, prev.2)
        } else if digits_value(prev.2) > i64::MAX {
            (Some(DurationError::NumberTooLarge), prev.1, prev.2)
        } else {
            match unit_minutes(c) {
                Some(k) => (None, prev.1 + digits_value(prev.2) * k, Seq::<char>::empty()),
                None => (Some(DurationError::InvalidUnit(c)), prev.1, prev.2),
            }
        }
    }
}

/// The minutes that a duration text stands for, or why it is refused.
pub open spec fn duration_text_result(text: Seq<char>) -> Result<int, DurationError> {
    let t = trim(text);
    if t.len() == 0 {
        Err(DurationError::Empty)
    } else if parse_i64(t) is Some {
        Ok(parse_i64(t)->0)
    } else {
        let sc = scan(t);
        if sc.0 is Some {
            Err(sc.0->0)
        } else if sc.2.len() > 0 {
            Err(DurationError::MissingUnit)
        } else {
            Ok(sc.1)
        }
    }
}

/// The running sum of minutes stays within `i64` while the text is read
/// (beyond it, summing the minutes overflows).
pub open spec fn duration_text_fits(text: Seq<char>) -> bool {
    let t = trim(text);
    t.len() == 0 || parse_i64(t) is Some || scan(t).1 <= i64::MAX
}

/// A duration as a configuration writes it.
#[derive(Clone, Debug)]
pub enum DurationValue {
    Minutes(i64),
    Text(String),
}

/// The minutes that a duration value stands for, or why it is refused.
pub open spec fn duration_result(value: DurationValue) -> Result<int, DurationError> {
    match value {
        DurationValue::Minutes(m) => Ok(m as int),
        DurationValue::Text(t) => duration_text_result(t@),
    }
}

/// Reading the duration value does not overflow.
pub open spec fn duration_fits(value: DurationValue) -> bool {
    match value {
        DurationValue::Minutes(_) => true,
        DurationValue::Text(t) => duration_text_fits(t@),
    }
}

pub open spec fn same_result(r: Result<i64, DurationError>, s: Result<int, DurationError>) -> bool {
    match r {
        Ok(v) => s == Ok::<int, DurationError>(v as int),
        Err(e) => s == Err::<int, DurationError>(e),
    }
}

proof fn lemma_digits_value_nonneg(d: Seq<char>)
    requires
        all_digits(d),
    ensures
        digits_value(d) >= 0,
    decreases d.len(),
{
    if d.len() > 0 {
        lemma_digits_value_nonneg(d.drop_last());
    }
}

proof fn lemma_digits_value_prefix(d: Seq<char>, k: int)
    requires
        all_digits(d),
        0 <= k <= d.len(),
    ensures
        digits_value(d.take(k)) <= digits_value(d),
    decreases d.len(),
{
    if k < d.len() {
        assert(d.drop_last().take(k) =~= d.take(k));
        lemma_digits_value_prefix(d.drop_last(), k);
        lemma_digits_value_nonneg(d.drop_last());
    } else {
        assert(d.take(k) =~= d);
    }
}

/// The value of the digits `v[lo..hi]`, when it is at most `cap`.
fn digits_upto(v: &Vec<char>, lo: usize, hi: usize, cap: u128) -> (r: Option<u128>)
    requires
        lo <= hi <= v@.len(),
        all_digits(v@.subrange(lo as int, hi as int)),
        cap <= 0x1_0000_0000_0000_0000,
    ensures
        match r {
            Some(x) => x == digits_value(v@.subrange(lo as int, hi as int)) && x <= cap,
            None => digits_value(v@.subrange(lo as int, hi as int)) > cap,
        },
{
    let ghost d = v@.subrange(lo as int, hi as int);
    let mut acc: u128 = 0;
    let mut j = lo;
    assert(v@.subrange(lo as int, lo as int) =~= Seq::<char>::empty());
    while j < hi
        invariant
            lo <= j <= hi <= v@.len(),
            d == v@.subrange(lo as int, hi as int),
            all_digits(d),
            cap <= 0x1_0000_0000_0000_0000,
            acc == digits_value(v@.subrange(lo as int, j as int)),
            acc <= cap,
        decreases hi - j,
    {
        assert(v@.subrange(lo as int, j + 1).drop_last() =~= v@.subrange(lo as int, j as int));
        assert(d[j - lo] == v@[j as int]);
        let c = v[j];
        let dv = (c as u32 - '0' as u32) as u128;
        assert(dv == digit_value(c));
        acc = acc * 10 + dv;
        j = j + 1;
        if acc > cap {
            assert(d.take(j - lo) =~= v@.subrange(lo as int, j as int));
            proof {
                lemma_digits_value_prefix(d, j - lo);
            }
            return None;
        }
    }
    Some(acc)
}

/// `v[lo..hi]` read as `str::parse::<i64>` reads it.
fn parse_i64_in(v: &Vec<char>, lo: usize, hi: usize) -> (r: Option<i64>)
    requires
        lo <= hi <= v@.len(),
    ensures
        match r {
            Some(x) => parse_i64(v@.subrange(lo as int, hi as int)) == Some(x as int),
            None => parse_i64(v@.subrange(lo as int, hi as int)) is None,
        },
{
    let ghost s = v@.subrange(lo as int, hi as int);
    if lo == hi {
        return None;
    }
    assert(s[0] == v@[lo as int]);
    let neg = v[lo] == '-';
    let start = if v[lo] == '-' || v[lo] == '+' {
        lo + 1
    } else {
        lo
    };
    let ghost body = v@.subrange(start as int, hi as int);
    assert(body =~= (if s[0] == '-' || s[0] == '+' {
        s.drop_first()
    } else {
        s
    }));
    if start == hi {
        return None;
    }
    assert(!all_digits(body) ==> parse_i64(s) is None);
    let mut j = start;
    while j < hi
        invariant
            start <= j <= hi <= v@.len(),
            body == v@.subrange(start as int, hi as int),
            s == v@.subrange(lo as int, hi as int),
            !all_digits(body) ==> parse_i64(s) is None,
            forall|k: int| start <= k < j ==> is_digit(#[trigger] v@[k]),
        decreases hi - j,
    {
        if !(v[j] >= '0' && v[j] <= '9') {
            assert(body[j - start] == v@[j as int]);
            assert(!is_digit(body[j - start]));
            return None;
        }
        j = j + 1;
    }
    assert(all_digits(body)) by {
        assert forall|i: int| 0 <= i < body.len() implies is_digit(#[trigger] body[i]) by {
            assert(body[i] == v@[start + i]);
        }
    }
    match digits_upto(v, start, hi, 0x8000_0000_0000_0000) {
        None => None,
        Some(m) => {
            if neg {
                if m == 0x8000_0000_0000_0000 {
                    Some(i64::MIN)
                } else {
                    Some(-(m as i64))
                }
            } else if m <= 0x7fff_ffff_ffff_ffff {
                Some(m as i64)
            } else {
                None
            }
        },
    }
}

proof fn lemma_scan_total_grows(s: Seq<char>)
    ensures
        scan(s.drop_last()).1 <= scan(s).1 || s.len() == 0,
        all_digits(scan(s).2),
    decreases s.len(),
{
    if s.len() > 0 {
        lemma_scan_total_grows(s.drop_last());
        let prev = scan(s.drop_last());
        if prev.0 is None && !is_digit(s.last()) && prev.2.len() > 0 && digits_value(prev.2)
            <= i64::MAX {
            lemma_digits_value_nonneg(prev.2);
            if unit_minutes(s.last()) is Some {
                assert(digits_value(prev.2) * unit_minutes(s.last())->0 >= 0) by (nonlinear_arith)
                    requires
                        digits_value(prev.2) >= 0,
                        unit_minutes(s.last())->0 >= 0,
                ;
            }
        }
        if prev.0 is None && is_digit(s.last()) {
            assert forall|i: int| 0 <= i < prev.2.push(s.last()).len() implies is_digit(
                #[trigger] prev.2.push(s.last())[i],
            ) by {
                if i < prev.2.len() {
                    assert(is_digit(prev.2[i]));
                }
            }
        }
    }
}

proof fn lemma_scan_total_prefix(s: Seq<char>, k: int)
    requires
        0 <= k <= s.len(),
    ensures
        scan(s.take(k)).1 <= scan(s).1,
    decreases s.len() - k,
{
    if k < s.len() {
        lemma_scan_total_prefix(s, k + 1);
        assert(s.take(k + 1).drop_last() =~= s.take(k));
        lemma_scan_total_grows(s.take(k + 1));
    } else {
        assert(s.take(k) =~= s);
    }
}

proof fn lemma_scan_failure_stays(s: Seq<char>, k: int)
    requires
        0 <= k <= s.len(),
        scan(s.take(k)).0 is Some,
    ensures
        scan(s) == scan(s.take(k)),
    decreases s.len() - k,
{
    if k < s.len() {
        assert(s.take(k + 1).drop_last() =~= s.take(k));
        lemma_scan_failure_stays(s, k + 1);
    } else {
        assert(s.take(k) =~= s);
    }
}

/// Reads a duration text; `None` when the running sum of minutes leaves the
/// range of `i64` before the reading ends.
fn read_duration_text(text: &str) -> (r: Option<Result<i64, DurationError>>)
    ensures
        r is None <==> !duration_text_fits(text@),
        r matches Some(x) ==> same_result(x, duration_text_result(text@)),
{
    let v = chars_of(text);
    let (a, b) = trim_bounds(&v, 0, v.len());
    assert(v@.subrange(0, v@.len() as int) =~= v@);
    let ghost t = v@.subrange(a as int, b as int);
    assert(t == trim(text@));
    if a == b {
        return Some(Err(DurationError::Empty));
    }
    if let Some(m) = parse_i64_in(&v, a, b) {
        return Some(Ok(m));
    }
    let mut total: i64 = 0;
    let mut ns = a;
    let mut i = a;
    assert(t.take(0) =~= Seq::<char>::empty());
    assert(v@.subrange(a as int, a as int) =~= Seq::<char>::empty());
    while i < b
        invariant
            a <= ns <= i <= b <= v@.len(),
            t == v@.subrange(a as int, b as int),
            t == trim(text@),
            t.len() > 0,
            parse_i64(t) is None,
            0 <= total,
            scan(t.take(i - a)) == (
                None::<DurationError>,
                total as int,
                v@.subrange(ns as int, i as int),
            ),
        decreases b - i,
    {
        let ghost pre = t.take(i - a);
        let ghost cur = t.take(i - a + 1);
        assert(cur.drop_last() =~= pre);
        assert(cur.last() == v@[i as int]);
        proof {
            lemma_scan_total_grows(pre);
            lemma_scan_total_prefix(t, i - a + 1);
        }
        let c = v[i];
        if c >= '0' && c <= '9' {
            assert(v@.subrange(ns as int, i + 1) =~= v@.subrange(ns as int, i as int).push(c));
            i = i + 1;
        } else {
            if ns == i {
                proof {
                    lemma_scan_failure_stays(t, i - a + 1);
                }
                return Some(Err(DurationError::Invalid));
            }
            let amount = match digits_upto(&v, ns, i, 0x7fff_ffff_ffff_ffff) {
                Some(x) => x as i64,
                None => {
                    proof {
                        lemma_scan_failure_stays(t, i - a + 1);
                    }
                    return Some(Err(DurationError::NumberTooLarge));
                },
            };
            let k: i64 = if c == 'm' {
                1
            } else if c == 'h' {
                60
            } else if c == 'd' {
                24 * 60
            } else if c == 'w' {
                7 * 24 * 60
            } else {
                proof {
                    lemma_scan_failure_stays(t, i - a + 1);
                }
                return Some(Err(DurationError::InvalidUnit(c)));
            };
            assert(scan(cur).1 == total + amount * k);
            let sum = match amount.checked_mul(k) {
                Some(term) => total.checked_add(term),
                None => None,
            };
            match sum {
                Some(next) => {
                    total = next;
                },
                None => {
                    assert(amount * k >= 0) by (nonlinear_arith)
                        requires
                            amount >= 0,
                            k >= 1,
                    ;
                    return None;
                },
            }
            i = i + 1;
            ns = i;
            assert(v@.subrange(ns as int, i as int) =~= Seq::<char>::empty());
        }
    }
    assert(t.take(b - a) =~= t);
    if ns < b {
        return Some(Err(DurationError::MissingUnit));
    }
    Some(Ok(total))
}

/// Reads a duration text: a whole number of minutes (`-1`, `90`), or
/// amounts each followed by a unit (`m`, `h`, `d`, `w`) that add up.
pub fn parse_duration_text(text: &str) -> (r: Result<i64, DurationError>)
    requires
        duration_text_fits(text@),
    ensures
        same_result(r, duration_text_result(text@)),
{
    match read_duration_text(text) {
        Some(r) => r,
        None => Err(DurationError::Empty),
    }
}

/// Whether reading the duration text keeps its running sum of minutes
/// within `i64`.
pub fn duration_text_in_range(text: &str) -> (b: bool)
    ensures
        b == duration_text_fits(text@),
{
    read_duration_text(text).is_some()
}

/// Whether reading the duration value keeps within `i64`.
pub fn duration_in_range(value: &DurationValue) -> (b: bool)
    ensures
        b == duration_fits(*value),
{
    match value {
        DurationValue::Minutes(_) => true,
        DurationValue::Text(text) => duration_text_in_range(text.as_str()),
    }
}

/// The minutes that a duration value stands for.
pub fn parse_duration_minutes(value: &DurationValue) -> (r: Result<i64, DurationError>)
    requires
        duration_fits(*value),
    ensures
        same_result(r, duration_result(*value)),
{
    match value {
        DurationValue::Minutes(minutes) => Ok(*minutes),
        DurationValue::Text(text) => parse_duration_text(text.as_str()),
    }
}


proof fn lemma_scan_digits(d: Seq<char>)
    requires
        all_digits(d),
    ensures
        scan(d) == (None::<DurationError>, 0int, d),
    decreases d.len(),
{
    if d.len() == 0 {
        assert(d =~= Seq::<char>::empty());
    } else {
        assert(all_digits(d.drop_last())) by {
            assert forall|i: int| 0 <= i < d.drop_last().len() implies is_digit(#[trigger] d.drop_last()[i]) by {
                assert(d.drop_last()[i] == d[i]);
            }
        }
        lemma_scan_digits(d.drop_last());
        assert(is_digit(d[d.len() - 1]));
        assert(d.drop_last().push(d.last()) =~= d);
    }
}

/// An amount followed by a unit letter stands for the amount times the
/// minutes of the unit: `m` 1, `h` 60, `d` 1440, `w` 10080.
pub proof fn law_duration_unit(d: Seq<char>, u: char)
    requires
        d.len() > 0,
        all_digits(d),
        unit_minutes(u) is Some,
        digits_value(d) <= i64::MAX,
    ensures
        duration_text_result(d.push(u)) == Ok::<int, DurationError>(digits_value(d) * unit_minutes(u)->0),
{
    let t = d.push(u);
    assert(is_digit(d[0]));
    assert(t[0] == d[0]);
    assert(!is_white_space(t[0]));
    assert(!is_white_space(t.last()));
    lemma_trim_fixed(t);
    assert(!all_digits(t)) by {
        assert(t[t.len() - 1] == u);
    }
    assert(t[0] != '-' && t[0] != '+');
    assert(parse_i64(t) is None);
    lemma_scan_digits(d);
    assert(t.drop_last() =~= d);
}


proof fn lemma_scan_concat(x: Seq<char>, y: Seq<char>)
    requires
        scan(x).0 is None,
        scan(x).2.len() == 0,
    ensures
        scan(x + y) == (scan(y).0, scan(x).1 + scan(y).1, scan(y).2),
    decreases y.len(),
{
    if y.len() == 0 {
        assert(x + y =~= x);
        assert(scan(x).2 =~= Seq::<char>::empty());
    } else {
        lemma_scan_concat(x, y.drop_last());
        assert((x + y).drop_last() =~= x + y.drop_last());
        assert((x + y).last() == y.last());
    }
}

/// A duration text made of amounts with units, read clean.
pub open spec fn unit_text(x: Seq<char>) -> bool {
    &&& x.len() > 0
    &&& trim(x) == x
    &&& parse_i64(x) is None
    &&& scan(x).0 is None
    &&& scan(x).2.len() == 0
}

/// Durations written with units add up when written one after the other
/// (`1w3d` is `1w` and `3d`).
pub proof fn law_duration_sum(x: Seq<char>, y: Seq<char>)
    requires
        unit_text(x),
        unit_text(y),
    ensures
        duration_text_result(x) == Ok::<int, DurationError>(scan(x).1),
        duration_text_result(y) == Ok::<int, DurationError>(scan(y).1),
        duration_text_result(x + y) == Ok::<int, DurationError>(scan(x).1 + scan(y).1),
{
    let xy = x + y;
    lemma_trim_ends(x);
    lemma_trim_ends(y);
    assert(xy[0] == x[0]);
    assert(xy.last() == y.last());
    lemma_trim_fixed(xy);
    lemma_scan_concat(x, y);
    // The last character of `x` is a unit letter, not a digit: it would be
    // pending otherwise.
    assert(!is_digit(x.last())) by {
        assert(x.drop_last().push(x.last()) =~= x);
        if is_digit(x.last()) {
            assert(scan(x).2.len() > 0);
        }
    }
    assert(x.len() >= 2 || !(x[0] == '-' || x[0] == '+')) by {
        if x.len() == 1 && (x[0] == '-' || x[0] == '+') {
            assert(x.drop_last() =~= Seq::<char>::empty());
            assert(scan(x).0 is Some);
        }
    }
    assert(parse_i64(xy) is None) by {
        let body = if xy[0] == '-' || xy[0] == '+' {
            xy.drop_first()
        } else {
            xy
        };
        if x.len() >= 2 || !(x[0] == '-' || x[0] == '+') {
            let k = if xy[0] == '-' || xy[0] == '+' {
                x.len() - 2
            } else {
                x.len() - 1
            };
            assert(body[k] == x.last());
        }
    }
}


/// The decimal text of an integer, with `-` before a negative one (what
/// `to_string` writes).
pub open spec fn signed_decimal(n: int) -> Seq<char> {
    if n < 0 {
        seq!['-'] + decimal((-n) as nat)
    } else {
        decimal(n as nat)
    }
}

proof fn lemma_decimal_value(m: nat)
    ensures
        all_digits(decimal(m)),
        digits_value(decimal(m)) == m,
        decimal(m).len() > 0,
    decreases m,
{
    lemma_decimal_digits(m);
    if m >= 10 {
        lemma_decimal_value(m / 10);
        let c = (((m % 10) + 48) as u8) as char;
        assert(c as int == (m % 10) + 48);
        assert(decimal(m).drop_last() =~= decimal(m / 10));
        assert(decimal(m).last() == c);
        assert((m / 10) * 10 + m % 10 == m) by (nonlinear_arith);
        assert('0' as int == 48);
        assert(digit_value(c) == m % 10);
    } else {
        let c = ((m + 48) as u8) as char;
        assert(c as int == m + 48);
        assert(decimal(m).drop_last() =~= Seq::<char>::empty());
        assert(digits_value(Seq::<char>::empty()) == 0);
        assert('0' as int == 48);
        assert(digit_value(c) == m);
        assert(decimal(m).last() == c);
    }
}

/// The decimal text of a number, read as a duration, gives the number back
/// (as minutes).
pub proof fn law_duration_of_decimal(n: int)
    requires
        i64::MIN <= n <= i64::MAX,
    ensures
        duration_text_result(signed_decimal(n)) == Ok::<int, DurationError>(n),
{
    let t = signed_decimal(n);
    let m: nat = if n < 0 {
        (-n) as nat
    } else {
        n as nat
    };
    lemma_decimal_value(m);
    let d = decimal(m);
    assert(is_digit(d[0]));
    assert(is_digit(d.last()));
    assert(!is_white_space(t[0]));
    assert(t.last() == d.last());
    assert(!is_white_space(t.last()));
    lemma_trim_fixed(t);
    if n < 0 {
        assert(t.drop_first() =~= d);
    } else {
        assert(t[0] != '-' && t[0] != '+');
    }
}

} // verus!
