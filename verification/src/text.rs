//! Character-level helpers on strings, each stated over `Seq<char>`.
use vstd::prelude::*;
use vstd::string::*;

verus! {

/// The views of a sequence of strings.
pub open spec fn views(v: Seq<String>) -> Seq<Seq<char>> {
    v.map_values(|s: String| s@)
}

/// Unicode `White_Space`: the characters that `str::trim` removes.
pub open spec fn is_white_space(c: char) -> bool {
    let n = c as u32;
    ||| 0x09 <= n <= 0x0d
    ||| n == 0x20
    ||| n == 0x85
    ||| n == 0xa0
    ||| n == 0x1680
    ||| 0x2000 <= n <= 0x200a
    ||| n == 0x2028
    ||| n == 0x2029
    ||| n == 0x202f
    ||| n == 0x205f
    ||| n == 0x3000
}

pub fn white_space(c: char) -> (b: bool)
    ensures
        b == is_white_space(c),
{
    let n = c as u32;
    (0x09 <= n && n <= 0x0d) || n == 0x20 || n == 0x85 || n == 0xa0 || n == 0x1680 || (0x2000
        <= n && n <= 0x200a) || n == 0x2028 || n == 0x2029 || n == 0x202f || n == 0x205f || n
        == 0x3000
}

/// `s` without its leading white space.
pub open spec fn trim_start(s: Seq<char>) -> Seq<char>
    decreases s.len(),
{
    if s.len() > 0 && is_white_space(s[0]) {
        trim_start(s.drop_first())
    } else {
        s
    }
}

/// `s` without its trailing white space.
pub open spec fn trim_end(s: Seq<char>) -> Seq<char>
    decreases s.len(),
{
    if s.len() > 0 && is_white_space(s.last()) {
        trim_end(s.drop_last())
    } else {
        s
    }
}

/// `s` without white space at either end, as `str::trim` gives it.
pub open spec fn trim(s: Seq<char>) -> Seq<char> {
    trim_end(trim_start(s))
}

/// The fields of `s` between occurrences of `sep`, as `str::split` gives
/// them: one more field than there are separators, empty ones included.
pub open spec fn fields(s: Seq<char>, sep: char) -> Seq<Seq<char>>
    decreases s.len(),
{
    if s.len() == 0 {
        seq![Seq::<char>::empty()]
    } else {
        let f = fields(s.drop_last(), sep);
        if s.last() == sep {
            f.push(Seq::<char>::empty())
        } else {
            f.update(f.len() - 1, f.last().push(s.last()))
        }
    }
}

pub proof fn lemma_fields_nonempty(s: Seq<char>, sep: char)
    ensures
        fields(s, sep).len() >= 1,
    decreases s.len(),
{
    if s.len() > 0 {
        lemma_fields_nonempty(s.drop_last(), sep);
    }
}

/// Every field is free of the separator.
pub proof fn lemma_fields_free_of_sep(s: Seq<char>, sep: char)
    ensures
        forall|i: int| 0 <= i < fields(s, sep).len() ==> !(#[trigger] fields(s, sep)[i]).contains(sep),
    decreases s.len(),
{
    lemma_fields_nonempty(s, sep);
    if s.len() > 0 {
        lemma_fields_free_of_sep(s.drop_last(), sep);
        lemma_fields_nonempty(s.drop_last(), sep);
        let f = fields(s.drop_last(), sep);
        if s.last() != sep {
            let g = f.last().push(s.last());
            assert forall|k: int| 0 <= k < g.len() implies g[k] != sep by {
                if k < f.last().len() {
                    assert(f.last()[k] == g[k]);
                }
            }
        }
    }
}

/// The characters of `s`.
pub fn chars_of(s: &str) -> (v: Vec<char>)
    ensures
        v@ == s@,
{
    let mut v: Vec<char> = Vec::new();
    for c in it: s.chars()
        invariant
            v@ == it.seq().take(it.index() as int),
            it.seq() == s@,
    {
        v.push(c);
    }
    v
}

proof fn lemma_trim_start_step(v: Seq<char>, a: int, hi: int)
    requires
        0 <= a < hi <= v.len(),
        is_white_space(v[a]),
    ensures
        trim_start(v.subrange(a, hi)) == trim_start(v.subrange(a + 1, hi)),
{
    assert(v.subrange(a, hi).drop_first() =~= v.subrange(a + 1, hi));
}

proof fn lemma_trim_end_step(v: Seq<char>, a: int, b: int)
    requires
        0 <= a < b <= v.len(),
        is_white_space(v[b - 1]),
    ensures
        trim_end(v.subrange(a, b)) == trim_end(v.subrange(a, b - 1)),
{
    assert(v.subrange(a, b).drop_last() =~= v.subrange(a, b - 1));
}

/// The bounds, within `v[lo..hi]`, of that stretch trimmed.
pub fn trim_bounds(v: &Vec<char>, lo: usize, hi: usize) -> (r: (usize, usize))
    requires
        lo <= hi <= v@.len(),
    ensures
        lo <= r.0 <= r.1 <= hi,
        v@.subrange(r.0 as int, r.1 as int) == trim(v@.subrange(lo as int, hi as int)),
{
    let mut a = lo;
    while a < hi && white_space(v[a])
        invariant
            lo <= a <= hi <= v@.len(),
            trim_start(v@.subrange(lo as int, hi as int)) == trim_start(
                v@.subrange(a as int, hi as int),
            ),
        decreases hi - a,
    {
        proof {
            lemma_trim_start_step(v@, a as int, hi as int);
        }
        a = a + 1;
    }
    let ghost mid = v@.subrange(a as int, hi as int);
    assert(trim_start(mid) == mid) by {
        if mid.len() > 0 {
            assert(mid[0] == v@[a as int]);
        }
    }
    let mut b = hi;
    while b > a && white_space(v[b - 1])
        invariant
            lo <= a <= b <= hi <= v@.len(),
            mid == v@.subrange(a as int, hi as int),
            trim_end(mid) == trim_end(v@.subrange(a as int, b as int)),
        decreases b - a,
    {
        proof {
            lemma_trim_end_step(v@, a as int, b as int);
        }
        b = b - 1;
    }
    let ghost fin = v@.subrange(a as int, b as int);
    assert(trim_end(fin) == fin) by {
        if fin.len() > 0 {
            assert(fin.last() == v@[b - 1]);
        }
    }
    (a, b)
}

/// `s` without white space at either end (`str::trim`).
pub fn trimmed(s: &str) -> (r: String)
    ensures
        r@ == trim(s@),
{
    let v = chars_of(s);
    let (a, b) = trim_bounds(&v, 0, v.len());
    assert(v@.subrange(0, v@.len() as int) =~= v@);
    s.substring_char(a, b).to_owned()
}

/// Whether `x` occurs among the views of `v`.
pub fn contains_string(v: &Vec<String>, x: &str) -> (b: bool)
    ensures
        b == views(v@).contains(x@),
{
    let xs: String = x.to_owned();
    let mut i: usize = 0;
    while i < v.len()
        invariant
            i <= v@.len(),
            xs@ == x@,
            forall|j: int| 0 <= j < i ==> v@[j]@ != x@,
        decreases v@.len() - i,
    {
        if v[i] == xs {
            assert(views(v@)[i as int] == x@);
            return true;
        }
        i = i + 1;
    }
    assert forall|j: int| 0 <= j < views(v@).len() implies views(v@)[j] != x@ by {
        assert(views(v@)[j] == v@[j]@);
    }
    false
}


/// Lexicographic order on characters by code point, from position `k` on;
/// a proper prefix comes first. This is the order of `String`'s `Ord`.
pub open spec fn lt_from(a: Seq<char>, b: Seq<char>, k: int) -> bool
    decreases a.len() - k,
{
    if k < 0 || k >= a.len() {
        0 <= k < b.len()
    } else if k >= b.len() {
        false
    } else if a[k] != b[k] {
        (a[k] as int) < (b[k] as int)
    } else {
        lt_from(a, b, k + 1)
    }
}

/// `a` sorts strictly before `b`.
pub open spec fn str_less(a: Seq<char>, b: Seq<char>) -> bool {
    lt_from(a, b, 0)
}

pub proof fn lemma_lt_from_asym(a: Seq<char>, b: Seq<char>, k: int)
    requires
        0 <= k,
        lt_from(a, b, k),
    ensures
        !lt_from(b, a, k),
    decreases a.len() - k,
{
    if k < a.len() && k < b.len() && a[k] == b[k] {
        lemma_lt_from_asym(a, b, k + 1);
    }
}

pub proof fn lemma_lt_from_trans(a: Seq<char>, b: Seq<char>, c: Seq<char>, k: int)
    requires
        0 <= k,
        lt_from(a, b, k),
        lt_from(b, c, k),
    ensures
        lt_from(a, c, k),
    decreases a.len() - k,
{
    if k < a.len() && k < b.len() && k < c.len() && a[k] == b[k] && b[k] == c[k] {
        lemma_lt_from_trans(a, b, c, k + 1);
    }
}

pub proof fn lemma_lt_from_total(a: Seq<char>, b: Seq<char>, k: int)
    requires
        0 <= k <= a.len(),
        k <= b.len(),
        a.subrange(0, k) == b.subrange(0, k),
        a != b,
    ensures
        lt_from(a, b, k) || lt_from(b, a, k),
    decreases a.len() - k,
{
    if k < a.len() && k < b.len() && a[k] == b[k] {
        assert(a.subrange(0, k + 1) =~= a.subrange(0, k).push(a[k]));
        assert(b.subrange(0, k + 1) =~= b.subrange(0, k).push(b[k]));
        lemma_lt_from_total(a, b, k + 1);
    } else if k == a.len() && k == b.len() {
        assert(a =~= a.subrange(0, k));
        assert(b =~= b.subrange(0, k));
    } else if k < a.len() && k < b.len() {
        assert(a[k] as int != b[k] as int);
    }
}

/// The strict order is total on distinct strings.
pub proof fn lemma_str_less_total(a: Seq<char>, b: Seq<char>)
    requires
        a != b,
    ensures
        str_less(a, b) || str_less(b, a),
{
    assert(a.subrange(0, 0) =~= b.subrange(0, 0));
    lemma_lt_from_total(a, b, 0);
}

/// Whether `a` sorts strictly before `b`.
pub fn less_than(a: &str, b: &str) -> (r: bool)
    ensures
        r == str_less(a@, b@),
{
    let x = chars_of(a);
    let y = chars_of(b);
    let mut k: usize = 0;
    while k < x.len() && k < y.len() && x[k] == y[k]
        invariant
            k <= x@.len(),
            k <= y@.len(),
            x@ == a@,
            y@ == b@,
            lt_from(a@, b@, 0) == lt_from(a@, b@, k as int),
        decreases x@.len() - k,
    {
        k = k + 1;
    }
    if k == x.len() {
        k < y.len()
    } else if k == y.len() {
        false
    } else {
        x[k] < y[k]
    }
}

/// `parts` joined with `sep` between consecutive parts.
pub open spec fn join(parts: Seq<Seq<char>>, sep: Seq<char>) -> Seq<char>
    decreases parts.len(),
{
    if parts.len() == 0 {
        Seq::<char>::empty()
    } else if parts.len() == 1 {
        parts[0]
    } else {
        join(parts.drop_last(), sep) + sep + parts.last()
    }
}

/// The strings of `parts` joined with `sep` between them.
pub fn join_strings(parts: &Vec<String>, sep: &str) -> (r: String)
    ensures
        r@ == join(views(parts@), sep@),
{
    let mut r = String::new();
    let mut i: usize = 0;
    while i < parts.len()
        invariant
            i <= parts@.len(),
            r@ == join(views(parts@).take(i as int), sep@),
        decreases parts@.len() - i,
    {
        let ghost pre = views(parts@).take(i as int);
        let ghost next = views(parts@).take(i + 1);
        assert(next.drop_last() =~= pre);
        assert(next.last() == parts@[i as int]@);
        if i > 0 {
            r.append(sep);
        } else {
            assert(pre.len() == 0);
        }
        r.append(parts[i].as_str());
        i = i + 1;
    }
    assert(views(parts@).take(parts@.len() as int) =~= views(parts@));
    r
}


/// Trimming the start keeps a suffix.
pub proof fn lemma_trim_start_suffix(s: Seq<char>)
    ensures
        exists|k: int|
            0 <= k <= s.len() && #[trigger] trim_start(s) == s.subrange(k, s.len() as int),
    decreases s.len(),
{
    if s.len() > 0 && is_white_space(s[0]) {
        lemma_trim_start_suffix(s.drop_first());
        let k = choose|k: int|
            0 <= k <= s.drop_first().len() && #[trigger] trim_start(s.drop_first())
                == s.drop_first().subrange(k, s.drop_first().len() as int);
        assert(s.drop_first().subrange(k, s.drop_first().len() as int) =~= s.subrange(
            k + 1,
            s.len() as int,
        ));
    } else {
        assert(s.subrange(0, s.len() as int) =~= s);
    }
}

/// Trimming the end keeps a prefix.
pub proof fn lemma_trim_end_prefix(s: Seq<char>)
    ensures
        exists|k: int| 0 <= k <= s.len() && #[trigger] trim_end(s) == s.subrange(0, k),
    decreases s.len(),
{
    if s.len() > 0 && is_white_space(s.last()) {
        lemma_trim_end_prefix(s.drop_last());
        let k = choose|k: int|
            0 <= k <= s.drop_last().len() && #[trigger] trim_end(s.drop_last())
                == s.drop_last().subrange(0, k);
        assert(s.drop_last().subrange(0, k) =~= s.subrange(0, k));
    } else {
        assert(s.subrange(0, s.len() as int) =~= s);
    }
}

/// A trimmed string neither starts nor ends with white space.
pub proof fn lemma_trim_ends(s: Seq<char>)
    ensures
        trim(s).len() > 0 ==> !is_white_space(trim(s)[0]) && !is_white_space(trim(s).last()),
        trim(s).len() <= s.len(),
{
    lemma_trim_start_ends(s);
    lemma_trim_end_ends(trim_start(s));
    lemma_trim_end_prefix(trim_start(s));
    lemma_trim_start_suffix(s);
}

proof fn lemma_trim_start_ends(s: Seq<char>)
    ensures
        trim_start(s).len() > 0 ==> !is_white_space(trim_start(s)[0]),
    decreases s.len(),
{
    if s.len() > 0 && is_white_space(s[0]) {
        lemma_trim_start_ends(s.drop_first());
    }
}

proof fn lemma_trim_end_ends(s: Seq<char>)
    ensures
        trim_end(s).len() > 0 ==> !is_white_space(trim_end(s).last()),
    decreases s.len(),
{
    if s.len() > 0 && is_white_space(s.last()) {
        lemma_trim_end_ends(s.drop_last());
    }
}

/// A string that neither starts nor ends with white space is its own trim.
pub proof fn lemma_trim_fixed(s: Seq<char>)
    requires
        s.len() > 0 ==> !is_white_space(s[0]) && !is_white_space(s.last()),
    ensures
        trim(s) == s,
{
}

/// Trimming is idempotent.
pub proof fn lemma_trim_idempotent(s: Seq<char>)
    ensures
        trim(trim(s)) == trim(s),
{
    lemma_trim_ends(s);
    lemma_trim_fixed(trim(s));
}

/// Trimming brings in no character.
pub proof fn lemma_trim_within(s: Seq<char>, c: char)
    requires
        !s.contains(c),
    ensures
        !trim(s).contains(c),
{
    lemma_trim_start_suffix(s);
    let k = choose|k: int| 0 <= k <= s.len() && #[trigger] trim_start(s) == s.subrange(k, s.len() as int);
    lemma_trim_end_prefix(trim_start(s));
    let m = choose|m: int|
        0 <= m <= trim_start(s).len() && #[trigger] trim_end(trim_start(s)) == trim_start(s).subrange(0, m);
    if trim(s).contains(c) {
        let j = choose|j: int| 0 <= j < trim(s).len() && trim(s)[j] == c;
        assert(s[k + j] == c);
    }
}

/// A space followed by a trimmed, non-empty string trims to that string.
pub proof fn lemma_trim_after_space(t: Seq<char>)
    requires
        t.len() > 0,
        trim(t) == t,
    ensures
        trim(seq![' '] + t) == t,
{
    lemma_trim_ends(t);
    assert((seq![' '] + t).drop_first() =~= t);
    assert(is_white_space(' '));
    lemma_trim_start_ends(t);
    lemma_trim_start_suffix(t);
    lemma_trim_end_prefix(trim_start(t));
    lemma_trim_fixed(t);
}

/// Splitting at a separator splits the fields.
pub proof fn lemma_fields_concat(a: Seq<char>, b: Seq<char>, sep: char)
    ensures
        fields(a + seq![sep] + b, sep) == fields(a, sep) + fields(b, sep),
    decreases b.len(),
{
    let ab = a + seq![sep] + b;
    if b.len() == 0 {
        assert(ab.drop_last() =~= a);
        assert(fields(a, sep).push(Seq::<char>::empty()) =~= fields(a, sep) + fields(b, sep));
    } else {
        lemma_fields_concat(a, b.drop_last(), sep);
        assert(ab.drop_last() =~= a + seq![sep] + b.drop_last());
        lemma_fields_nonempty(b.drop_last(), sep);
        let fa = fields(a, sep);
        let fb = fields(b.drop_last(), sep);
        if b.last() == sep {
            assert((fa + fb).push(Seq::<char>::empty()) =~= fa + fb.push(Seq::<char>::empty()));
        } else {
            assert((fa + fb).update((fa + fb).len() - 1, (fa + fb).last().push(b.last())) =~= fa
                + fb.update(fb.len() - 1, fb.last().push(b.last())));
        }
    }
}

/// A string without the separator is a single field.
pub proof fn lemma_fields_single(s: Seq<char>, sep: char)
    requires
        !s.contains(sep),
    ensures
        fields(s, sep) == seq![s],
    decreases s.len(),
{
    if s.len() > 0 {
        assert(!s.drop_last().contains(sep)) by {
            if s.drop_last().contains(sep) {
                let j = choose|j: int| 0 <= j < s.drop_last().len() && s.drop_last()[j] == sep;
                assert(s[j] == sep);
            }
        }
        lemma_fields_single(s.drop_last(), sep);
        assert(s[s.len() - 1] != sep);
        assert(s.drop_last().push(s.last()) =~= s);
        assert(seq![s.drop_last()].update(0, s.drop_last().push(s.last())) =~= seq![s]);
    } else {
        assert(s =~= Seq::<char>::empty());
    }
}


/// The decimal digits of `n`.
pub open spec fn decimal(n: nat) -> Seq<char>
    decreases n,
{
    if n < 10 {
        seq![((n + 48) as u8) as char]
    } else {
        decimal(n / 10).push((((n % 10) + 48) as u8) as char)
    }
}

/// The one-character text of a decimal digit.
fn digit_text(c: char) -> (r: &'static str)
    requires
        '0' <= c <= '9',
    ensures
        r@ == seq![c],
{
    proof {
        reveal_strlit("0");
        reveal_strlit("1");
        reveal_strlit("2");
        reveal_strlit("3");
        reveal_strlit("4");
        reveal_strlit("5");
        reveal_strlit("6");
        reveal_strlit("7");
        reveal_strlit("8");
        reveal_strlit("9");
    }
    match c {
        '0' => "0",
        '1' => "1",
        '2' => "2",
        '3' => "3",
        '4' => "4",
        '5' => "5",
        '6' => "6",
        '7' => "7",
        '8' => "8",
        _ => "9",
    }
}

/// The decimal digits of `n`.
pub fn decimal_string(n: u64) -> (s: String)
    ensures
        s@ == decimal(n as nat),
{
    let mut digits: Vec<char> = Vec::new();
    let mut m = n;
    assert(decimal(n as nat) == decimal(m as nat) + digits@);
    while m >= 10
        invariant
            decimal(n as nat) == decimal(m as nat) + digits@,
        decreases m,
    {
        let d = (m % 10) as u8;
        let c = (d + 48) as char;
        let ghost old_digits = digits@;
        digits.insert(0, c);
        assert(decimal(m as nat) == decimal((m / 10) as nat).push(c));
        assert(decimal((m / 10) as nat) + digits@ =~= decimal((m / 10) as nat).push(c) + old_digits);
        m = m / 10;
    }
    let c = ((m as u8) + 48) as char;
    let ghost old_digits = digits@;
    digits.insert(0, c);
    assert(decimal(m as nat) == seq![c]);
    assert(digits@ =~= seq![c] + old_digits);
    proof {
        lemma_decimal_digits(n as nat);
    }
    let mut text = String::new();
    let mut i: usize = 0;
    while i < digits.len()
        invariant
            i <= digits@.len(),
            digits@ == decimal(n as nat),
            forall|k: int| 0 <= k < digits@.len() ==> '0' <= #[trigger] digits@[k] <= '9',
            text@ == digits@.take(i as int),
        decreases digits@.len() - i,
    {
        text.append(digit_text(digits[i]));
        assert(digits@.take(i + 1) =~= digits@.take(i as int) + seq![digits@[i as int]]);
        i = i + 1;
    }
    assert(digits@.take(digits@.len() as int) =~= digits@);
    text
}

/// Every character of a decimal is a digit.
pub proof fn lemma_decimal_digits(n: nat)
    ensures
        forall|k: int| 0 <= k < decimal(n).len() ==> '0' <= #[trigger] decimal(n)[k] <= '9',
    decreases n,
{
    if n >= 10 {
        lemma_decimal_digits(n / 10);
        let c = (((n % 10) + 48) as u8) as char;
        assert('0' <= c <= '9');
        assert forall|k: int| 0 <= k < decimal(n).len() implies '0' <= #[trigger] decimal(n)[k] <= '9' by {
            if k < decimal(n / 10).len() {
                assert(decimal(n)[k] == decimal(n / 10)[k]);
            }
        }
    } else {
        let c = ((n + 48) as u8) as char;
        assert('0' <= c <= '9');
    }
}


/// Whether two strings hold the same characters.
pub fn str_eq(a: &str, b: &str) -> (r: bool)
    ensures
        r == (a@ == b@),
{
    let x = chars_of(a);
    let y = chars_of(b);
    if x.len() != y.len() {
        return false;
    }
    let mut i: usize = 0;
    while i < x.len()
        invariant
            i <= x@.len(),
            x@.len() == y@.len(),
            x@ == a@,
            y@ == b@,
            forall|k: int| 0 <= k < i ==> x@[k] == y@[k],
        decreases x@.len() - i,
    {
        if x[i] != y[i] {
            return false;
        }
        i = i + 1;
    }
    assert(x@ =~= y@);
    true
}

/// Whether `needle` occurs in `hay` as a contiguous stretch.
pub open spec fn contains_text(hay: Seq<char>, needle: Seq<char>) -> bool {
    exists|i: int| 0 <= i && i + needle.len() <= hay.len() && #[trigger] hay.subrange(i, i + needle.len()) == needle
}

/// Whether `needle` occurs in `hay` (`str::contains`).
pub fn contains_str(hay: &str, needle: &str) -> (r: bool)
    ensures
        r == contains_text(hay@, needle@),
{
    let h = chars_of(hay);
    let n = chars_of(needle);
    if n.len() > h.len() {
        assert forall|i: int| 0 <= i && i + n@.len() <= h@.len() implies #[trigger] hay@.subrange(
            i,
            i + needle@.len(),
        ) != needle@ by {}
        return false;
    }
    let mut i: usize = 0;
    while i <= h.len() - n.len()
        invariant
            n@.len() <= h@.len(),
            i <= h@.len() - n@.len() + 1,
            h@ == hay@,
            n@ == needle@,
            forall|j: int| 0 <= j < i ==> #[trigger] hay@.subrange(j, j + needle@.len()) != needle@,
        decreases h@.len() - i,
    {
        let mut k: usize = 0;
        let mut differ = false;
        while k < n.len() && !differ
            invariant
                k <= n@.len(),
                i + n@.len() <= h@.len(),
                h@ == hay@,
                n@ == needle@,
                differ ==> k < n@.len() && h@[i + k] != n@[k as int],
                forall|q: int| 0 <= q < k ==> h@[i + q] == n@[q],
            decreases n@.len() - k + (if differ { 0int } else { 1int }),
        {
            assert(i + k < h@.len());
            assert(h@.len() == h.len());
            if h[i + k] != n[k] {
                differ = true;
            } else {
                k = k + 1;
            }
        }
        if !differ {
            assert(hay@.subrange(i as int, i + needle@.len()) =~= needle@);
            return true;
        }
        assert(hay@.subrange(i as int, i + needle@.len())[k as int] != needle@[k as int]);
        i = i + 1;
    }
    false
}

} // verus!
