//! Character-level helpers: decimal integers, whitespace trimming, and the
//! bridges between `String` and `Vec<char>`.

use vstd::prelude::*;

verus! {

/// Relies on `str::chars` collected into a `Vec`: the characters of `s` in order.
#[verifier::external_body]
pub(crate) fn chars_of(s: &str) -> (r: Vec<char>)
    ensures
        r@ == s@,
{
    s.chars().collect()
}

/// Relies on `String`'s `FromIterator<char>`: the string of the characters of `v` in order.
#[verifier::external_body]
pub(crate) fn string_of(v: &Vec<char>) -> (r: String)
    ensures
        r@ == v@,
{
    v.iter().collect()
}

pub open spec fn digit_char(d: nat) -> char {
    ('0' as u8 + d) as char
}

pub open spec fn is_digit(c: char) -> bool {
    '0' <= c && c <= '9'
}

pub open spec fn digit_value(c: char) -> nat {
    (c as u32 - '0' as u32) as nat
}

/// Decimal digits of a natural number, most significant first, no leading zeros.
pub open spec fn nat_text(n: nat) -> Seq<char>
    decreases n,
{
    if n < 10 {
        seq![digit_char(n)]
    } else {
        nat_text(n / 10).push(digit_char(n % 10))
    }
}

/// Decimal text of an integer, with a leading `-` when negative.
pub open spec fn int_text(v: int) -> Seq<char> {
    if v < 0 {
        seq!['-'] + nat_text((-v) as nat)
    } else {
        nat_text(v as nat)
    }
}

pub open spec fn all_digits(s: Seq<char>) -> bool {
    forall|i: int| 0 <= i < s.len() ==> is_digit(#[trigger] s[i])
}

/// The value of a run of decimal digits.
pub open spec fn digits_value(s: Seq<char>) -> nat
    decreases s.len(),
{
    if s.len() == 0 {
        0
    } else {
        digits_value(s.drop_last()) * 10 + digit_value(s.last())
    }
}

/// What `i64`'s `FromStr` accepts: an optional sign, then one or more digits,
/// with a value inside the range of `i64`.
pub open spec fn i64_parse(s: Seq<char>) -> Option<i64> {
    let neg = s.len() > 0 && s[0] == '-';
    let body = if s.len() > 0 && (s[0] == '-' || s[0] == '+') { s.skip(1) } else { s };
    let v: int = if neg { -(digits_value(body) as int) } else { digits_value(body) as int };
    if body.len() > 0 && all_digits(body) && i64::MIN <= v <= i64::MAX {
        Some(v as i64)
    } else {
        None
    }
}

/// `char::is_whitespace`: the characters with the Unicode `White_Space` property.
pub open spec fn is_ws(c: char) -> bool {
    ('\t' <= c && c <= '\r') || c == ' ' || c == '\u{85}' || c == '\u{a0}' || c == '\u{1680}'
        || ('\u{2000}' <= c && c <= '\u{200a}') || c == '\u{2028}' || c == '\u{2029}'
        || c == '\u{202f}' || c == '\u{205f}' || c == '\u{3000}'
}

/// `s` without its trailing whitespace.
pub open spec fn trim_end(s: Seq<char>) -> Seq<char>
    decreases s.len(),
{
    if s.len() > 0 && is_ws(s.last()) {
        trim_end(s.drop_last())
    } else {
        s
    }
}

/// `s` without its leading whitespace.
pub open spec fn trim_start(s: Seq<char>) -> Seq<char>
    decreases s.len(),
{
    if s.len() > 0 && is_ws(s[0]) {
        trim_start(s.skip(1))
    } else {
        s
    }
}

pub fn char_is_ws(c: char) -> (r: bool)
    ensures
        r == is_ws(c),
{
    ('\t' <= c && c <= '\r') || c == ' ' || c == '\u{85}' || c == '\u{a0}' || c == '\u{1680}'
        || ('\u{2000}' <= c && c <= '\u{200a}') || c == '\u{2028}' || c == '\u{2029}'
        || c == '\u{202f}' || c == '\u{205f}' || c == '\u{3000}'
}

/// Removes trailing whitespace in place.
pub fn trim_end_in_place(v: &mut Vec<char>)
    ensures
        final(v)@ == trim_end(old(v)@),
{
    while v.len() > 0 && char_is_ws(v[v.len() - 1])
        invariant
            trim_end(v@) == trim_end(old(v)@),
        decreases v.len(),
    {
        assert(v@.drop_last() == v@.subrange(0, v.len() - 1));
        v.pop();
    }
}

/// The characters of `s` from `start` on, without leading whitespace.
pub fn trim_start_from(s: &Vec<char>, start: usize) -> (r: usize)
    requires
        start <= s.len(),
    ensures
        start <= r <= s.len(),
        s@.subrange(r as int, s.len() as int) == trim_start(s@.subrange(start as int, s.len() as int)),
{
    let mut i = start;
    while i < s.len() && char_is_ws(s[i])
        invariant
            start <= i <= s.len(),
            trim_start(s@.subrange(i as int, s.len() as int)) == trim_start(
                s@.subrange(start as int, s.len() as int),
            ),
        decreases s.len() - i,
    {
        assert(s@.subrange(i as int, s.len() as int).skip(1) == s@.subrange(i + 1, s.len() as int));
        i = i + 1;
    }
    i
}

pub fn push_all(out: &mut Vec<char>, s: &Vec<char>)
    ensures
        final(out)@ == old(out)@ + s@,
{
    let mut i: usize = 0;
    while i < s.len()
        invariant
            i <= s.len(),
            out@ == old(out)@ + s@.take(i as int),
        decreases s.len() - i,
    {
        out.push(s[i]);
        i = i + 1;
        assert(s@.take(i as int) == s@.take(i - 1).push(s@[i - 1]));
    }
    assert(s@.take(s.len() as int) == s@);
}

pub fn push_str(out: &mut Vec<char>, s: &str)
    ensures
        final(out)@ == old(out)@ + s@,
{
    let v = chars_of(s);
    push_all(out, &v);
}

/// Appends the decimal digits of `n`.
pub fn push_nat(out: &mut Vec<char>, n: u64)
    ensures
        final(out)@ == old(out)@ + nat_text(n as nat),
    decreases n,
{
    if n >= 10 {
        push_nat(out, n / 10);
    }
    let d = (n % 10) as u8;
    out.push(('0' as u8 + d) as char);
    assert(nat_text(n as nat) == if n < 10 { seq![digit_char(n as nat)] } else { nat_text((n / 10) as nat).push(digit_char((n % 10) as nat)) });
}

/// Appends the decimal text of `v`.
pub fn push_int(out: &mut Vec<char>, v: i64)
    ensures
        final(out)@ == old(out)@ + int_text(v as int),
{
    if v < 0 {
        out.push('-');
        let m: u64 = ((-(v + 1)) as u64) + 1;
        push_nat(out, m);
        assert(old(out)@.push('-') + nat_text(m as nat) == old(out)@ + int_text(v as int));
    } else {
        push_nat(out, v as u64);
    }
}

proof fn lemma_digits_value_prefix(s: Seq<char>, j: int)
    requires
        0 <= j <= s.len(),
    ensures
        digits_value(s.take(j)) <= digits_value(s),
    decreases s.len(),
{
    if j < s.len() {
        lemma_digits_value_prefix(s.drop_last(), j);
        assert(s.drop_last().take(j) == s.take(j));
    } else {
        assert(s.take(j) == s);
    }
}

/// Parses an `i64` as `i64`'s `FromStr` does.
pub fn parse_i64(s: &Vec<char>, start: usize, end: usize) -> (r: Option<i64>)
    requires
        start <= end <= s.len(),
    ensures
        r == i64_parse(s@.subrange(start as int, end as int)),
{
    let ghost t = s@.subrange(start as int, end as int);
    let mut i = start;
    let mut neg = false;
    if i < end && (s[i] == '-' || s[i] == '+') {
        neg = s[i] == '-';
        i = i + 1;
    }
    let body_start = i;
    let ghost body = s@.subrange(body_start as int, end as int);
    assert(body == if t.len() > 0 && (t[0] == '-' || t[0] == '+') { t.skip(1) } else { t });
    if body_start == end {
        return None;
    }
    let mut m: u128 = 0;
    let limit: u128 = 9223372036854775808;
    while i < end
        invariant
            body_start <= i <= end <= s.len(),
            body == s@.subrange(body_start as int, end as int),
            t == s@.subrange(start as int, end as int),
            body == (if t.len() > 0 && (t[0] == '-' || t[0] == '+') { t.skip(1) } else { t }),
            neg == (t.len() > 0 && t[0] == '-'),
            m == digits_value(s@.subrange(body_start as int, i as int)),
            m <= limit,
            limit == 9223372036854775808,
            all_digits(s@.subrange(body_start as int, i as int)),
        decreases end - i,
    {
        let c = s[i];
        if !('0' <= c && c <= '9') {
            assert(body[i - body_start] == c);
            assert(!all_digits(body));
            return None;
        }
        let ghost before = s@.subrange(body_start as int, i as int);
        m = m * 10 + (c as u32 - '0' as u32) as u128;
        i = i + 1;
        let ghost now = s@.subrange(body_start as int, i as int);
        assert(now.drop_last() =~= before);
        assert(now.last() == c);
        if m > limit {
            proof {
                lemma_digits_value_prefix(body, i - body_start);
                assert(body.take(i - body_start) =~= now);
                assert(digits_value(body) > 9223372036854775808);
            }
            return None;
        }
    }
    assert(s@.subrange(body_start as int, i as int) == body);
    if neg {
        let v: i128 = -(m as i128);
        Some(v as i64)
    } else if m == limit {
        None
    } else {
        Some(m as i64)
    }
}

/// Index of the first `c` in `s`, or the length of `s` where there is none.
pub open spec fn index_of(s: Seq<char>, c: char) -> int
    decreases s.len(),
{
    if s.len() == 0 {
        0
    } else if s[0] == c {
        0
    } else {
        1 + index_of(s.skip(1), c)
    }
}

pub open spec fn clamp_i32(v: int) -> i32 {
    if v < i32::MIN {
        i32::MIN
    } else if v > i32::MAX {
        i32::MAX
    } else {
        v as i32
    }
}

/// A money amount written as a JSON number without exponent (`-`? digits, then
/// optionally `.` and digits), rounded to the nearest integer with halves away
/// from zero, and saturated to the range of `i32`.
pub open spec fn amount_value(t: Seq<char>) -> Option<i32> {
    let neg = t.len() > 0 && t[0] == '-';
    let body = if neg { t.skip(1) } else { t };
    let dot = index_of(body, '.');
    let whole = body.take(dot);
    let frac = if dot < body.len() { body.skip(dot + 1) } else { seq![] };
    let up: nat = if frac.len() > 0 && frac[0] >= '5' { 1 } else { 0 };
    let mag = digits_value(whole) + up;
    if whole.len() > 0 && all_digits(whole) && (dot == body.len() || (frac.len() > 0 && all_digits(
        frac,
    ))) {
        Some(clamp_i32(if neg { -mag } else { mag as int }))
    } else {
        None
    }
}

/// Finds the first `c` in `s[start..end]`; gives `end` where there is none.
pub fn find_char(s: &Vec<char>, start: usize, end: usize, c: char) -> (r: usize)
    requires
        start <= end <= s.len(),
    ensures
        r as int == start + index_of(s@.subrange(start as int, end as int), c),
        start <= r <= end,
{
    let mut i = start;
    while i < end
        invariant
            start <= i <= end <= s.len(),
            index_of(s@.subrange(start as int, end as int), c) == (i - start) + index_of(
                s@.subrange(i as int, end as int),
                c,
            ),
        decreases end - i,
    {
        if s[i] == c {
            return i;
        }
        assert(s@.subrange(i as int, end as int).skip(1) =~= s@.subrange(i + 1, end as int));
        i = i + 1;
    }
    i
}

/// Reads a money amount, as `amount_value` describes.
pub fn parse_amount(t: &Vec<char>) -> (r: Option<i32>)
    ensures
        r == amount_value(t@),
{
    let neg = t.len() > 0 && t[0] == '-';
    let start: usize = if neg { 1 } else { 0 };
    let ghost body = t@.subrange(start as int, t.len() as int);
    assert(body =~= if neg { t@.skip(1) } else { t@ });
    let dot = find_char(t, start, t.len(), '.');
    let ghost whole = t@.subrange(start as int, dot as int);
    assert(whole =~= body.take(dot - start));
    if dot == start {
        return None;
    }
    let cap: u64 = 2147483648;
    let mut m: u64 = 0;
    let mut i = start;
    while i < dot
        invariant
            start <= i <= dot <= t.len(),
            cap == 2147483648,
            whole == t@.subrange(start as int, dot as int),
            body == (if neg { t@.skip(1) } else { t@ }),
            neg == (t.len() > 0 && t[0] == '-'),
            start == (if neg { 1usize } else { 0usize }),
            dot - start == index_of(body, '.'),
            whole == body.take(dot - start),
            m <= cap,
            all_digits(t@.subrange(start as int, i as int)),
            m == (if digits_value(t@.subrange(start as int, i as int)) < cap {
                digits_value(t@.subrange(start as int, i as int))
            } else {
                cap as nat
            }),
        decreases dot - i,
    {
        let c = t[i];
        if !('0' <= c && c <= '9') {
            assert(whole[i - start] == c);
            return None;
        }
        let ghost before = t@.subrange(start as int, i as int);
        i = i + 1;
        let ghost now = t@.subrange(start as int, i as int);
        assert(now.drop_last() =~= before);
        let d = (c as u32 - '0' as u32) as u64;
        if m < cap {
            m = m * 10 + d;
            if m > cap {
                m = cap;
            }
        }
    }
    assert(t@.subrange(start as int, i as int) =~= whole);
    let mut up: u64 = 0;
    if dot < t.len() {
        let ghost frac = t@.subrange(dot + 1, t.len() as int);
        assert(frac =~= body.skip(dot - start + 1));
        if dot + 1 == t.len() {
            return None;
        }
        let mut j = dot + 1;
        while j < t.len()
            invariant
                dot + 1 <= j <= t.len(),
                frac == t@.subrange(dot + 1, t.len() as int),
                frac == body.skip(dot - start + 1),
                body == (if neg { t@.skip(1) } else { t@ }),
                neg == (t.len() > 0 && t[0] == '-'),
                dot - start == index_of(body, '.'),
                all_digits(t@.subrange(dot + 1, j as int)),
            decreases t.len() - j,
        {
            if !('0' <= t[j] && t[j] <= '9') {
                assert(frac[j - dot - 1] == t[j as int]);
                return None;
            }
            j = j + 1;
            assert(t@.subrange(dot + 1, j as int).drop_last() =~= t@.subrange(dot + 1, j - 1));
        }
        assert(t@.subrange(dot + 1, j as int) =~= frac);
        if t[dot + 1] >= '5' {
            up = 1;
        }
    }
    let mag: u64 = m + up;
    if neg {
        if mag >= cap {
            Some(i32::MIN)
        } else {
            Some(-(mag as i64) as i32)
        }
    } else {
        if mag >= cap {
            Some(i32::MAX)
        } else {
            Some(mag as i32)
        }
    }
}

/// The decimal text of a natural number is a non-empty run of digits worth it.
pub proof fn lemma_nat_text(n: nat)
    ensures
        nat_text(n).len() > 0,
        all_digits(nat_text(n)),
        digits_value(nat_text(n)) == n,
    decreases n,
{
    let d = (n % 10) as nat;
    assert(digit_value(digit_char(d)) == d);
    assert(is_digit(digit_char(d)));
    if n >= 10 {
        lemma_nat_text(n / 10);
        let t = nat_text(n);
        assert(t.drop_last() =~= nat_text(n / 10));
        assert(t.last() == digit_char(d));
        assert(digits_value(t) == digits_value(nat_text(n / 10)) * 10 + d);
        assert((n / 10) * 10 + d == n);
        assert(digits_value(t) == n);
        assert forall|i: int| 0 <= i < t.len() implies is_digit(#[trigger] t[i]) by {
            if i < t.len() - 1 {
                assert(t[i] == nat_text(n / 10)[i]);
            }
        }
    } else {
        let t = nat_text(n);
        assert(t.drop_last() =~= Seq::<char>::empty());
        assert(t.last() == digit_char(d));
        assert(d == n);
        assert(digits_value(t.drop_last()) == 0);
        assert(digits_value(t) == n);
    }
}

/// `i64`'s `FromStr` reads back the decimal text of every `i64`.
pub proof fn lemma_int_text_parses(v: i64)
    ensures
        i64_parse(int_text(v as int)) == Some(v),
{
    if v < 0 {
        let n = (-(v as int)) as nat;
        lemma_nat_text(n);
        let s = int_text(v as int);
        assert(s.skip(1) =~= nat_text(n));
    } else {
        lemma_nat_text(v as nat);
        let s = int_text(v as int);
        assert(is_digit(s[0]));
    }
}

/// The decimal text of an integer holds digits and `-` only, and ends with a digit.
pub proof fn lemma_int_text_chars(v: int)
    ensures
        forall|i: int| 0 <= i < int_text(v).len() ==> #[trigger] int_text(v)[i] == '-' || is_digit(
            int_text(v)[i],
        ),
        int_text(v).len() > 0,
        is_digit(int_text(v).last()),
{
    let n: nat = if v < 0 { (-v) as nat } else { v as nat };
    lemma_nat_text(n);
    let t = nat_text(n);
    assert(is_digit(t[t.len() - 1]));
    if v < 0 {
        let s = int_text(v);
        assert forall|i: int| 0 <= i < s.len() implies #[trigger] s[i] == '-' || is_digit(s[i]) by {
            if i > 0 {
                assert(s[i] == t[i - 1]);
            }
        }
        assert(s.last() == t.last());
    }
}

} // verus!
