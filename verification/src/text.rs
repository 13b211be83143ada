//! Character-level helpers shared by the rest of the library: Unicode
//! whitespace, trimming, UTF-8 widths, and building `String`s char by char.

use vstd::prelude::*;
use vstd::string::StringExecFns;

verus! {

/// `String::push`: appends one character.
#[verifier::external_body]
pub(crate) fn push_char(s: &mut String, c: char)
    ensures
        final(s)@ == old(s)@.push(c),
{
    s.push(c)
}

/// The characters of `s`, in order.
pub fn chars_of(s: &str) -> (v: Vec<char>)
    ensures
        v@ == s@,
{
    let mut v: Vec<char> = Vec::new();
    for c in it: s.chars()
        invariant
            it.seq() == s@,
            v@ == s@.take(it.index()),
            v@.len() == it.index(),
    {
        v.push(c);
        assert(s@.take(it.index() + 1) == s@.take(it.index()).push(c));
    }
    v
}

/// A `String` holding exactly the characters `v[from..to]`.
pub fn string_from_chars(v: &Vec<char>, from: usize, to: usize) -> (s: String)
    requires
        from <= to <= v.len(),
    ensures
        s@ == v@.subrange(from as int, to as int),
{
    let mut s = String::new();
    let mut i = from;
    while i < to
        invariant
            from <= i <= to <= v.len(),
            s@ == v@.subrange(from as int, i as int),
        decreases to - i,
    {
        push_char(&mut s, v[i]);
        assert(v@.subrange(from as int, i + 1) == v@.subrange(from as int, i as int).push(v@[i as int]));
        i += 1;
    }
    s
}

/// Unicode `White_Space`: the characters for which `char::is_whitespace` holds.
pub open spec fn is_ws(c: char) -> bool {
    let u = c as u32;
    ||| 0x09 <= u <= 0x0D
    ||| u == 0x20
    ||| u == 0x85
    ||| u == 0xA0
    ||| u == 0x1680
    ||| 0x2000 <= u <= 0x200A
    ||| u == 0x2028
    ||| u == 0x2029
    ||| u == 0x202F
    ||| u == 0x205F
    ||| u == 0x3000
}

/// Whether `c` is Unicode whitespace.
pub fn is_whitespace(c: char) -> (b: bool)
    ensures
        b == is_ws(c),
{
    let u = c as u32;
    (0x09 <= u && u <= 0x0D) || u == 0x20 || u == 0x85 || u == 0xA0 || u == 0x1680 || (0x2000
        <= u && u <= 0x200A) || u == 0x2028 || u == 0x2029 || u == 0x202F || u == 0x205F || u
        == 0x3000
}

/// `s` without its leading whitespace.
pub open spec fn trim_start(s: Seq<char>) -> Seq<char>
    decreases s.len(),
{
    if s.len() > 0 && is_ws(s[0]) {
        trim_start(s.drop_first())
    } else {
        s
    }
}

/// `s` without its trailing whitespace.
pub open spec fn trim_end(s: Seq<char>) -> Seq<char>
    decreases s.len(),
{
    if s.len() > 0 && is_ws(s.last()) {
        trim_end(s.drop_last())
    } else {
        s
    }
}

/// `s` without leading and trailing whitespace, as `str::trim` gives it.
pub open spec fn trim(s: Seq<char>) -> Seq<char> {
    trim_end(trim_start(s))
}

/// The bounds `[a, b)` of `v[from..to]` with leading and trailing
/// whitespace removed.
pub fn trim_bounds(v: &Vec<char>, from: usize, to: usize) -> (r: (usize, usize))
    requires
        from <= to <= v.len(),
    ensures
        from <= r.0 <= r.1 <= to,
        v@.subrange(r.0 as int, r.1 as int) == trim(v@.subrange(from as int, to as int)),
{
    let mut a = from;
    while a < to && is_whitespace(v[a])
        invariant
            from <= a <= to <= v.len(),
            trim_start(v@.subrange(from as int, to as int)) == trim_start(
                v@.subrange(a as int, to as int),
            ),
        decreases to - a,
    {
        assert(v@.subrange(a as int, to as int).drop_first() == v@.subrange(a + 1, to as int));
        a += 1;
    }
    assert(trim_start(v@.subrange(a as int, to as int)) == v@.subrange(a as int, to as int));
    let mut b = to;
    while b > a && is_whitespace(v[b - 1])
        invariant
            from <= a <= b <= to <= v.len(),
            trim_end(v@.subrange(a as int, to as int)) == trim_end(v@.subrange(a as int, b as int)),
        decreases b - a,
    {
        assert(v@.subrange(a as int, b as int).drop_last() == v@.subrange(a as int, b - 1));
        b -= 1;
    }
    assert(trim_end(v@.subrange(a as int, b as int)) == v@.subrange(a as int, b as int));
    (a, b)
}

/// A `String` holding `s` without leading and trailing whitespace.
pub fn trimmed(s: &str) -> (r: String)
    ensures
        r@ == trim(s@),
{
    let v = chars_of(s);
    let (a, b) = trim_bounds(&v, 0, v.len());
    assert(v@.subrange(0, v@.len() as int) == v@);
    string_from_chars(&v, a, b)
}

/// Whether `c` is an ASCII decimal digit.
pub open spec fn is_digit(c: char) -> bool {
    '0' <= c <= '9'
}

/// The value of the ASCII digit `c`.
pub open spec fn digit_value(c: char) -> int {
    c as int - '0' as int
}

/// The decimal value of a digit string (0 for the empty string).
pub open spec fn decimal_value(s: Seq<char>) -> int
    decreases s.len(),
{
    if s.len() == 0 {
        0
    } else {
        decimal_value(s.drop_last()) * 10 + digit_value(s.last())
    }
}

/// Whether every character of `s` is an ASCII decimal digit.
pub open spec fn all_digits(s: Seq<char>) -> bool {
    forall|i: int| 0 <= i < s.len() ==> is_digit(#[trigger] s[i])
}

/// What `str::parse::<u16>` gives: an optional `+`, then one or more ASCII
/// digits whose value fits in a `u16`.
pub open spec fn parse_u16_text(s: Seq<char>) -> Option<u16> {
    let d = if s.len() > 0 && s[0] == '+' {
        s.drop_first()
    } else {
        s
    };
    if d.len() > 0 && all_digits(d) && decimal_value(d) <= u16::MAX {
        Some(decimal_value(d) as u16)
    } else {
        None
    }
}

proof fn lemma_decimal_value_nonneg(s: Seq<char>)
    requires
        all_digits(s),
    ensures
        decimal_value(s) >= 0,
    decreases s.len(),
{
    if s.len() > 0 {
        lemma_decimal_value_nonneg(s.drop_last());
    }
}

proof fn lemma_decimal_value_grows(s: Seq<char>, i: int)
    requires
        all_digits(s),
        0 <= i <= s.len(),
    ensures
        decimal_value(s.take(i)) <= decimal_value(s),
    decreases s.len() - i,
{
    if i < s.len() {
        lemma_decimal_value_grows(s, i + 1);
        assert(s.take(i + 1).drop_last() == s.take(i));
        lemma_decimal_value_nonneg(s.take(i));
    } else {
        assert(s.take(i) == s);
    }
}

/// Parse `s` as `str::parse::<u16>` does.
pub fn parse_u16(s: &str) -> (r: Option<u16>)
    ensures
        r == parse_u16_text(s@),
{
    let v = chars_of(s);
    let n = v.len();
    let start: usize = if n > 0 && v[0] == '+' {
        1
    } else {
        0
    };
    let ghost d = v@.subrange(start as int, n as int);
    assert(d == (if s@.len() > 0 && s@[0] == '+' {
        s@.drop_first()
    } else {
        s@
    }));
    if start == n {
        return None;
    }
    let mut acc: u32 = 0;
    let mut i = start;
    while i < n
        invariant
            start <= i <= n == v.len(),
            start < n,
            v@ == s@,
            d == v@.subrange(start as int, n as int),
            d == (if s@.len() > 0 && s@[0] == '+' {
                s@.drop_first()
            } else {
                s@
            }),
            all_digits(d.take(i - start)),
            acc as int == decimal_value(d.take(i - start)),
            acc <= u16::MAX,
        decreases n - i,
    {
        let c = v[i];
        if !('0' <= c && c <= '9') {
            assert(d[i - start] == c);
            assert(!all_digits(d));
            return None;
        }
        let dv = (c as u32) - ('0' as u32);
        assert(d.take(i - start + 1).drop_last() == d.take(i - start));
        acc = acc * 10 + dv;
        if acc > 65535 {
            proof {
                assert(all_digits(d.take(i - start + 1)));
                if all_digits(d) {
                    lemma_decimal_value_grows(d, i - start + 1);
                }
            }
            return None;
        }
        i += 1;
    }
    assert(d.take(n - start) == d);
    Some(acc as u16)
}

/// The ASCII digit for `d < 10`.
pub open spec fn digit_char(d: int) -> char {
    (d + '0' as int) as char
}

/// The decimal text of `n`, as `to_string` writes it.
pub open spec fn decimal_text(n: nat) -> Seq<char>
    decreases n,
{
    if n < 10 {
        seq![digit_char(n as int)]
    } else {
        decimal_text(n / 10).push(digit_char((n % 10) as int))
    }
}

/// The decimal text of `n`.
pub fn decimal_string(n: u64) -> (r: String)
    ensures
        r@ == decimal_text(n as nat),
{
    let mut digits: Vec<char> = Vec::new();
    let mut m = n;
    // digits holds the low-order digits of n, most significant last
    let ghost mut low: Seq<char> = Seq::empty();
    while m >= 10
        invariant
            decimal_text(n as nat) == decimal_text(m as nat) + low,
            digits@ == low.reverse(),
        decreases m,
    {
        let d = (m % 10) as u8;
        let c = (d + 48u8) as char;
        proof {
            assert(decimal_text(m as nat) == decimal_text((m / 10) as nat).push(digit_char((m % 10) as int)));
            assert(decimal_text((m / 10) as nat).push(digit_char((m % 10) as int)) + low
                == decimal_text((m / 10) as nat) + seq![digit_char((m % 10) as int)] + low);
        }
        digits.push(c);
        proof {
            low = seq![c] + low;
        }
        m = m / 10;
    }
    let c = ((m as u8) + 48u8) as char;
    digits.push(c);
    proof {
        low = seq![c] + low;
    }
    let mut r = String::new();
    let mut i = digits.len();
    while i > 0
        invariant
            i <= digits.len(),
            r@ == low.subrange(0, (digits.len() - i) as int),
            digits@ == low.reverse(),
        decreases i,
    {
        i -= 1;
        push_char(&mut r, digits[i]);
    }
    r
}

/// Whether `pat` occurs in `s` at position `i`.
pub open spec fn occurs_at(s: Seq<char>, pat: Seq<char>, i: int) -> bool {
    0 <= i && i + pat.len() <= s.len() && s.subrange(i, i + pat.len()) == pat
}

/// The first position at or after `i` where `pat` occurs in `s`.
pub open spec fn find_from(s: Seq<char>, pat: Seq<char>, i: int) -> Option<int>
    decreases s.len() + 1 - i,
{
    if i < 0 || i + pat.len() > s.len() {
        None
    } else if occurs_at(s, pat, i) {
        Some(i)
    } else {
        find_from(s, pat, i + 1)
    }
}

/// `find_from` gives the first occurrence at or after `i`, or none at all.
pub proof fn lemma_find_from(s: Seq<char>, pat: Seq<char>, i: int)
    requires
        0 <= i,
    ensures
        find_from(s, pat, i) matches Some(k) ==> i <= k && occurs_at(s, pat, k) && forall|j: int|
            i <= j < k ==> !occurs_at(s, pat, j),
        find_from(s, pat, i) is None ==> forall|j: int| i <= j ==> !occurs_at(s, pat, j),
    decreases s.len() + 1 - i,
{
    if i + pat.len() <= s.len() && !occurs_at(s, pat, i) {
        lemma_find_from(s, pat, i + 1);
    }
}

/// The first position at or after `from` where `pat` occurs in `v`.
pub fn find_chars(v: &Vec<char>, pat: &Vec<char>, from: usize) -> (r: Option<usize>)
    requires
        from <= v.len(),
    ensures
        r matches Some(k) ==> find_from(v@, pat@, from as int) == Some(k as int),
        r is None ==> find_from(v@, pat@, from as int) is None,
{
    let n = v.len();
    let m = pat.len();
    if m > n {
        return None;
    }
    let mut i = from;
    while i <= n - m
        invariant
            from <= i,
            n == v.len(),
            m == pat.len(),
            m <= n,
            find_from(v@, pat@, from as int) == find_from(v@, pat@, i as int),
        decreases n - i,
    {
        let mut j: usize = 0;
        while j < m && v[i + j] == pat[j]
            invariant
                j <= m,
                i + m <= n == v.len(),
                m == pat.len(),
                forall|t: int| 0 <= t < j ==> v@[i + t] == pat@[t],
            decreases m - j,
        {
            j += 1;
        }
        if j == m {
            assert(v@.subrange(i as int, i + m) == pat@);
            return Some(i);
        }
        assert(v@.subrange(i as int, i + m)[j as int] != pat@[j as int]);
        i += 1;
    }
    None
}

/// A first occurrence at `k`, with none before it from `i` on, is what
/// `find_from` finds from `i`.
pub proof fn lemma_find_first(s: Seq<char>, pat: Seq<char>, i: int, k: int)
    requires
        0 <= i <= k,
        occurs_at(s, pat, k),
        forall|j: int| i <= j < k ==> !occurs_at(s, pat, j),
    ensures
        find_from(s, pat, i) == Some(k),
    decreases k - i,
{
    if i < k {
        lemma_find_first(s, pat, i + 1, k);
    }
}

/// Occurrences in a suffix are the occurrences in the whole sequence, shifted.
pub proof fn lemma_occurs_shift(s: Seq<char>, pat: Seq<char>, start: int, j: int)
    requires
        0 <= start <= s.len(),
        0 <= j,
    ensures
        occurs_at(s.subrange(start, s.len() as int), pat, j) == occurs_at(s, pat, start + j),
{
    let sub = s.subrange(start, s.len() as int);
    if j + pat.len() <= sub.len() {
        assert(sub.subrange(j, j + pat.len()) == s.subrange(start + j, start + j + pat.len()));
    }
}

/// Searching a suffix finds the first occurrence in the whole sequence at or
/// after the suffix's start, shifted.
pub proof fn lemma_find_shift(s: Seq<char>, pat: Seq<char>, start: int)
    requires
        0 <= start <= s.len(),
    ensures
        find_from(s.subrange(start, s.len() as int), pat, 0) == (match find_from(s, pat, start) {
            Some(k) => Some(k - start),
            None => None::<int>,
        }),
{
    let sub = s.subrange(start, s.len() as int);
    lemma_find_from(s, pat, start);
    lemma_find_from(sub, pat, 0);
    match find_from(s, pat, start) {
        Some(k) => {
            lemma_occurs_shift(s, pat, start, k - start);
            assert forall|j: int| 0 <= j < k - start implies !occurs_at(sub, pat, j) by {
                lemma_occurs_shift(s, pat, start, j);
            }
            lemma_find_first(sub, pat, 0, k - start);
        },
        None => {
            if find_from(sub, pat, 0) is Some {
                let k = find_from(sub, pat, 0)->0;
                lemma_occurs_shift(s, pat, start, k);
            }
        },
    }
}

/// The number of bytes of `c` in UTF-8.
pub open spec fn char_width(c: char) -> nat {
    let u = c as u32;
    if u < 0x80 {
        1
    } else if u < 0x800 {
        2
    } else if u < 0x10000 {
        3
    } else {
        4
    }
}

/// The number of bytes of `s` in UTF-8, as `str::len` counts them.
pub open spec fn utf8_len(s: Seq<char>) -> nat
    decreases s.len(),
{
    if s.len() == 0 {
        0
    } else {
        char_width(s[0]) + utf8_len(s.drop_first())
    }
}

/// `utf8_len` is the length of the UTF-8 encoding.
pub proof fn lemma_utf8_len(s: Seq<char>)
    ensures
        utf8_len(s) == vstd::utf8::encode_utf8(s).len(),
    decreases s.len(),
{
    if s.len() > 0 {
        lemma_utf8_len(s.drop_first());
        vstd::utf8::char_is_scalar(s[0]);
    }
}

/// `utf8_len` adds up over concatenation.
pub proof fn lemma_utf8_len_concat(a: Seq<char>, b: Seq<char>)
    ensures
        utf8_len(a + b) == utf8_len(a) + utf8_len(b),
    decreases a.len(),
{
    if a.len() > 0 {
        lemma_utf8_len_concat(a.drop_first(), b);
        assert((a + b).drop_first() == a.drop_first() + b);
    } else {
        assert(a + b == b);
    }
}

/// The number of bytes of `c` in UTF-8.
pub fn char_len_utf8(c: char) -> (n: usize)
    ensures
        n == char_width(c),
{
    let u = c as u32;
    if u < 0x80 {
        1
    } else if u < 0x800 {
        2
    } else if u < 0x10000 {
        3
    } else {
        4
    }
}

/// The number of bytes of `v[from..to]` in UTF-8, saturating at `usize::MAX`.
pub fn utf8_len_of(v: &Vec<char>, from: usize, to: usize) -> (n: usize)
    requires
        from <= to <= v.len(),
    ensures
        n == (if utf8_len(v@.subrange(from as int, to as int)) > usize::MAX {
            usize::MAX as nat
        } else {
            utf8_len(v@.subrange(from as int, to as int))
        }),
{
    let mut n: usize = 0;
    let mut i = to;
    // sum the widths from the back: v[i..to] is counted
    while i > from
        invariant
            from <= i <= to <= v.len(),
            n == (if utf8_len(v@.subrange(i as int, to as int)) > usize::MAX {
                usize::MAX as nat
            } else {
                utf8_len(v@.subrange(i as int, to as int))
            }),
        decreases i - from,
    {
        i -= 1;
        let w = char_len_utf8(v[i]);
        assert(v@.subrange(i as int, to as int).drop_first() == v@.subrange(i + 1, to as int));
        if n > usize::MAX - w {
            n = usize::MAX;
        } else {
            n = n + w;
        }
    }
    n
}

/// Whether `a` and `b` hold the same characters.
pub fn str_eq(a: &str, b: &str) -> (r: bool)
    ensures
        r == (a@ == b@),
{
    let va = chars_of(a);
    let vb = chars_of(b);
    if va.len() != vb.len() {
        return false;
    }
    let mut i: usize = 0;
    while i < va.len()
        invariant
            i <= va.len() == vb.len(),
            va@ == a@,
            vb@ == b@,
            forall|j: int| 0 <= j < i ==> va@[j] == vb@[j],
        decreases va.len() - i,
    {
        if va[i] != vb[i] {
            assert(a@[i as int] != b@[i as int]);
            return false;
        }
        i += 1;
    }
    assert(va@ == vb@);
    true
}

proof fn lemma_decimal_text(n: nat)
    ensures
        decimal_text(n).len() > 0,
        all_digits(decimal_text(n)),
        decimal_value(decimal_text(n)) == n,
    decreases n,
{
    if n >= 10 {
        lemma_decimal_text(n / 10);
        let s = decimal_text(n / 10);
        let c = digit_char((n % 10) as int);
        assert(s.push(c).drop_last() == s);
        assert(is_digit(c));
        assert(digit_value(c) == n % 10);
        assert(decimal_value(s.push(c)) == decimal_value(s) * 10 + digit_value(c));
        assert((n / 10) * 10 + n % 10 == n) by (nonlinear_arith);
        assert(decimal_text(n) == s.push(c));
        assert(decimal_value(s) == n / 10);
        assert(decimal_value(decimal_text(n)) == n);
        assert forall|i: int| 0 <= i < s.push(c).len() implies is_digit(#[trigger] s.push(c)[i]) by {
            if i < s.len() {
                assert(s.push(c)[i] == s[i]);
            }
        }
    } else {
        let s = decimal_text(n);
        assert(s.drop_last() == Seq::<char>::empty());
        assert(digit_value(digit_char(n as int)) == n);
        assert(decimal_value(s) == decimal_value(s.drop_last()) * 10 + digit_value(s.last()));
        assert(decimal_value(decimal_text(n)) == n);
    }
}

/// Reading back the decimal text of a port gives the port: what
/// `decimal_string` writes, `parse_u16` reads.
pub proof fn law_port_text_round_trip(n: u16)
    ensures
        parse_u16_text(decimal_text(n as nat)) == Some(n),
{
    lemma_decimal_text(n as nat);
    let s = decimal_text(n as nat);
    assert(is_digit(s[0]));
}

} // verus!
