//! Decimal integers: how they are written and read back, and the syntax of
//! the decimal floating-point literals that `f64::from_str` accepts.

use vstd::prelude::*;
use crate::text::{copy_range, string_of};

verus! {

/// An ASCII decimal digit.
pub open spec fn is_digit(c: char) -> bool {
    '0' <= c && c <= '9'
}

/// Every character of `s` is a decimal digit.
pub open spec fn all_digits(s: Seq<char>) -> bool {
    forall|i: int| 0 <= i < s.len() ==> is_digit(#[trigger] s[i])
}

/// The value of the decimal digit `c`.
pub open spec fn digit_value(c: char) -> int {
    (c as u32) - ('0' as u32)
}

/// The decimal digit whose value is `d` (for `0 <= d <= 9`).
pub open spec fn digit_char(d: int) -> char {
    if d <= 0 {
        '0'
    } else if d == 1 {
        '1'
    } else if d == 2 {
        '2'
    } else if d == 3 {
        '3'
    } else if d == 4 {
        '4'
    } else if d == 5 {
        '5'
    } else if d == 6 {
        '6'
    } else if d == 7 {
        '7'
    } else if d == 8 {
        '8'
    } else {
        '9'
    }
}

/// The shortest decimal writing of `n`, most significant digit first.
pub open spec fn nat_text(n: nat) -> Seq<char>
    decreases n,
{
    if n < 10 {
        seq![digit_char(n as int)]
    } else {
        nat_text(n / 10).push(digit_char((n % 10) as int))
    }
}

/// The decimal writing of `i`: a minus sign before negative numbers.
pub open spec fn int_text(i: int) -> Seq<char> {
    if i < 0 {
        seq!['-'] + nat_text((-i) as nat)
    } else {
        nat_text(i as nat)
    }
}

/// The number written by the decimal digits `s` (0 for the empty text).
pub open spec fn digits_value(s: Seq<char>) -> int
    decreases s.len(),
{
    if s.len() == 0 {
        0
    } else {
        digits_value(s.drop_last()) * 10 + digit_value(s.last())
    }
}

/// `s` without a leading `+` or `-`, and whether that sign was `-`.
pub open spec fn split_sign(s: Seq<char>) -> (bool, Seq<char>) {
    if s.len() > 0 && (s[0] == '+' || s[0] == '-') {
        (s[0] == '-', s.drop_first())
    } else {
        (false, s)
    }
}

/// What `i64::from_str` gives for `s`: an optional sign, then one or more
/// decimal digits whose value fits in an `i64`; `None` for anything else.
pub open spec fn parse_i64(s: Seq<char>) -> Option<i64> {
    let (negative, body) = split_sign(s);
    let magnitude = digits_value(body);
    let value = if negative {
        -magnitude
    } else {
        magnitude
    };
    if body.len() == 0 || !all_digits(body) || value < i64::MIN || value > i64::MAX {
        None
    } else {
        Some(value as i64)
    }
}

/// The first index of `s` that holds `a` or `b`, or `s.len()` if none does.
pub open spec fn first_of(s: Seq<char>, a: char, b: char) -> int
    decreases s.len(),
{
    if s.len() == 0 {
        0
    } else if s[0] == a || s[0] == b {
        0
    } else {
        1 + first_of(s.drop_first(), a, b)
    }
}

/// `s` equals the lower-case ASCII word `w` when ASCII letters are compared
/// without regard to case.
pub open spec fn same_word_ignoring_case(s: Seq<char>, w: Seq<char>) -> bool {
    &&& s.len() == w.len()
    &&& forall|i: int| 0 <= i < s.len() ==> same_letter_ignoring_case(#[trigger] s[i], w[i])
}

/// `c` is `w`, or `w` is a lower-case ASCII letter and `c` its capital.
pub open spec fn same_letter_ignoring_case(c: char, w: char) -> bool {
    c == w || ('a' <= w && w <= 'z' && (c as u32) + 32 == (w as u32))
}

/// An exponent: an optional sign and one or more digits.
pub open spec fn exponent_syntax(x: Seq<char>) -> bool {
    let y = split_sign(x).1;
    y.len() >= 1 && all_digits(y)
}

/// A decimal number: digits, at most one `.`, at least one digit in all,
/// and an optional exponent after `e` or `E`.
pub open spec fn number_syntax(b: Seq<char>) -> bool {
    let e = first_of(b, 'e', 'E');
    let mantissa = b.take(e);
    let d = first_of(mantissa, '.', '.');
    let whole = mantissa.take(d);
    let fraction = if d < mantissa.len() {
        mantissa.skip(d + 1)
    } else {
        Seq::<char>::empty()
    };
    &&& all_digits(whole)
    &&& all_digits(fraction)
    &&& whole.len() + fraction.len() >= 1
    &&& (e == b.len() || exponent_syntax(b.skip(e + 1)))
}

/// The texts that `f64::from_str` accepts, by the grammar its documentation
/// gives: an optional sign, then `inf`, `infinity`, `nan` (in any case) or
/// a decimal number.
pub open spec fn float_syntax(s: Seq<char>) -> bool {
    let b = split_sign(s).1;
    ||| same_word_ignoring_case(b, seq!['i', 'n', 'f'])
    ||| same_word_ignoring_case(b, seq!['i', 'n', 'f', 'i', 'n', 'i', 't', 'y'])
    ||| same_word_ignoring_case(b, seq!['n', 'a', 'n'])
    ||| number_syntax(b)
}

/// The decimal digit whose value is `d`.
pub fn digit_to_char(d: u8) -> (c: char)
    requires
        d < 10,
    ensures
        c == digit_char(d as int),
        is_digit(c),
        digit_value(c) == d,
{
    match d {
        0 => '0',
        1 => '1',
        2 => '2',
        3 => '3',
        4 => '4',
        5 => '5',
        6 => '6',
        7 => '7',
        8 => '8',
        _ => '9',
    }
}

/// Whether `c` is a decimal digit.
pub fn char_is_digit(c: char) -> (b: bool)
    ensures
        b == is_digit(c),
{
    '0' <= c && c <= '9'
}

proof fn lemma_digit_char(d: int)
    requires
        0 <= d < 10,
    ensures
        is_digit(digit_char(d)),
        digit_value(digit_char(d)) == d,
{
}

/// The decimal writing of `n` consists of digits and reads back as `n`.
pub proof fn lemma_nat_text(n: nat)
    ensures
        nat_text(n).len() >= 1,
        all_digits(nat_text(n)),
        digits_value(nat_text(n)) == n,
    decreases n,
{
    if n < 10 {
        lemma_digit_char(n as int);
        assert(seq![digit_char(n as int)].drop_last() =~= Seq::<char>::empty());
        assert(digits_value(Seq::<char>::empty()) == 0);
    } else {
        lemma_nat_text(n / 10);
        lemma_digit_char((n % 10) as int);
        let s = nat_text(n);
        assert(s.drop_last() =~= nat_text(n / 10));
        assert(s.last() == digit_char((n % 10) as int));
        assert(digits_value(s) == digits_value(nat_text(n / 10)) * 10 + digit_value(s.last()));
        assert((n / 10) * 10 + n % 10 == n);
        assert(all_digits(s)) by {
            assert forall|i: int| 0 <= i < s.len() implies is_digit(#[trigger] s[i]) by {
                if i < s.len() - 1 {
                    assert(s[i] == nat_text(n / 10)[i]);
                }
            }
        }
    }
}

/// The decimal digits of `n`.
pub fn nat_to_chars(n: u128) -> (r: Vec<char>)
    ensures
        r@ == nat_text(n as nat),
    decreases n,
{
    if n < 10 {
        let mut r: Vec<char> = Vec::new();
        r.push(digit_to_char(n as u8));
        r
    } else {
        let mut r = nat_to_chars(n / 10);
        r.push(digit_to_char((n % 10) as u8));
        r
    }
}

/// The decimal writing of `i`, with a minus sign when it is negative.
pub fn int_to_chars(i: i128) -> (r: Vec<char>)
    ensures
        r@ == int_text(i as int),
{
    if i < 0 {
        let magnitude: u128 = ((-(i + 1)) as u128) + 1;
        let digits = nat_to_chars(magnitude);
        let mut r: Vec<char> = Vec::new();
        r.push('-');
        let mut k: usize = 0;
        while k < digits.len()
            invariant
                0 <= k <= digits.len(),
                r@ == seq!['-'] + digits@.take(k as int),
            decreases digits.len() - k,
        {
            r.push(digits[k]);
            k += 1;
            assert(r@ =~= seq!['-'] + digits@.take(k as int));
        }
        assert(digits@.take(digits.len() as int) =~= digits@);
        r
    } else {
        nat_to_chars(i as u128)
    }
}

/// The decimal writing of `n`, as `u32`'s `Display` writes it.
pub fn u32_text(n: u32) -> (s: String)
    ensures
        s@ == nat_text(n as nat),
{
    let cs = nat_to_chars(n as u128);
    string_of(cs.as_slice())
}

/// The decimal writing of `n`, as `usize`'s `Display` writes it.
pub fn usize_text(n: usize) -> (s: String)
    ensures
        s@ == nat_text(n as nat),
{
    let cs = nat_to_chars(n as u128);
    string_of(cs.as_slice())
}

/// Adding a digit after an all-digit text multiplies its value by ten and
/// adds the digit.
proof fn lemma_digits_push(s: Seq<char>, c: char)
    ensures
        digits_value(s.push(c)) == digits_value(s) * 10 + digit_value(c),
{
    assert(s.push(c).drop_last() =~= s);
}

/// The value of a prefix of an all-digit text is at most the value of the
/// whole text.
proof fn lemma_digits_prefix_le(s: Seq<char>, k: int)
    requires
        0 <= k <= s.len(),
        all_digits(s),
    ensures
        0 <= digits_value(s.take(k)) <= digits_value(s),
    decreases s.len() - k,
{
    if k == s.len() {
        assert(s.take(k) =~= s);
        lemma_digits_nonneg(s);
    } else {
        lemma_digits_prefix_le(s, k + 1);
        assert(s.take(k + 1) =~= s.take(k).push(s[k]));
        lemma_digits_push(s.take(k), s[k]);
        lemma_digits_nonneg(s.take(k));
    }
}

proof fn lemma_digits_nonneg(s: Seq<char>)
    requires
        all_digits(s),
    ensures
        digits_value(s) >= 0,
    decreases s.len(),
{
    if s.len() > 0 {
        assert(all_digits(s.drop_last())) by {
            assert forall|i: int| 0 <= i < s.len() - 1 implies is_digit(#[trigger] s.drop_last()[i]) by {
                assert(s.drop_last()[i] == s[i]);
            }
        }
        lemma_digits_nonneg(s.drop_last());
        assert(is_digit(s[s.len() - 1]));
    }
}

/// Reads `s` as `i64::from_str` does.
pub fn parse_i64_chars(s: &Vec<char>) -> (r: Option<i64>)
    ensures
        r == parse_i64(s@),
{
    let n = s.len();
    let mut start: usize = 0;
    let mut negative = false;
    if n > 0 && (s[0] == '+' || s[0] == '-') {
        negative = s[0] == '-';
        start = 1;
    }
    let ghost body = split_sign(s@).1;
    assert(body =~= s@.skip(start as int));
    assert(negative == split_sign(s@).0);
    if start == n {
        return None;
    }
    let limit: i128 = 0x8000_0000_0000_0000;
    let mut acc: i128 = 0;
    let mut i: usize = start;
    while i < n
        invariant
            start <= i <= n == s.len(),
            start < n,
            body == s@.skip(start as int),
            body == split_sign(s@).1,
            negative == split_sign(s@).0,
            all_digits(body.take(i - start)),
            acc == digits_value(body.take(i - start)),
            limit == 0x8000_0000_0000_0000i128,
            0 <= acc <= limit,
        decreases n - i,
    {
        let c = s[i];
        if !char_is_digit(c) {
            assert(body[i - start] == c);
            assert(!all_digits(body));
            assert(split_sign(s@).1 == body);
            assert(parse_i64(s@) is None);
            return None;
        }
        assert(body.take(i - start + 1) =~= body.take(i - start).push(c));
        proof {
            lemma_digits_push(body.take(i - start), c);
        }
        acc = acc * 10 + ((c as u32) - ('0' as u32)) as i128;
        i += 1;
        assert(all_digits(body.take(i - start))) by {
            assert forall|j: int| 0 <= j < i - start implies is_digit(#[trigger] body.take(i - start)[j]) by {
                if j < i - start - 1 {
                    assert(body.take(i - start)[j] == body.take(i - start - 1)[j]);
                }
            }
        }
        if acc > limit {
            proof {
                if all_digits(body) {
                    lemma_digits_prefix_le(body, i - start);
                    assert(digits_value(body) > limit);
                }
                assert(split_sign(s@).1 == body);
            }
            return None;
        }
    }
    assert(body.take(n - start) =~= body);
    if negative {
        Some((-acc) as i64)
    } else if acc < limit {
        Some(acc as i64)
    } else {
        None
    }
}

/// `first_of` is the first index holding `a` or `b`.
proof fn lemma_first_of(s: Seq<char>, a: char, b: char, i: int)
    requires
        0 <= i <= s.len(),
        forall|j: int| 0 <= j < i ==> s[j] != a && s[j] != b,
        i == s.len() || s[i] == a || s[i] == b,
    ensures
        first_of(s, a, b) == i,
    decreases i,
{
    if i > 0 {
        assert forall|j: int| 0 <= j < i - 1 implies s.drop_first()[j] != a && s.drop_first()[j] != b by {
            assert(s.drop_first()[j] == s[j + 1]);
        }
        lemma_first_of(s.drop_first(), a, b, i - 1);
    }
}

/// `first_of` lies between 0 and the length, and past a first character
/// that is neither `a` nor `b`.
proof fn lemma_first_of_bounds(s: Seq<char>, a: char, b: char)
    ensures
        0 <= first_of(s, a, b) <= s.len(),
        s.len() > 0 && s[0] != a && s[0] != b ==> first_of(s, a, b) >= 1,
    decreases s.len(),
{
    if s.len() > 0 {
        lemma_first_of_bounds(s.drop_first(), a, b);
    }
}

/// A word spelt like `w` in any case, where `w` starts with a lower-case
/// letter other than `e`, `i` and `n`, is no number.
pub proof fn lemma_word_not_float(t: Seq<char>, w: Seq<char>)
    requires
        same_word_ignoring_case(t, w),
        w.len() > 0,
        'a' <= w[0] <= 'z',
        w[0] != 'e',
        w[0] != 'i',
        w[0] != 'n',
    ensures
        !float_syntax(t),
{
    assert(same_letter_ignoring_case(t[0], w[0]));
    assert(split_sign(t).1 == t);
    lemma_first_of_bounds(t, 'e', 'E');
    let mantissa = t.take(first_of(t, 'e', 'E'));
    lemma_first_of_bounds(mantissa, '.', '.');
    let whole = mantissa.take(first_of(mantissa, '.', '.'));
    assert(whole[0] == t[0]);
    assert(!is_digit(whole[0]));
    assert(!all_digits(whole));
}

/// The first index of `s` that holds `a` or `b`, or `s.len()`.
pub fn find_first_of(s: &Vec<char>, a: char, b: char) -> (r: usize)
    ensures
        r as int == first_of(s@, a, b),
        r <= s.len(),
{
    let mut i: usize = 0;
    while i < s.len() && s[i] != a && s[i] != b
        invariant
            i <= s.len(),
            forall|j: int| 0 <= j < i ==> s@[j] != a && s@[j] != b,
        decreases s.len() - i,
    {
        i += 1;
    }
    proof {
        lemma_first_of(s@, a, b, i as int);
    }
    i
}

/// Whether every character of `s` is a decimal digit.
pub fn chars_all_digits(s: &Vec<char>) -> (r: bool)
    ensures
        r == all_digits(s@),
{
    let mut i: usize = 0;
    while i < s.len()
        invariant
            i <= s.len(),
            forall|j: int| 0 <= j < i ==> is_digit(#[trigger] s@[j]),
        decreases s.len() - i,
    {
        if !char_is_digit(s[i]) {
            return false;
        }
        i += 1;
    }
    true
}

/// Whether `s` equals the lower-case ASCII word `w` when ASCII letters are
/// compared without regard to case.
pub fn matches_word_ignoring_case(s: &Vec<char>, w: &Vec<char>) -> (r: bool)
    ensures
        r == same_word_ignoring_case(s@, w@),
{
    if s.len() != w.len() {
        return false;
    }
    let mut i: usize = 0;
    while i < s.len()
        invariant
            i <= s.len() == w.len(),
            forall|j: int| 0 <= j < i ==> same_letter_ignoring_case(#[trigger] s@[j], w@[j]),
        decreases s.len() - i,
    {
        let c = s[i];
        let l = w[i];
        if !(c == l || ('a' <= l && l <= 'z' && (c as u32) == (l as u32) - 32)) {
            return false;
        }
        i += 1;
    }
    true
}

/// The position after a leading `+` or `-` of `s`, if it has one.
fn sign_end(s: &Vec<char>) -> (r: usize)
    ensures
        r <= s.len(),
        s@.skip(r as int) == split_sign(s@).1,
        r == 1 <==> (s.len() > 0 && (s@[0] == '+' || s@[0] == '-')),
        r == 0 || r == 1,
{
    if s.len() > 0 && (s[0] == '+' || s[0] == '-') {
        assert(s@.skip(1) =~= s@.drop_first());
        1
    } else {
        assert(s@.skip(0) =~= s@);
        0
    }
}

/// Whether `x` is an exponent: an optional sign and one or more digits.
fn is_exponent(x: &Vec<char>) -> (r: bool)
    ensures
        r == exponent_syntax(x@),
{
    let k = sign_end(x);
    let y = copy_range(x, k, x.len());
    assert(y@ =~= x@.skip(k as int));
    y.len() >= 1 && chars_all_digits(&y)
}

/// Whether `b` is a decimal number (see [`number_syntax`]).
pub fn is_decimal_number(b: &Vec<char>) -> (r: bool)
    ensures
        r == number_syntax(b@),
{
    let e = find_first_of(b, 'e', 'E');
    let m = copy_range(b, 0, e);
    assert(m@ =~= b@.take(e as int));
    let d = find_first_of(&m, '.', '.');
    let whole = copy_range(&m, 0, d);
    assert(whole@ =~= m@.take(d as int));
    let fraction = if d < m.len() {
        let f = copy_range(&m, d + 1, m.len());
        assert(f@ =~= m@.skip(d + 1));
        f
    } else {
        Vec::new()
    };
    if !(chars_all_digits(&whole) && chars_all_digits(&fraction) && whole.len() + fraction.len()
        >= 1) {
        return false;
    }
    if e == b.len() {
        true
    } else {
        let x = copy_range(b, e + 1, b.len());
        assert(x@ =~= b@.skip(e + 1));
        is_exponent(&x)
    }
}

/// Whether `f64::from_str` accepts `s` (see [`float_syntax`]).
pub fn is_float_literal(s: &Vec<char>) -> (r: bool)
    ensures
        r == float_syntax(s@),
{
    let k = sign_end(s);
    let body = copy_range(s, k, s.len());
    assert(body@ =~= split_sign(s@).1);
    let inf = vec!['i', 'n', 'f'];
    let infinity = vec!['i', 'n', 'f', 'i', 'n', 'i', 't', 'y'];
    let nan = vec!['n', 'a', 'n'];
    assert(inf@ =~= seq!['i', 'n', 'f']);
    assert(infinity@ =~= seq!['i', 'n', 'f', 'i', 'n', 'i', 't', 'y']);
    assert(nan@ =~= seq!['n', 'a', 'n']);
    if matches_word_ignoring_case(&body, &inf) || matches_word_ignoring_case(&body, &infinity)
        || matches_word_ignoring_case(&body, &nan) {
        return true;
    }
    is_decimal_number(&body)
}

/// A sign (or none), digits, a `.` and digits, with at least one digit in
/// all, is a decimal literal `f64::from_str` accepts; so is the same with
/// an exponent of `e` and one or more digits after it.
pub proof fn law_decimal_literals_accepted(sign: Seq<char>, w: Seq<char>, f: Seq<char>, x: Seq<char>)
    requires
        sign == Seq::<char>::empty() || sign == seq!['+'] || sign == seq!['-'],
        all_digits(w),
        all_digits(f),
        w.len() + f.len() >= 1,
        all_digits(x),
        x.len() >= 1,
    ensures
        float_syntax(sign + w + seq!['.'] + f),
        float_syntax(sign + w + seq!['.'] + f + seq!['e'] + x),
{
    let m = w + seq!['.'] + f;
    assert forall|j: int| 0 <= j < m.len() implies m[j] != 'e' && m[j] != 'E' by {
        if j < w.len() {
            assert(is_digit(w[j]));
        } else if j > w.len() {
            assert(is_digit(f[j - w.len() - 1]));
        }
    }
    assert forall|j: int| 0 <= j < w.len() implies m[j] != '.' by {
        assert(is_digit(w[j]));
    }
    assert(m[w.len() as int] == '.');
    lemma_first_of(m, '.', '.', w.len() as int);
    assert(m.take(w.len() as int) =~= w);
    assert(m.skip(w.len() as int + 1) =~= f);
    if w.len() > 0 {
        assert(is_digit(m[0]));
    }
    assert(split_sign(sign + m).1 =~= m);
    // without an exponent
    lemma_first_of(m, 'e', 'E', m.len() as int);
    assert(m.take(m.len() as int) =~= m);
    assert(number_syntax(m));
    assert(sign + w + seq!['.'] + f =~= sign + m);
    // with an exponent
    let b = m + seq!['e'] + x;
    assert forall|j: int| 0 <= j < m.len() implies b[j] != 'e' && b[j] != 'E' by {
        assert(b[j] == m[j]);
    }
    lemma_first_of(b, 'e', 'E', m.len() as int);
    assert(b.take(m.len() as int) =~= m);
    assert(b.skip(m.len() as int + 1) =~= x);
    assert(is_digit(x[0]));
    assert(split_sign(x).1 == x);
    assert(number_syntax(b));
    assert(sign + w + seq!['.'] + f + seq!['e'] + x =~= sign + b);
    assert(split_sign(sign + b).1 =~= b);
}

/// One or more digits, with a sign or none, are a literal `f64::from_str`
/// accepts.
pub proof fn law_digit_literals_accepted(sign: Seq<char>, w: Seq<char>)
    requires
        sign == Seq::<char>::empty() || sign == seq!['+'] || sign == seq!['-'],
        all_digits(w),
        w.len() >= 1,
    ensures
        float_syntax(sign + w),
{
    assert forall|j: int| 0 <= j < w.len() implies w[j] != 'e' && w[j] != 'E' && w[j] != '.' by {
        assert(is_digit(w[j]));
    }
    lemma_first_of(w, 'e', 'E', w.len() as int);
    assert(w.take(w.len() as int) =~= w);
    lemma_first_of(w, '.', '.', w.len() as int);
    assert(is_digit(w[0]));
    assert(split_sign(sign + w).1 =~= w);
    assert(number_syntax(w));
}

} // verus!
