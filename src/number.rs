use vstd::prelude::*;
use crate::text::{chars_of, push_char};

verus! {

/// The decimal digit for `d`, for `d` below ten.
pub open spec fn digit_char(d: nat) -> char {
    if d == 0 { '0' }
    else if d == 1 { '1' }
    else if d == 2 { '2' }
    else if d == 3 { '3' }
    else if d == 4 { '4' }
    else if d == 5 { '5' }
    else if d == 6 { '6' }
    else if d == 7 { '7' }
    else if d == 8 { '8' }
    else { '9' }
}

/// Decimal text of a natural number, without leading zeros.
pub open spec fn decimal(n: nat) -> Seq<char>
    decreases n,
{
    if n < 10 {
        seq![digit_char(n)]
    } else {
        decimal(n / 10).push(digit_char(n % 10))
    }
}

/// Decimal text of an integer, with a leading `-` when negative.
pub open spec fn signed_decimal(i: int) -> Seq<char> {
    if i < 0 {
        seq!['-'] + decimal((-i) as nat)
    } else {
        decimal(i as nat)
    }
}

fn digit(d: u64) -> (c: char)
    requires
        d < 10,
    ensures
        c == digit_char(d as nat),
{
    if d == 0 { '0' }
    else if d == 1 { '1' }
    else if d == 2 { '2' }
    else if d == 3 { '3' }
    else if d == 4 { '4' }
    else if d == 5 { '5' }
    else if d == 6 { '6' }
    else if d == 7 { '7' }
    else if d == 8 { '8' }
    else { '9' }
}

fn push_decimal(s: &mut String, n: u64)
    ensures
        final(s)@ == old(s)@ + decimal(n as nat),
    decreases n,
{
    if n >= 10 {
        push_decimal(s, n / 10);
    }
    push_char(s, digit(n % 10));
    proof {
        if n < 10 {
            assert(old(s)@ + decimal(n as nat) =~= old(s)@.push(digit_char(n as nat)));
        } else {
            assert(old(s)@ + decimal(n as nat)
                =~= (old(s)@ + decimal((n / 10) as nat)).push(digit_char((n % 10) as nat)));
        }
    }
}

/// Decimal text of an unsigned integer.
pub fn u64_text(n: u64) -> (r: String)
    ensures
        r@ == decimal(n as nat),
{
    let mut s = String::new();
    push_decimal(&mut s, n);
    assert(s@ =~= decimal(n as nat));
    s
}

/// Decimal text of a signed integer.
pub fn i64_text(i: i64) -> (r: String)
    ensures
        r@ == signed_decimal(i as int),
{
    let mut s = String::new();
    if i < 0 {
        push_char(&mut s, '-');
        let m: u64 = (-(i as i128)) as u64;
        push_decimal(&mut s, m);
    } else {
        push_decimal(&mut s, i as u64);
    }
    assert(s@ =~= signed_decimal(i as int));
    s
}

pub open spec fn is_digit(c: char) -> bool {
    '0' <= c && c <= '9'
}

pub open spec fn all_digits(s: Seq<char>) -> bool {
    forall|i: int| 0 <= i < s.len() ==> is_digit(#[trigger] s[i])
}

/// `s` without one leading `+` or `-`.
pub open spec fn drop_sign(s: Seq<char>) -> Seq<char> {
    if s.len() > 0 && (s[0] == '+' || s[0] == '-') {
        s.drop_first()
    } else {
        s
    }
}

/// Digits with at most one point among them and at least one digit:
/// `12`, `12.`, `.5`, `1.5`.
pub open spec fn valid_mantissa(m: Seq<char>) -> bool {
    (m.len() > 0 && all_digits(m)) || exists|k: int|
        0 <= k < m.len() && #[trigger] m[k] == '.' && m.len() > 1 && all_digits(m.take(k))
            && all_digits(m.skip(k + 1))
}

/// An exponent after its `e`: an optional sign, then one digit or more.
pub open spec fn valid_exponent(x: Seq<char>) -> bool {
    drop_sign(x).len() > 0 && all_digits(drop_sign(x))
}

pub open spec fn is_exp_mark(c: char) -> bool {
    c == 'e' || c == 'E'
}

/// A mantissa, optionally followed by `e` or `E` and an exponent.
pub open spec fn valid_number(b: Seq<char>) -> bool {
    valid_mantissa(b) || exists|k: int|
        0 <= k < b.len() && #[trigger] is_exp_mark(b[k]) && valid_mantissa(b.take(k))
            && valid_exponent(b.skip(k + 1))
}

/// `s` equals the lower-case ASCII word `w` up to the case of its letters.
pub open spec fn equals_ignoring_case(s: Seq<char>, w: Seq<char>) -> bool {
    s.len() == w.len() && forall|i: int|
        0 <= i < s.len() ==> (#[trigger] s[i] == w[i] || s[i] as u64 + 32 == w[i] as u64)
}

/// Text that std's float parser accepts: an optional sign, then `inf`,
/// `infinity` or `nan` in any case, or a decimal number with an optional
/// exponent.
pub open spec fn is_float_literal(s: Seq<char>) -> bool {
    let b = drop_sign(s);
    equals_ignoring_case(b, seq!['i', 'n', 'f'])
        || equals_ignoring_case(b, seq!['i', 'n', 'f', 'i', 'n', 'i', 't', 'y'])
        || equals_ignoring_case(b, seq!['n', 'a', 'n'])
        || valid_number(b)
}

fn is_digit_char(c: char) -> (r: bool)
    ensures
        r == is_digit(c),
{
    '0' <= c && c <= '9'
}

fn digits_in(v: &Vec<char>, lo: usize, hi: usize) -> (r: bool)
    requires
        lo <= hi <= v@.len(),
    ensures
        r == all_digits(v@.subrange(lo as int, hi as int)),
{
    let mut i: usize = lo;
    while i < hi
        invariant
            lo <= i <= hi <= v@.len(),
            all_digits(v@.subrange(lo as int, i as int)),
        decreases hi - i,
    {
        if !is_digit_char(v[i]) {
            assert(v@.subrange(lo as int, hi as int)[i - lo] == v@[i as int]);
            return false;
        }
        assert forall|j: int| 0 <= j < i + 1 - lo implies is_digit(
            #[trigger] v@.subrange(lo as int, i + 1)[j],
        ) by {
            if j < i - lo {
                assert(v@.subrange(lo as int, i as int)[j] == v@[lo + j]);
            }
        }
        i = i + 1;
    }
    true
}

fn mantissa_in(v: &Vec<char>, lo: usize, hi: usize) -> (r: bool)
    requires
        lo <= hi <= v@.len(),
    ensures
        r == valid_mantissa(v@.subrange(lo as int, hi as int)),
{
    let ghost m = v@.subrange(lo as int, hi as int);
    let mut i: usize = lo;
    while i < hi
        invariant
            lo <= i <= hi <= v@.len(),
            m == v@.subrange(lo as int, hi as int),
            forall|j: int| 0 <= j < i - lo ==> is_digit(#[trigger] m[j]),
        ensures
            lo <= i <= hi,
            forall|j: int| 0 <= j < i - lo ==> is_digit(#[trigger] m[j]),
            i < hi ==> v@[i as int] == '.',
        decreases hi - i,
    {
        if v[i] == '.' {
            break;
        }
        if !is_digit_char(v[i]) {
            assert(m[i - lo] == v@[i as int]);
            assert(!all_digits(m));
            assert forall|k: int|
                0 <= k < m.len() && #[trigger] m[k] == '.' implies !all_digits(m.take(k)) by {
                if k < i - lo {
                    assert(is_digit(m[k]));
                } else {
                    assert(m.take(k)[i - lo] == m[i - lo]);
                }
            }
            return false;
        }
        i = i + 1;
    }
    if i == hi {
        assert(all_digits(m));
        return hi > lo;
    }
    let k = i;
    assert(m[k - lo] == '.');
    let rest = digits_in(v, k + 1, hi);
    assert(m.take(k - lo) =~= v@.subrange(lo as int, k as int));
    assert(m.skip(k - lo + 1) =~= v@.subrange(k + 1, hi as int));
    assert(all_digits(m.take(k - lo)));
    assert(!is_digit(m[k - lo]));
    assert(!all_digits(m));
    if rest && hi - lo > 1 {
        assert(m[k - lo] == '.');
        return true;
    }
    assert forall|j: int|
        0 <= j < m.len() && #[trigger] m[j] == '.' && m.len() > 1 && all_digits(m.take(j))
            implies !all_digits(m.skip(j + 1)) by {
        if j < k - lo {
            assert(is_digit(m[j]));
        } else if j > k - lo {
            assert(m.take(j)[k - lo] == m[k - lo]);
        }
    }
    false
}

proof fn lemma_mantissa_chars(m: Seq<char>)
    requires
        valid_mantissa(m),
    ensures
        forall|i: int| 0 <= i < m.len() ==> is_digit(#[trigger] m[i]) || m[i] == '.',
{
    if !(m.len() > 0 && all_digits(m)) {
        let k = choose|k: int|
            0 <= k < m.len() && #[trigger] m[k] == '.' && m.len() > 1 && all_digits(m.take(k))
                && all_digits(m.skip(k + 1));
        assert forall|i: int| 0 <= i < m.len() implies is_digit(#[trigger] m[i]) || m[i] == '.' by {
            if i < k {
                assert(m.take(k)[i] == m[i]);
            } else if i > k {
                assert(m.skip(k + 1)[i - k - 1] == m[i]);
            }
        }
    }
}

fn exponent_in(v: &Vec<char>, lo: usize, hi: usize) -> (r: bool)
    requires
        lo <= hi <= v@.len(),
    ensures
        r == valid_exponent(v@.subrange(lo as int, hi as int)),
{
    let ghost x = v@.subrange(lo as int, hi as int);
    if lo < hi && (v[lo] == '+' || v[lo] == '-') {
        assert(x[0] == v@[lo as int]);
        assert(drop_sign(x) =~= v@.subrange(lo + 1, hi as int));
        hi > lo + 1 && digits_in(v, lo + 1, hi)
    } else {
        assert(lo < hi ==> x[0] == v@[lo as int]);
        assert(drop_sign(x) == x);
        hi > lo && digits_in(v, lo, hi)
    }
}

fn number_in(v: &Vec<char>, lo: usize, hi: usize) -> (r: bool)
    requires
        lo <= hi <= v@.len(),
    ensures
        r == valid_number(v@.subrange(lo as int, hi as int)),
{
    let ghost b = v@.subrange(lo as int, hi as int);
    let mut i: usize = lo;
    while i < hi
        invariant
            lo <= i <= hi <= v@.len(),
            b == v@.subrange(lo as int, hi as int),
            forall|j: int| 0 <= j < i - lo ==> !is_exp_mark(#[trigger] b[j]),
        ensures
            lo <= i <= hi,
            forall|j: int| 0 <= j < i - lo ==> !is_exp_mark(#[trigger] b[j]),
            i < hi ==> is_exp_mark(v@[i as int]),
        decreases hi - i,
    {
        if v[i] == 'e' || v[i] == 'E' {
            break;
        }
        assert(b[i - lo] == v@[i as int]);
        i = i + 1;
    }
    if i == hi {
        return mantissa_in(v, lo, hi);
    }
    let k = i;
    assert(b[k - lo] == v@[k as int]);
    proof {
        if valid_mantissa(b) {
            lemma_mantissa_chars(b);
            assert(is_digit(b[k - lo]) || b[k - lo] == '.');
        }
    }
    let mant = mantissa_in(v, lo, k);
    let exp = exponent_in(v, k + 1, hi);
    assert(b.take(k - lo) =~= v@.subrange(lo as int, k as int));
    assert(b.skip(k - lo + 1) =~= v@.subrange(k + 1, hi as int));
    if mant && exp {
        assert(is_exp_mark(b[k - lo]));
        return true;
    }
    assert forall|j: int|
        0 <= j < b.len() && #[trigger] is_exp_mark(b[j]) && valid_mantissa(b.take(j))
            implies !valid_exponent(b.skip(j + 1)) by {
        if j > k - lo {
            lemma_mantissa_chars(b.take(j));
            assert(b.take(j)[k - lo] == b[k - lo]);
        }
    }
    false
}

fn equals_ignoring_case_in(v: &Vec<char>, lo: usize, hi: usize, w: &Vec<char>) -> (r: bool)
    requires
        lo <= hi <= v@.len(),
    ensures
        r == equals_ignoring_case(v@.subrange(lo as int, hi as int), w@),
{
    let ghost s = v@.subrange(lo as int, hi as int);
    if hi - lo != w.len() {
        return false;
    }
    let mut i: usize = 0;
    while i < w.len()
        invariant
            s == v@.subrange(lo as int, hi as int),
            s.len() == w@.len(),
            lo <= hi <= v@.len(),
            i <= w@.len(),
            forall|j: int| 0 <= j < i ==> (#[trigger] s[j] == w@[j] || s[j] as u64 + 32 == w@[j] as u64),
        decreases w@.len() - i,
    {
        let c = v[lo + i];
        assert(s[i as int] == c);
        if !(c == w[i] || (w[i] as u64 >= 32 && c as u64 == w[i] as u64 - 32)) {
            return false;
        }
        i = i + 1;
    }
    true
}

/// Whether std's float parser accepts `s`.
pub fn is_float_literal_text(s: &str) -> (r: bool)
    ensures
        r == is_float_literal(s@),
{
    let v = chars_of(s);
    let n = v.len();
    let lo: usize = if n > 0 && (v[0] == '+' || v[0] == '-') { 1 } else { 0 };
    proof {
        if n > 0 && (v@[0] == '+' || v@[0] == '-') {
            assert(drop_sign(s@) =~= v@.subrange(1, n as int));
        } else {
            assert(drop_sign(s@) =~= v@.subrange(0, n as int));
        }
    }
    let inf = vec!['i', 'n', 'f'];
    let infinity = vec!['i', 'n', 'f', 'i', 'n', 'i', 't', 'y'];
    let nan = vec!['n', 'a', 'n'];
    assert(inf@ =~= seq!['i', 'n', 'f']);
    assert(infinity@ =~= seq!['i', 'n', 'f', 'i', 'n', 'i', 't', 'y']);
    assert(nan@ =~= seq!['n', 'a', 'n']);
    equals_ignoring_case_in(&v, lo, n, &inf) || equals_ignoring_case_in(&v, lo, n, &infinity)
        || equals_ignoring_case_in(&v, lo, n, &nan) || number_in(&v, lo, n)
}

} // verus!
