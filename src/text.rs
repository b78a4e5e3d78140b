//! Character-level recognisers for the textual encodings that values take.
use vstd::prelude::*;

verus! {

pub open spec fn is_digit(c: char) -> bool {
    '0' <= c && c <= '9'
}

pub open spec fn all_digits(s: Seq<char>) -> bool {
    forall|i: int| 0 <= i < s.len() ==> is_digit(#[trigger] s[i])
}

/// The number written by a string of decimal digits.
pub open spec fn digits_value(s: Seq<char>) -> nat
    decreases s.len(),
{
    if s.len() == 0 {
        0
    } else {
        digits_value(s.drop_last()) * 10 + (s.last() as nat - '0' as nat) as nat
    }
}

/// Whether an integer literal starts with a minus sign.
pub open spec fn negative_sign(s: Seq<char>) -> bool {
    s.len() > 0 && s[0] == '-'
}

/// The digits of an integer literal: what follows an optional `+` or `-`.
pub open spec fn unsigned_part(s: Seq<char>) -> Seq<char> {
    if s.len() > 0 && (s[0] == '-' || s[0] == '+') {
        s.drop_first()
    } else {
        s
    }
}

/// The integer written by `s`, if `s` is an optional sign followed by one
/// or more decimal digits.
pub open spec fn integer_text_value(s: Seq<char>) -> Option<int> {
    let body = unsigned_part(s);
    if body.len() > 0 && all_digits(body) {
        if negative_sign(s) {
            Some(-(digits_value(body) as int))
        } else {
            Some(digits_value(body) as int)
        }
    } else {
        None
    }
}

/// What parsing `s` as a 32-bit signed integer gives.
pub open spec fn i32_of(s: Seq<char>) -> Option<i32> {
    match integer_text_value(s) {
        Some(v) => if i32::MIN <= v <= i32::MAX {
            Some(v as i32)
        } else {
            None
        },
        None => None,
    }
}

proof fn lemma_digits_value_prefix(s: Seq<char>, k: int)
    requires
        0 <= k <= s.len(),
        all_digits(s),
    ensures
        digits_value(s.subrange(0, k)) <= digits_value(s),
    decreases s.len(),
{
    if k < s.len() {
        assert(s.drop_last() =~= s.subrange(0, s.len() - 1));
        assert(s.drop_last().subrange(0, k) =~= s.subrange(0, k));
        lemma_digits_value_prefix(s.drop_last(), k);
    } else {
        assert(s.subrange(0, k) =~= s);
    }
}

/// True when the two strings hold the same characters.
pub fn same_text(a: &str, b: &str) -> (r: bool)
    ensures
        r == (a@ == b@),
{
    let n = a.unicode_len();
    if n != b.unicode_len() {
        return false;
    }
    let mut i: usize = 0;
    while i < n
        invariant
            n == a@.len(),
            n == b@.len(),
            i <= n,
            forall|j: int| 0 <= j < i ==> a@[j] == b@[j],
        decreases n - i,
    {
        if a.get_char(i) != b.get_char(i) {
            return false;
        }
        i = i + 1;
    }
    assert(a@ =~= b@);
    true
}

/// Parses a 32-bit signed integer written in decimal with an optional sign.
pub fn parse_i32(s: &str) -> (r: Option<i32>)
    ensures
        r == i32_of(s@),
{
    let n = s.unicode_len();
    if n == 0 {
        return None;
    }
    let first = s.get_char(0);
    let neg = first == '-';
    let start: usize = if first == '-' || first == '+' { 1 } else { 0 };
    let ghost body = unsigned_part(s@);
    assert(body =~= s@.subrange(start as int, n as int));
    if start == n {
        return None;
    }
    let mut acc: i64 = 0;
    let mut i: usize = start;
    while i < n
        invariant
            start <= i <= n,
            n == s@.len(),
            body =~= s@.subrange(start as int, n as int),
            body == unsigned_part(s@),
            neg == negative_sign(s@),
            all_digits(body.subrange(0, i - start)),
            acc as int == digits_value(body.subrange(0, i - start)),
            0 <= acc <= 2147483648,
        decreases n - i,
    {
        let c = s.get_char(i);
        if !('0' <= c && c <= '9') {
            assert(!all_digits(body)) by {
                assert(body[i - start] == c);
            }
            return None;
        }
        let d = (c as u32 - '0' as u32) as i64;
        let ghost pre = body.subrange(0, i - start);
        let ghost next = body.subrange(0, i + 1 - start);
        assert(next.drop_last() =~= pre);
        assert(next.last() == c);
        acc = acc * 10 + d;
        i = i + 1;
        if acc > 2147483648 {
            proof {
                if all_digits(body) {
                    lemma_digits_value_prefix(body, i - start);
                    assert(digits_value(body) > 2147483648);
                }
            }
            return None;
        }
    }
    assert(body.subrange(0, n - start) =~= body);
    if neg {
        Some((-acc) as i32)
    } else if acc > 2147483647 {
        None
    } else {
        Some(acc as i32)
    }
}

/// True when `a` is the lower-case ASCII letter `l` in either case.
pub open spec fn letter_matches(a: char, l: char) -> bool {
    a == l || a as int + 32 == l as int
}

pub open spec fn word_matches(t: Seq<char>, w: Seq<char>) -> bool {
    t.len() == w.len() && forall|i: int| 0 <= i < t.len() ==> letter_matches(#[trigger] t[i], w[i])
}

/// The words that name an infinite value or not-a-number, in lower case.
pub open spec fn special_float_word(t: Seq<char>) -> bool {
    word_matches(t, seq!['i', 'n', 'f'])
    || word_matches(t, seq!['i', 'n', 'f', 'i', 'n', 'i', 't', 'y'])
    || word_matches(t, seq!['n', 'a', 'n'])
}

pub open spec fn is_exponent_mark(c: char) -> bool {
    c == 'e' || c == 'E'
}

/// The part of a decimal number before its exponent: digits with at most
/// one point, and at least one digit.
pub open spec fn mantissa_ok(m: Seq<char>) -> bool {
    &&& forall|i: int| 0 <= i < m.len() ==> is_digit(#[trigger] m[i]) || m[i] == '.'
    &&& forall|i: int, j: int|
        0 <= i < m.len() && 0 <= j < m.len() && #[trigger] m[i] == '.' && #[trigger] m[j] == '.'
            ==> i == j
    &&& exists|i: int| 0 <= i < m.len() && is_digit(#[trigger] m[i])
}

/// An optional exponent: nothing, or `e` or `E`, an optional sign, and
/// one or more digits.
pub open spec fn exponent_ok(x: Seq<char>) -> bool {
    x.len() == 0 || (is_exponent_mark(x[0]) && unsigned_part(x.drop_first()).len() > 0
        && all_digits(unsigned_part(x.drop_first())))
}

/// Whether `s` is accepted as a floating-point literal: an optional sign,
/// then `inf`, `infinity` or `nan` in any case, or a decimal number with an
/// optional exponent.
pub open spec fn float_text(s: Seq<char>) -> bool {
    let t = unsigned_part(s);
    special_float_word(t) || exists|k: int|
        0 <= k <= t.len() && mantissa_ok(#[trigger] t.subrange(0, k)) && exponent_ok(
            t.subrange(k, t.len() as int),
        )
}

/// True when every character of `t` is a decimal digit.
pub fn digits_only(t: &str) -> (r: bool)
    ensures
        r == all_digits(t@),
{
    let n = t.unicode_len();
    let mut i: usize = 0;
    while i < n
        invariant
            n == t@.len(),
            i <= n,
            forall|j: int| 0 <= j < i ==> is_digit(#[trigger] t@[j]),
        decreases n - i,
    {
        let c = t.get_char(i);
        if !('0' <= c && c <= '9') {
            return false;
        }
        i = i + 1;
    }
    true
}

/// `t` without a leading `+` or `-`.
pub fn strip_sign(t: &str) -> (r: &str)
    ensures
        r@ == unsigned_part(t@),
{
    let n = t.unicode_len();
    if n > 0 {
        let c = t.get_char(0);
        if c == '-' || c == '+' {
            let r = t.substring_char(1, n);
            assert(r@ =~= t@.drop_first());
            return r;
        }
    }
    t
}

fn letter_at(t: &str, i: usize, l: char) -> (r: bool)
    requires
        i < t@.len(),
    ensures
        r == letter_matches(t@[i as int], l),
{
    let c = t.get_char(i);
    c == l || c as u32 + 32 == l as u32
}

fn is_special_float_word(t: &str) -> (r: bool)
    ensures
        r == special_float_word(t@),
{
    let n = t.unicode_len();
    let inf = n >= 3 && letter_at(t, 0, 'i') && letter_at(t, 1, 'n') && letter_at(t, 2, 'f');
    let nan = n == 3 && letter_at(t, 0, 'n') && letter_at(t, 1, 'a') && letter_at(t, 2, 'n');
    let r = (inf && n == 3) || nan || (inf && n == 8 && letter_at(t, 3, 'i') && letter_at(t, 4, 'n')
        && letter_at(t, 5, 'i') && letter_at(t, 6, 't') && letter_at(t, 7, 'y'));
    proof {
        let w3 = seq!['i', 'n', 'f'];
        let w8 = seq!['i', 'n', 'f', 'i', 'n', 'i', 't', 'y'];
        let wn = seq!['n', 'a', 'n'];
        if word_matches(t@, w3) {
            assert(letter_matches(t@[0], w3[0]) && letter_matches(t@[1], w3[1]) && letter_matches(t@[2], w3[2]));
        }
        if word_matches(t@, wn) {
            assert(letter_matches(t@[0], wn[0]) && letter_matches(t@[1], wn[1]) && letter_matches(t@[2], wn[2]));
        }
        if word_matches(t@, w8) {
            assert(letter_matches(t@[0], w8[0]) && letter_matches(t@[1], w8[1]) && letter_matches(t@[2], w8[2]));
            assert(letter_matches(t@[3], w8[3]) && letter_matches(t@[4], w8[4]) && letter_matches(t@[5], w8[5]));
            assert(letter_matches(t@[6], w8[6]) && letter_matches(t@[7], w8[7]));
        }
        if r {
            if n == 3 && inf {
                assert forall|i: int| 0 <= i < t@.len() implies letter_matches(#[trigger] t@[i], w3[i]) by {
                    assert(i == 0 || i == 1 || i == 2);
                }
            } else if nan {
                assert forall|i: int| 0 <= i < t@.len() implies letter_matches(#[trigger] t@[i], wn[i]) by {
                    assert(i == 0 || i == 1 || i == 2);
                }
            } else {
                assert forall|i: int| 0 <= i < t@.len() implies letter_matches(#[trigger] t@[i], w8[i]) by {
                    assert(0 <= i < 8);
                }
            }
        }
    }
    r
}

fn mantissa_check(m: &str) -> (r: bool)
    ensures
        r == mantissa_ok(m@),
{
    let n = m.unicode_len();
    let mut seen_dot = false;
    let mut seen_digit = false;
    let mut dot_at: usize = 0;
    let mut i: usize = 0;
    while i < n
        invariant
            n == m@.len(),
            i <= n,
            forall|j: int| 0 <= j < i ==> is_digit(#[trigger] m@[j]) || m@[j] == '.',
            seen_dot ==> dot_at < i && m@[dot_at as int] == '.',
            forall|j: int| 0 <= j < i && #[trigger] m@[j] == '.' ==> seen_dot && j == dot_at,
            seen_digit == exists|j: int| 0 <= j < i && is_digit(#[trigger] m@[j]),
        decreases n - i,
    {
        let c = m.get_char(i);
        if c == '.' {
            if seen_dot {
                return false;
            }
            seen_dot = true;
            dot_at = i;
        } else if '0' <= c && c <= '9' {
            seen_digit = true;
        } else {
            return false;
        }
        proof {
            if !seen_digit {
                assert forall|j: int| 0 <= j < i + 1 implies !is_digit(#[trigger] m@[j]) by {
                    if j == i {
                    }
                }
            }
        }
        i = i + 1;
    }
    seen_digit
}

fn exponent_check(x: &str) -> (r: bool)
    ensures
        r == exponent_ok(x@),
{
    let n = x.unicode_len();
    if n == 0 {
        return true;
    }
    let c = x.get_char(0);
    if !(c == 'e' || c == 'E') {
        return false;
    }
    let rest = x.substring_char(1, n);
    assert(rest@ =~= x@.drop_first());
    let body = strip_sign(rest);
    body.unicode_len() > 0 && digits_only(body)
}

/// Whether `s` is accepted as a floating-point literal (see `float_text`).
pub fn is_float_text(s: &str) -> (r: bool)
    ensures
        r == float_text(s@),
{
    let t = strip_sign(s);
    if is_special_float_word(t) {
        return true;
    }
    let n = t.unicode_len();
    let mut k: usize = 0;
    let mut found = false;
    while !found && k < n
        invariant
            n == t@.len(),
            k <= n,
            found ==> k < n && is_exponent_mark(t@[k as int]),
            forall|j: int| 0 <= j < k ==> !is_exponent_mark(#[trigger] t@[j]),
        decreases n - k + (if found { 0int } else { 1int }),
    {
        let c = t.get_char(k);
        if c == 'e' || c == 'E' {
            found = true;
        } else {
            k = k + 1;
        }
    }
    let m = t.substring_char(0, k);
    let x = t.substring_char(k, n);
    let r = mantissa_check(m) && exponent_check(x);
    proof {
        let tt = t@;
        if !r {
            assert forall|k2: int| 0 <= k2 <= tt.len() implies !(mantissa_ok(#[trigger] tt.subrange(0, k2))
                && exponent_ok(tt.subrange(k2, tt.len() as int))) by {
                if mantissa_ok(tt.subrange(0, k2)) && exponent_ok(tt.subrange(k2, tt.len() as int)) {
                    if k2 < k {
                        assert(tt.subrange(k2, tt.len() as int)[0] == tt[k2]);
                    } else if k2 > k {
                        assert(tt.subrange(0, k2)[k as int] == tt[k as int]);
                        assert(!is_digit(tt.subrange(0, k2)[k as int]));
                    }
                    assert(k2 == k);
                }
            }
        }
    }
    r
}

/// The character of a decimal digit.
pub open spec fn digit_char(d: nat) -> char {
    if d == 0 {
        '0'
    } else if d == 1 {
        '1'
    } else if d == 2 {
        '2'
    } else if d == 3 {
        '3'
    } else if d == 4 {
        '4'
    } else if d == 5 {
        '5'
    } else if d == 6 {
        '6'
    } else if d == 7 {
        '7'
    } else if d == 8 {
        '8'
    } else {
        '9'
    }
}

/// The decimal digits of `n`, without leading zeros.
pub open spec fn digits_of(n: nat) -> Seq<char>
    decreases n,
{
    if n < 10 {
        seq![digit_char(n)]
    } else {
        digits_of(n / 10).push(digit_char(n % 10))
    }
}

/// The decimal text of an integer, with a minus sign where it is negative.
pub open spec fn decimal_text(v: int) -> Seq<char> {
    if v < 0 {
        seq!['-'] + digits_of((-v) as nat)
    } else {
        digits_of(v as nat)
    }
}

proof fn lemma_digits_of(n: nat)
    ensures
        digits_of(n).len() > 0,
        all_digits(digits_of(n)),
        digits_value(digits_of(n)) == n,
    decreases n,
{
    let d = digit_char(n % 10);
    assert(d as nat - '0' as nat == n % 10);
    if n >= 10 {
        lemma_digits_of(n / 10);
        let s = digits_of(n);
        assert(s.drop_last() =~= digits_of(n / 10));
        assert(s.last() == d);
        assert(n == (n / 10) * 10 + n % 10);
        assert(digits_value(s) == digits_value(digits_of(n / 10)) * 10 + (n % 10));
        assert forall|i: int| 0 <= i < s.len() implies is_digit(#[trigger] s[i]) by {
            if i < s.len() - 1 {
                assert(s[i] == digits_of(n / 10)[i]);
            }
        }
    } else {
        assert(n % 10 == n);
        let s = seq![d];
        assert(s.drop_last() =~= Seq::<char>::empty());
        assert(s.last() == d);
        assert(digits_value(Seq::<char>::empty()) == 0);
        assert(digits_value(s) == digits_value(s.drop_last()) * 10 + (d as nat - '0' as nat) as nat);
        assert(digits_of(n) == s);
    }
}

/// The decimal text of every 32-bit integer reads back as that integer.
pub proof fn lemma_decimal_text_round_trip(v: i32)
    ensures
        i32_of(decimal_text(v as int)) == Some(v),
{
    let t = decimal_text(v as int);
    if v < 0 {
        let m = (-(v as int)) as nat;
        lemma_digits_of(m);
        assert(t.drop_first() =~= digits_of(m));
        assert(unsigned_part(t) == digits_of(m));
    } else {
        lemma_digits_of(v as nat);
        assert(is_digit(t[0]));
    }
}

} // verus!
