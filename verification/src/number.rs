//! Numbers read from text.
use crate::fixed::{lemma_pow10_grows, pow10, Fraction, WHOLE};
use crate::text::{
    chars_of, decimal_of, first_place, lemma_first_place, lemma_first_place_bounds,
    padded_decimal_of,
};
use vstd::arithmetic::div_mod::lemma_div_denominator;
use vstd::prelude::*;

verus! {

/// Whether `c` is one of the ten decimal digits.
pub open spec fn digit(c: char) -> bool {
    '0' <= c <= '9'
}

/// The digit that `c` stands for.
pub open spec fn digit_value(c: char) -> nat {
    (c as int - '0' as int) as nat
}

/// Whether `s` is made of digits alone.
pub open spec fn all_digits(s: Seq<char>) -> bool {
    forall|k: int| 0 <= k < s.len() ==> digit(#[trigger] s[k])
}

/// The number that the digits `s` write.
pub open spec fn number_of(s: Seq<char>) -> nat
    decreases s.len(),
{
    if s.len() == 0 {
        0
    } else {
        10 * number_of(s.drop_last()) + digit_value(s.last())
    }
}

/// Whether `s` starts with a plus or a minus.
pub open spec fn signed(s: Seq<char>) -> bool {
    s.len() > 0 && (s[0] == '+' || s[0] == '-')
}

/// `s` without the sign in front.
pub open spec fn unsigned_part(s: Seq<char>) -> Seq<char> {
    if signed(s) {
        s.skip(1)
    } else {
        s
    }
}

/// The whole number up to `max` that `s` writes: digits, with a plus in front
/// or none.
pub open spec fn whole_number_of(s: Seq<char>, max: nat) -> Option<nat> {
    let body = if s.len() > 0 && s[0] == '+' {
        s.skip(1)
    } else {
        s
    };
    if body.len() > 0 && all_digits(body) && number_of(body) <= max {
        Some(number_of(body))
    } else {
        None
    }
}

/// What a number literal writes.
pub ghost enum Literal {
    /// `number_of(digits)` times ten to the power `exponent`.
    Finite { negative: bool, digits: Seq<char>, exponent: int },
    Infinite { negative: bool },
    NotANumber,
}

/// The small letter of an ASCII letter.
pub open spec fn small_letter(c: char) -> char {
    if 'A' <= c <= 'Z' {
        (c as int + 32) as char
    } else {
        c
    }
}

/// Whether `s` is `word`, in small or capital letters.
pub open spec fn is_word(s: Seq<char>, word: Seq<char>) -> bool {
    s.len() == word.len() && forall|k: int|
        0 <= k < s.len() ==> small_letter(#[trigger] s[k]) == word[k]
}

/// The exponent that `s`, the text behind an `e`, writes.
pub open spec fn exponent_of(s: Seq<char>) -> Option<int> {
    let body = unsigned_part(s);
    if body.len() > 0 && all_digits(body) {
        Some(
            if signed(s) && s[0] == '-' {
                -(number_of(body) as int)
            } else {
                number_of(body) as int
            },
        )
    } else {
        None
    }
}

/// The literal `s` of digits with at most one point among them, an exponent
/// behind an `e` or none, and no sign.
pub open spec fn finite_of(negative: bool, s: Seq<char>) -> Option<Literal> {
    let e = first_place(s, |c: char| c == 'e' || c == 'E');
    let mantissa = s.take(e);
    let point = first_place(mantissa, |c: char| c == '.');
    let whole = mantissa.take(point);
    let decimals = if point < mantissa.len() {
        mantissa.skip(point + 1)
    } else {
        seq![]
    };
    let exponent = if e < s.len() {
        exponent_of(s.skip(e + 1))
    } else {
        Some(0int)
    };
    if all_digits(whole) && all_digits(decimals) && whole.len() + decimals.len() > 0
        && exponent is Some {
        Some(
            Literal::Finite {
                negative,
                digits: whole + decimals,
                exponent: exponent->0 - decimals.len(),
            },
        )
    } else {
        None
    }
}

/// The literal that `s` writes: a decimal number with a sign or none, or the
/// words for infinity and for what is not a number.
pub open spec fn literal_of(s: Seq<char>) -> Option<Literal> {
    let negative = signed(s) && s[0] == '-';
    let body = unsigned_part(s);
    if is_word(body, seq!['i', 'n', 'f']) || is_word(
        body,
        seq!['i', 'n', 'f', 'i', 'n', 'i', 't', 'y'],
    ) {
        Some(Literal::Infinite { negative })
    } else if is_word(body, seq!['n', 'a', 'n']) {
        Some(Literal::NotANumber)
    } else {
        finite_of(negative, body)
    }
}

/// `v` times ten to the power `e`, rounded down.
pub open spec fn scaled(v: nat, e: int) -> nat {
    if e >= 0 {
        v * pow10(e as nat)
    } else {
        v / pow10((-e) as nat)
    }
}

/// `v`, but at most `cap`.
pub open spec fn at_most(v: nat, cap: nat) -> nat {
    if v < cap {
        v
    } else {
        cap
    }
}

/// The share in billionths that `s` writes as a percentage, rounded down and
/// held between none and all. What is not a number is no share.
pub open spec fn percentage_of(s: Seq<char>) -> Option<nat> {
    match literal_of(s) {
        Some(Literal::Finite { negative, digits, exponent }) => Some(
            if negative {
                0
            } else {
                at_most(scaled(number_of(digits), exponent + 7), WHOLE as nat)
            },
        ),
        Some(Literal::Infinite { negative }) => Some(
            if negative {
                0
            } else {
                WHOLE as nat
            },
        ),
        Some(Literal::NotANumber) => None,
        None => None,
    }
}

proof fn lemma_pow10_positive(k: nat)
    ensures
        pow10(k) >= 1,
    decreases k,
{
    if k > 0 {
        lemma_pow10_positive((k - 1) as nat);
    }
}

/// Digits write less than ten to the power of their count.
proof fn lemma_number_bound(s: Seq<char>)
    requires
        all_digits(s),
    ensures
        number_of(s) < pow10(s.len()),
    decreases s.len(),
{
    if s.len() > 0 {
        assert(all_digits(s.drop_last()));
        assert(digit(s[s.len() - 1]));
        lemma_number_bound(s.drop_last());
    }
}

/// Dividing by ten to the power `k` drops the last `k` digits.
proof fn lemma_number_drop(s: Seq<char>, k: nat)
    requires
        all_digits(s),
        k <= s.len(),
    ensures
        number_of(s) / pow10(k) == number_of(s.take(s.len() - k)),
    decreases k,
{
    if k == 0 {
        assert(s.take(s.len() as int) == s);
        assert(pow10(k) == 1);
        assert(number_of(s) / 1 == number_of(s));
    } else {
        assert(all_digits(s.drop_last()));
        assert(digit(s[s.len() - 1]));
        lemma_number_drop(s.drop_last(), (k - 1) as nat);
        lemma_pow10_positive((k - 1) as nat);
        lemma_div_denominator(number_of(s) as int, 10, pow10((k - 1) as nat) as int);
        assert(number_of(s) / 10 == number_of(s.drop_last()));
        assert(pow10(k) == 10 * pow10((k - 1) as nat));
        assert(number_of(s) / pow10(k) == number_of(s.drop_last()) / pow10((k - 1) as nat));
        assert(s.drop_last().take(s.drop_last().len() - (k - 1)) == s.take(s.len() - k));
    }
}

/// An exponent so low that it drops every digit leaves nothing.
proof fn lemma_scaled_low(s: Seq<char>, e: int)
    requires
        all_digits(s),
        e < 0,
        -e >= s.len(),
    ensures
        scaled(number_of(s), e) == 0,
{
    lemma_number_bound(s);
    lemma_pow10_grows(s.len(), (-e) as nat);
    let d = pow10((-e) as nat);
    let v = number_of(s);
    assert(v / d == 0) by (nonlinear_arith)
        requires
            v < d,
    ;
}

/// An exponent of nine or more takes whatever is not nothing to the whole.
proof fn lemma_scaled_high(v: nat, e: int)
    requires
        e >= 9,
    ensures
        at_most(scaled(v, e), WHOLE as nat) == if v == 0 {
            0
        } else {
            WHOLE as nat
        },
{
    reveal_with_fuel(pow10, 10);
    lemma_pow10_grows(9, e as nat);
    let p = pow10(e as nat);
    assert(pow10(9) == 1_000_000_000);
    if v > 0 {
        assert(v * p >= p) by (nonlinear_arith)
            requires
                v > 0,
        ;
    } else {
        assert(v * p == 0) by (nonlinear_arith)
            requires
                v == 0,
        ;
    }
}

fn is_digit(c: char) -> (r: bool)
    ensures
        r == digit(c),
{
    '0' <= c && c <= '9'
}

fn digits_only(v: &Vec<char>, from: usize, to: usize) -> (r: bool)
    requires
        from <= to <= v.len(),
    ensures
        r == all_digits(v@.subrange(from as int, to as int)),
{
    let mut i: usize = from;
    while i < to
        invariant
            from <= i <= to <= v.len(),
            forall|k: int| from <= k < i ==> digit(#[trigger] v[k]),
        decreases to - i,
    {
        if !is_digit(v[i]) {
            assert(!digit(v@.subrange(from as int, to as int)[i - from]));
            return false;
        }
        i = i + 1;
    }
    true
}

/// The number that the digits of `v` from `from` to before `to` write, but at
/// most `cap`.
fn capped_number(v: &Vec<char>, from: usize, to: usize, cap: u128) -> (r: u128)
    requires
        from <= to <= v.len(),
        all_digits(v@.subrange(from as int, to as int)),
        cap <= 0x1_0000_0000_0000_0000_0000_0000_0000,
    ensures
        r == at_most(number_of(v@.subrange(from as int, to as int)), cap as nat),
{
    let mut acc: u128 = 0;
    let mut i: usize = from;
    let ghost all = v@.subrange(from as int, to as int);
    assert(v@.subrange(from as int, from as int) == Seq::<char>::empty());
    while i < to
        invariant
            from <= i <= to <= v.len(),
            all == v@.subrange(from as int, to as int),
            all_digits(all),
            cap <= 0x1_0000_0000_0000_0000_0000_0000_0000,
            acc == at_most(number_of(v@.subrange(from as int, i as int)), cap as nat),
        decreases to - i,
    {
        assert(digit(all[i - from]));
        let d: u128 = v[i] as u128 - '0' as u128;
        assert(v@.subrange(from as int, i + 1).drop_last() == v@.subrange(from as int, i as int));
        acc = acc * 10 + d;
        if acc > cap {
            acc = cap;
        }
        i = i + 1;
    }
    acc
}

/// The whole number that `s` writes, if it writes one that fits.
pub fn parse_u64(s: &str) -> (r: Option<u64>)
    ensures
        match r {
            Some(n) => whole_number_of(s@, u64::MAX as nat) == Some(n as nat),
            None => whole_number_of(s@, u64::MAX as nat) is None,
        },
{
    let v = chars_of(s);
    let n: usize = v.len();
    let from: usize = if n > 0 && v[0] == '+' {
        1
    } else {
        0
    };
    assert(v@.subrange(from as int, n as int) == if s@.len() > 0 && s@[0] == '+' {
        s@.skip(1)
    } else {
        s@
    });
    if from == n || !digits_only(&v, from, n) {
        return None;
    }
    let value: u128 = capped_number(&v, from, n, 0x1_0000_0000_0000_0000);
    if value <= u64::MAX as u128 {
        Some(value as u64)
    } else {
        None
    }
}

/// Whether `c` is the small letter `w` or its capital.
fn same_letter(c: char, w: char) -> (r: bool)
    ensures
        r == (small_letter(c) == w),
{
    let u: u32 = c as u32;
    let small: u32 = if 0x41 <= u && u <= 0x5a {
        u + 32
    } else {
        u
    };
    assert(small as int == small_letter(c) as int);
    small == w as u32
}

fn is_word_at(v: &Vec<char>, from: usize, word: &Vec<char>) -> (r: bool)
    requires
        from <= v.len(),
    ensures
        r == is_word(v@.skip(from as int), word@),
{
    if v.len() - from != word.len() {
        return false;
    }
    let mut i: usize = 0;
    while i < word.len()
        invariant
            i <= word.len(),
            from + word.len() == v.len(),
            forall|k: int| 0 <= k < i ==> small_letter(#[trigger] v@.skip(from as int)[k]) == word[k],
        decreases word.len() - i,
    {
        assert(v@.skip(from as int)[i as int] == v[from + i]);
        if !same_letter(v[from + i], word[i]) {
            return false;
        }
        i = i + 1;
    }
    true
}

/// The number that `digits` write times ten to the power `e`, rounded down, but
/// at most `WHOLE`.
fn capped_scaled(digits: &Vec<char>, e: i128) -> (r: u32)
    requires
        all_digits(digits@),
    ensures
        r == at_most(scaled(number_of(digits@), e as int), WHOLE as nat),
{
    let n: usize = digits.len();
    assert(digits@.subrange(0, n as int) == digits@);
    let ghost v = number_of(digits@);
    if e < 0 {
        if e <= -(n as i128) {
            proof {
                lemma_scaled_low(digits@, e as int);
            }
            return 0;
        }
        let drop: usize = (-e) as usize;
        proof {
            lemma_number_drop(digits@, drop as nat);
            assert(digits@.take(n - drop) == digits@.subrange(0, n - drop));
            assert(all_digits(digits@.subrange(0, n - drop)));
        }
        return capped_number(digits, 0, n - drop, 1_000_000_000) as u32;
    }
    let mut acc: u128 = capped_number(digits, 0, n, 1_000_000_000);
    let mut k: i128 = 0;
    assert(pow10(0) == 1);
    assert(v * 1 == v);
    while k < e && acc > 0 && acc < 1_000_000_000
        invariant
            0 <= k <= e,
            acc <= 1_000_000_000,
            acc == at_most(v * pow10(k as nat), WHOLE as nat),
        decreases e - k,
    {
        let ghost p = pow10(k as nat);
        assert(pow10((k + 1) as nat) == 10 * p);
        assert(v * (10 * p) == 10 * (v * p)) by (nonlinear_arith);
        acc = acc * 10;
        if acc > 1_000_000_000 {
            acc = 1_000_000_000;
        }
        k = k + 1;
    }
    proof {
        let p = pow10(k as nat);
        let q = pow10(e as nat);
        lemma_pow10_positive(k as nat);
        lemma_pow10_grows(k as nat, e as nat);
        if acc == 0 {
            assert(v == 0) by (nonlinear_arith)
                requires
                    v * p == 0,
                    p >= 1,
            ;
            assert(v * q == 0) by (nonlinear_arith)
                requires
                    v == 0,
            ;
        } else if acc == 1_000_000_000 {
            assert(v * q >= v * p) by (nonlinear_arith)
                requires
                    q >= p,
            ;
        }
    }
    acc as u32
}

/// The position of the first `a` or `b` in `v` from `from` on and before `to`;
/// `to` if there is none.
fn first_of(v: &Vec<char>, from: usize, to: usize, a: char, b: char) -> (r: usize)
    requires
        from <= to <= v.len(),
    ensures
        from <= r <= to,
        r - from == first_place(
            v@.subrange(from as int, to as int),
            |c: char| c == a || c == b,
        ),
{
    let mut i: usize = from;
    while i < to && v[i] != a && v[i] != b
        invariant
            from <= i <= to <= v.len(),
            forall|k: int| from <= k < i ==> v[k] != a && v[k] != b,
        decreases to - i,
    {
        i = i + 1;
    }
    proof {
        lemma_first_place(
            v@.subrange(from as int, to as int),
            |c: char| c == a || c == b,
            i - from,
        );
    }
    i
}

/// The largest exponent that is told apart from larger ones.
const FAR: i128 = 0x10_0000_0000_0000_0000_0000_0000;

/// The exponent that the characters of `v` from `from` on write, held between
/// `-FAR` and `FAR`.
fn held_exponent(v: &Vec<char>, from: usize) -> (r: Option<i128>)
    requires
        from <= v.len(),
    ensures
        match (r, exponent_of(v@.skip(from as int))) {
            (Some(x), Some(e)) => -FAR <= x <= FAR && (-FAR < x < FAR ==> x == e) && (x == FAR
                ==> e >= FAR) && (x == -FAR ==> e <= -FAR),
            (None, None) => true,
            _ => false,
        },
{
    let n: usize = v.len();
    let sign: bool = from < n && (v[from] == '+' || v[from] == '-');
    let start: usize = if sign {
        from + 1
    } else {
        from
    };
    assert(v@.subrange(start as int, n as int) == unsigned_part(v@.skip(from as int)));
    if start == n || !digits_only(v, start, n) {
        return None;
    }
    let size: u128 = capped_number(v, start, n, FAR as u128);
    if sign && v[from] == '-' {
        Some(-(size as i128))
    } else {
        Some(size as i128)
    }
}

/// The share that the digits of `v` from `from` on write as a percentage; see
/// [`percentage_of`].
fn finite_percentage(v: &Vec<char>, from: usize, negative: bool) -> (r: Option<Fraction>)
    requires
        from <= v.len(),
    ensures
        match (r, finite_of(negative, v@.skip(from as int))) {
            (Some(f), Some(Literal::Finite { negative: below, digits, exponent })) => below == negative
                && f.wf() && f.billionths == (if negative {
                0
            } else {
                at_most(scaled(number_of(digits), exponent + 7), WHOLE as nat)
            }),
            (None, None) => true,
            _ => false,
        },
{
    let n: usize = v.len();
    let ghost body = v@.skip(from as int);
    assert(v@.subrange(from as int, n as int) == body);
    let e: usize = first_of(v, from, n, 'e', 'E');
    let ghost mantissa = body.take(e - from);
    assert(v@.subrange(from as int, e as int) == mantissa);
    let point: usize = first_of(v, from, e, '.', '.');
    let ghost dot = |c: char| c == '.' || c == '.';
    assert(dot =~= |c: char| c == '.');
    let behind: usize = if point < e {
        point + 1
    } else {
        e
    };
    let ghost whole = mantissa.take(point - from);
    let ghost decimals = if point < e {
        mantissa.skip(point - from + 1)
    } else {
        seq![]
    };
    assert(v@.subrange(from as int, point as int) == whole);
    assert(v@.subrange(behind as int, e as int) == decimals);
    if !digits_only(v, from, point) || !digits_only(v, behind, e) || (point == from && behind == e) {
        return None;
    }
    let exponent: i128 = if e < n {
        assert(v@.skip(e + 1) == body.skip(e - from + 1));
        match held_exponent(v, e + 1) {
            Some(x) => x,
            None => {
                return None;
            },
        }
    } else {
        0
    };
    if negative {
        return Some(Fraction { billionths: 0 });
    }
    let mut digits: Vec<char> = Vec::new();
    let mut i: usize = from;
    while i < point
        invariant
            from <= i <= point <= v.len(),
            digits@ == v@.subrange(from as int, i as int),
        decreases point - i,
    {
        digits.push(v[i]);
        i = i + 1;
    }
    assert(digits@ == whole);
    let mut j: usize = behind;
    while j < e
        invariant
            behind <= j <= e <= v.len(),
            digits@ == whole + v@.subrange(behind as int, j as int),
        decreases e - j,
    {
        digits.push(v[j]);
        j = j + 1;
    }
    assert(digits@ == whole + decimals);
    assert(all_digits(digits@));
    let places: i128 = (e - behind) as i128;
    let shift: i128 = exponent - places + 7;
    let ghost literal = finite_of(negative, body);
    proof {
        let true_shift = literal->0->Finite_exponent + 7;
        if exponent == FAR {
            lemma_scaled_high(number_of(digits@), shift as int);
            lemma_scaled_high(number_of(digits@), true_shift);
        } else if exponent == -FAR {
            lemma_scaled_low(digits@, shift as int);
            lemma_scaled_low(digits@, true_shift);
        }
    }
    Some(Fraction { billionths: capped_scaled(&digits, shift) })
}

/// The share that `s` writes as a percentage.
pub fn parse_percentage(s: &str) -> (r: Option<Fraction>)
    ensures
        match r {
            Some(f) => f.wf() && percentage_of(s@) == Some(f.billionths as nat),
            None => percentage_of(s@) is None,
        },
{
    let v = chars_of(s);
    let sign: bool = v.len() > 0 && (v[0] == '+' || v[0] == '-');
    let negative: bool = sign && v[0] == '-';
    let from: usize = if sign {
        1
    } else {
        0
    };
    assert(v@.skip(from as int) == unsigned_part(s@));
    let inf: Vec<char> = vec!['i', 'n', 'f'];
    let infinity: Vec<char> = vec!['i', 'n', 'f', 'i', 'n', 'i', 't', 'y'];
    let nan: Vec<char> = vec!['n', 'a', 'n'];
    assert(inf@ == seq!['i', 'n', 'f']);
    assert(infinity@ == seq!['i', 'n', 'f', 'i', 'n', 'i', 't', 'y']);
    assert(nan@ == seq!['n', 'a', 'n']);
    if is_word_at(&v, from, &inf) || is_word_at(&v, from, &infinity) {
        return Some(
            Fraction {
                billionths: if negative {
                    0
                } else {
                    WHOLE
                },
            },
        );
    }
    if is_word_at(&v, from, &nan) {
        return None;
    }
    finite_percentage(&v, from, negative)
}

/// Digits alone are a number of percent: each is ten million billionths, up to all of
/// it.
pub proof fn law_percentage_of_digits(digits: Seq<char>)
    requires
        digits.len() > 0,
        all_digits(digits),
    ensures
        percentage_of(digits) == Some(
            if number_of(digits) < 100 {
                number_of(digits) * 10_000_000
            } else {
                1_000_000_000
            },
        ),
{
    let n = digits.len() as int;
    assert(digit(digits[0]));
    let e = |c: char| c == 'e' || c == 'E';
    let point = |c: char| c == '.';
    assert forall|k: int| 0 <= k < n implies !e(#[trigger] digits[k]) by {
        assert(digit(digits[k]));
    }
    lemma_first_place(digits, e, n);
    assert(digits.take(n) == digits);
    assert forall|k: int| 0 <= k < n implies !point(#[trigger] digits[k]) by {
        assert(digit(digits[k]));
    }
    lemma_first_place(digits, point, n);
    assert(small_letter(digits[0]) == digits[0]);
    assert(digits + Seq::<char>::empty() == digits);
    assert(all_digits(Seq::<char>::empty()));
    reveal_with_fuel(pow10, 8);
    assert(pow10(7) == 10_000_000);
}

/// Whether a number may start with `c`: a digit, a sign, a point, or the first letter
/// of infinity or of what is no number.
pub open spec fn starts_number(c: char) -> bool {
    digit(c) || c == '+' || c == '-' || c == '.' || c == 'i' || c == 'I' || c == 'n' || c == 'N'
}

/// What starts with anything else is no percentage, nor is nothing at all.
pub proof fn law_no_number(s: Seq<char>)
    requires
        s.len() > 0 ==> !starts_number(s[0]),
    ensures
        percentage_of(s) is None,
{
    let e = |c: char| c == 'e' || c == 'E';
    let point = |c: char| c == '.';
    if s.len() > 0 {
        assert(small_letter(s[0]) != 'i' && small_letter(s[0]) != 'n');
        let at = first_place(s, e);
        lemma_first_place_bounds(s, e);
        let mantissa = s.take(at);
        lemma_first_place_bounds(mantissa, point);
        if at > 0 {
            assert(mantissa[0] == s[0]);
            let whole = mantissa.take(first_place(mantissa, point));
            assert(!point(mantissa[0]));
            assert(whole[0] == s[0]);
            assert(!digit(whole[0]));
        }
    }
}

/// A number that is written in decimal reads back as itself.
pub proof fn law_decimal_reads_back(n: nat)
    ensures
        decimal_of(n).len() > 0,
        all_digits(decimal_of(n)),
        number_of(decimal_of(n)) == n,
        n > 0 ==> decimal_of(n)[0] != '0',
        forall|max: nat| n <= max ==> #[trigger] whole_number_of(decimal_of(n), max) == Some(n),
    decreases n,
{
    let s = decimal_of(n);
    if n >= 10 {
        law_decimal_reads_back(n / 10);
        let rest = decimal_of(n / 10);
        assert(s.drop_last() == rest);
        assert forall|k: int| 0 <= k < s.len() implies digit(#[trigger] s[k]) by {
            if k < rest.len() {
                assert(s[k] == rest[k]);
                assert(digit(rest[k]));
            }
        }
        assert(s[0] == rest[0]);
    } else {
        assert(s.drop_last() == Seq::<char>::empty());
        reveal_with_fuel(number_of, 2);
    }
    assert(digit(s[0]));
}

/// Decimals behind a point count as much less: the digits as one number, moved back by
/// as many places as there are decimals, rounded down to a billionth.
pub proof fn law_percentage_with_point(whole: Seq<char>, decimals: Seq<char>)
    requires
        whole.len() + decimals.len() > 0,
        all_digits(whole),
        all_digits(decimals),
    ensures
        ({
            let n = number_of(whole + decimals) * 10_000_000;
            let share = n / pow10(decimals.len());
            percentage_of(whole + seq!['.'] + decimals) == Some(
                if share < 1_000_000_000 {
                    share
                } else {
                    1_000_000_000
                },
            )
        }),
{
    let s = whole + seq!['.'] + decimals;
    let at = whole.len() as int;
    let d = decimals.len();
    let e = |c: char| c == 'e' || c == 'E';
    let point = |c: char| c == '.';
    assert forall|k: int| 0 <= k < s.len() implies !e(#[trigger] s[k]) by {
        if k < at {
            assert(digit(whole[k]));
        } else if k > at {
            assert(digit(decimals[k - at - 1]));
        }
    }
    lemma_first_place(s, e, s.len() as int);
    assert(s.take(s.len() as int) == s);
    assert forall|k: int| 0 <= k < at implies !point(#[trigger] s[k]) by {
        assert(digit(whole[k]));
    }
    lemma_first_place(s, point, at);
    assert(s.take(at) == whole);
    assert(s.skip(at + 1) == decimals);
    if at > 0 {
        assert(digit(whole[0]));
        assert(s[0] == whole[0]);
    } else {
        assert(s[0] == '.');
    }
    assert(small_letter(s[0]) == s[0]);
    let v = number_of(whole + decimals);
    reveal_with_fuel(pow10, 8);
    assert(pow10(7) == 10_000_000);
    lemma_pow10_positive(d);
    if d <= 7 {
        lemma_pow10_sum((7 - d) as nat, d);
        let (p, q) = (pow10((7 - d) as nat), pow10(d));
        assert(v * 10_000_000 / q == v * p) by (nonlinear_arith)
            requires
                p * q == 10_000_000,
                q >= 1,
        ;
    } else {
        lemma_pow10_sum((d - 7) as nat, 7);
        let r = pow10((d - 7) as nat);
        lemma_pow10_positive((d - 7) as nat);
        vstd::arithmetic::div_mod::lemma_div_denominator(
            (v * 10_000_000) as int,
            10_000_000,
            r as int,
        );
        assert(v * 10_000_000 / 10_000_000 == v);
        assert(pow10(d) == r * 10_000_000);
    }
}

proof fn lemma_pow10_sum(a: nat, b: nat)
    ensures
        pow10(a + b) == pow10(a) * pow10(b),
    decreases a,
{
    if a == 0 {
        assert(1 * pow10(b) == pow10(b));
    } else {
        lemma_pow10_sum((a - 1) as nat, b);
        let (x, y) = (pow10((a - 1) as nat), pow10(b));
        assert((10 * x) * y == 10 * (x * y)) by (nonlinear_arith);
        assert(pow10(a + b) == 10 * pow10((a + b - 1) as nat));
    }
}

/// A padded number has as many digits as asked for, and they are its last ones.
pub proof fn law_padded_decimal_reads_back(n: nat, width: nat)
    ensures
        padded_decimal_of(n, width).len() == width,
        all_digits(padded_decimal_of(n, width)),
        number_of(padded_decimal_of(n, width)) == n % pow10(width),
    decreases width,
{
    let s = padded_decimal_of(n, width);
    if width > 0 {
        let w = (width - 1) as nat;
        let rest = padded_decimal_of(n / 10, w);
        law_padded_decimal_reads_back(n / 10, w);
        assert(s.drop_last() == rest);
        assert forall|k: int| 0 <= k < s.len() implies digit(#[trigger] s[k]) by {
            if k < rest.len() {
                assert(s[k] == rest[k]);
                assert(digit(rest[k]));
            }
        }
        let p = pow10(w);
        lemma_pow10_positive(w);
        assert(n % (10 * p) == 10 * ((n / 10) % p) + n % 10) by {
            vstd::arithmetic::div_mod::lemma_mod_breakdown(n as int, 10, p as int);
        }
    } else {
        assert(n % 1 == 0);
    }
}

} // verus!
