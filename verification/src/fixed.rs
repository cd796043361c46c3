//! Fixed-point numbers with nine decimals: times in whole nanoseconds and
//! fractions in whole billionths. They are written in decimal as the
//! single-precision numbers nearest to them.
use crate::text::{
    decimal_of, digit_char, padded_decimal_of, push_decimal, push_padded_decimal,
};
use vstd::prelude::*;

verus! {

/// A time, in nanoseconds.
pub type Nanos = i128;

/// One second.
pub const SECOND: i128 = 1_000_000_000;

/// A share of a whole, from none of it to all of it.
#[derive(Clone, Copy, PartialEq, Eq, Structural, Debug)]
pub struct Fraction {
    /// The share in billionths of the whole.
    pub billionths: u32,
}

/// All of it, in billionths.
pub const WHOLE: u32 = 1_000_000_000;

impl Fraction {
    /// At most all of it.
    pub open spec fn wf(self) -> bool {
        self.billionths <= WHOLE
    }

    /// None of it.
    pub fn none() -> (r: Fraction)
        ensures
            r.wf(),
            r.billionths == 0,
    {
        Fraction { billionths: 0 }
    }

    /// `part` of `whole`, rounded down to a billionth, and all of it where
    /// `part` is larger than `whole`.
    pub fn of(part: u64, whole: u64) -> (r: Fraction)
        requires
            whole > 0,
        ensures
            r.wf(),
            r.billionths == share_of(part as nat, whole as nat),
    {
        if part >= whole {
            proof {
                lemma_share_full(part as nat, whole as nat);
            }
            Fraction { billionths: WHOLE }
        } else {
            let scaled: u128 = part as u128 * 1_000_000_000u128;
            let q: u128 = scaled / (whole as u128);
            proof {
                lemma_share_part(part as nat, whole as nat);
            }
            Fraction { billionths: q as u32 }
        }
    }
}

/// `part` of `whole` in billionths, rounded down, and at most all of it.
pub open spec fn share_of(part: nat, whole: nat) -> nat {
    if part * WHOLE as nat / whole < WHOLE {
        part * WHOLE as nat / whole
    } else {
        WHOLE as nat
    }
}

proof fn lemma_share_full(part: nat, whole: nat)
    requires
        0 < whole <= part,
    ensures
        share_of(part, whole) == WHOLE,
{
    assert(part * 1_000_000_000nat / whole >= 1_000_000_000) by (nonlinear_arith)
        requires
            0 < whole <= part,
    ;
}

proof fn lemma_share_part(part: nat, whole: nat)
    requires
        part < whole,
    ensures
        share_of(part, whole) == part * 1_000_000_000nat / whole < WHOLE,
{
    assert(part * 1_000_000_000nat / whole < 1_000_000_000) by (nonlinear_arith)
        requires
            part < whole,
    ;
}

/// Ten to the power `k`.
pub open spec fn pow10(k: nat) -> nat
    decreases k,
{
    if k == 0 {
        1
    } else {
        10 * pow10((k - 1) as nat)
    }
}

/// `n / d` rounded to the nearest whole number, and to the even one of two that
/// are equally near.
pub open spec fn round_half_even(n: nat, d: nat) -> nat {
    if 2 * (n % d) < d || (2 * (n % d) == d && (n / d) % 2 == 0) {
        n / d
    } else {
        n / d + 1
    }
}

/// Two to the power `k`.
pub open spec fn pow2(k: nat) -> nat
    decreases k,
{
    if k == 0 {
        1
    } else {
        2 * pow2((k - 1) as nat)
    }
}

/// Twenty-four bits: how many a single-precision number keeps.
pub const PRECISION: u128 = 0x100_0000;

/// How often `n / d` has to be doubled until its whole part has twenty-four bits;
/// never if it is zero.
pub open spec fn doublings(n: nat, d: nat) -> nat
    decreases PRECISION * d - n,
{
    if n == 0 || 2 * n >= PRECISION * d {
        0
    } else {
        1 + doublings(2 * n, d)
    }
}

/// How often `n / d` has to be halved until its whole part has no more than
/// twenty-four bits.
pub open spec fn halvings(n: nat, d: nat) -> nat
    decreases n - d,
{
    if d == 0 || n < PRECISION * d {
        0
    } else {
        1 + halvings(n, 2 * d)
    }
}

/// The single-precision number nearest to `size` billionths, in whole numbers of
/// its last bit; an even one if two are equally near.
pub open spec fn single_bits(size: nat) -> nat {
    round_half_even(
        size * pow2(doublings(size, WHOLE as nat)),
        WHOLE as nat * pow2(halvings(size, WHOLE as nat)),
    )
}

/// The single-precision number nearest to `size` billionths, times ten to the power
/// `places`, rounded to a whole number, and to the even one of two that are equally
/// near.
pub open spec fn single_scaled(size: nat, places: nat) -> nat {
    round_half_even(
        single_bits(size) * pow2(halvings(size, WHOLE as nat)) * pow10(places),
        pow2(doublings(size, WHOLE as nat)),
    )
}

/// The text of `size` billionths with `places` decimals.
pub open spec fn size_of(size: nat, places: nat) -> Seq<char> {
    let scaled = single_scaled(size, places);
    decimal_of(scaled / pow10(places)) + (if places == 0 {
        ""@
    } else {
        "."@ + padded_decimal_of(scaled % pow10(places), places)
    })
}

/// The text of `n` billionths with `places` decimals, with a minus in front of what
/// is below zero. What is written is the single-precision number nearest to it,
/// rounded to the nearest and a half to the even digit.
pub open spec fn fixed_of(n: int, places: nat) -> Seq<char> {
    if n < 0 {
        "-"@ + size_of((-n) as nat, places)
    } else {
        size_of(n as nat, places)
    }
}

fn power_of_ten(k: usize) -> (r: u128)
    requires
        k <= 9,
    ensures
        r == pow10(k as nat),
        1 <= r <= 1_000_000_000,
{
    let mut r: u128 = 1;
    let mut i: usize = 0;
    reveal_with_fuel(pow10, 10);
    while i < k
        invariant
            i <= k <= 9,
            r == pow10(i as nat),
            1 <= r,
            i == 0 ==> r == 1,
            i == 1 ==> r == 10,
            i == 2 ==> r == 100,
            i == 3 ==> r == 1_000,
            i == 4 ==> r == 10_000,
            i == 5 ==> r == 100_000,
            i == 6 ==> r == 1_000_000,
            i == 7 ==> r == 10_000_000,
            i == 8 ==> r == 100_000_000,
            i == 9 ==> r == 1_000_000_000,
        decreases k - i,
    {
        r = r * 10;
        i = i + 1;
    }
    r
}

/// `n / d` rounded to the nearest whole number, and to the even one of two that are
/// equally near.
fn rounded(n: u128, d: u128) -> (r: u128)
    requires
        0 < d,
        2 * d <= u128::MAX,
    ensures
        r == round_half_even(n as nat, d as nat),
        r * d <= n + d,
{
    let below: u128 = n % d;
    let whole: u128 = n / d;
    proof {
        let (a, b, q, m) = (n as int, d as int, whole as int, below as int);
        assert(a == q * b + m && 0 <= m < b && 0 <= q <= a) by (nonlinear_arith)
            requires
                q == a / b,
                m == a % b,
                a >= 0,
                b > 0,
        ;
        assert((q + 1) * b == q * b + b) by (nonlinear_arith);
        if q == a && m > 0 {
            assert(q * b >= q) by (nonlinear_arith)
                requires
                    b >= 1,
                    q >= 0,
            ;
        }
    }
    if 2 * below < d || (2 * below == d && whole % 2 == 0) {
        whole
    } else {
        whole + 1
    }
}

/// Powers of ten grow with their exponents.
pub proof fn lemma_pow10_grows(a: nat, b: nat)
    requires
        a <= b,
    ensures
        pow10(a) <= pow10(b),
    decreases b,
{
    if a < b {
        lemma_pow10_grows(a, (b - 1) as nat);
    }
}

/// What is computed on the way from `size` to its text fits.
proof fn lemma_single_fits(size: nat, up: nat, down: nat)
    requires
        size <= u128::MAX,
        1 <= up,
        1 <= down,
        size > 0 && up > 1 ==> size * up < PRECISION * WHOLE,
        down > 1 ==> WHOLE * down * 0x80_0000 <= size,
        size == 0 ==> up == 1,
    ensures
        up < 0x4000_0000_0000_0000,
        size * up <= u128::MAX,
        1_000_000_000 * down <= 0x200_0000_0000_0000_0000_0000_0000,
{
    if size > 0 && up > 1 {
        assert(up <= size * up) by (nonlinear_arith)
            requires
                size >= 1,
        ;
    } else {
        assert(size * 1 == size);
    }
}

/// Two to the power of the doublings of `size`.
fn doubling_factor(size: u128) -> (r: u128)
    ensures
        r == pow2(doublings(size as nat, WHOLE as nat)),
        1 <= r,
        size > 0 && r > 1 ==> size * r < PRECISION * WHOLE,
        size == 0 ==> r == 1,
{
    let mut num: u128 = size;
    let mut r: u128 = 1;
    let ghost mut k: nat = 0;
    assert(size * 1 == size);
    if size > 0 {
        while num < 8_388_608_000_000_000u128
            invariant
                0 < num,
                1 <= r,
                num == size * r,
                r == pow2(k),
                r <= num,
                num < 16_777_216_000_000_000u128 || r == 1,
                doublings(size as nat, WHOLE as nat) == k + doublings(num as nat, WHOLE as nat),
            decreases 16_777_216_000_000_000u128 - num,
        {
            assert(size * (2 * r) == 2 * (size * r)) by (nonlinear_arith);
            num = num * 2;
            r = r * 2;
            proof {
                k = k + 1;
            }
        }
    }
    r
}

/// Two to the power of the halvings of `size`.
fn halving_factor(size: u128) -> (r: u128)
    ensures
        r == pow2(halvings(size as nat, WHOLE as nat)),
        1 <= r,
        r > 1 ==> WHOLE * r * 0x80_0000 <= size,
{
    let mut den: u128 = 1_000_000_000;
    let mut r: u128 = 1;
    let ghost mut k: nat = 0;
    while size / 0x100_0000 >= den
        invariant
            den == 1_000_000_000 * r,
            1 <= r,
            r == pow2(k),
            r > 1 ==> den * 0x80_0000 <= size,
            halvings(size as nat, WHOLE as nat) == k + halvings(size as nat, den as nat),
        decreases size - den,
    {
        den = den * 2;
        r = r * 2;
        proof {
            k = k + 1;
        }
    }
    r
}

/// Appends `size` billionths with `places` decimals to `s`, which holds the sign.
fn push_size(s: &mut String, size: u128, places: usize)
    requires
        places <= 8,
    ensures
        final(s)@ == old(s)@ + size_of(size as nat, places as nat),
{
    let ghost before = s@;
    let up: u128 = doubling_factor(size);
    let down: u128 = halving_factor(size);
    let whole: u128 = power_of_ten(places);
    proof {
        lemma_single_fits(size as nat, up as nat, down as nat);
    }
    let bits: u128 = rounded(size * up, 1_000_000_000 * down);
    proof {
        assert(pow10(8) == 100_000_000) by {
            reveal_with_fuel(pow10, 9);
        }
        lemma_pow10_grows(places as nat, 8);
        let (m, q, t) = (bits as int, down as int, whole as int);
        assert(0 <= m * q <= m * q * t && m * q * t <= m * q * 100_000_000 && 10 * (m * q
            * 100_000_000) == m * (1_000_000_000 * q)) by (nonlinear_arith)
            requires
                0 <= m,
                0 <= q,
                1 <= t <= 100_000_000,
        ;
    }
    let scaled: u128 = rounded(bits * down * whole, up);
    assert(scaled == single_scaled(size as nat, places as nat));
    push_decimal(s, scaled / whole);
    if places > 0 {
        s.append(".");
        push_padded_decimal(s, scaled % whole, places);
    }
    proof {
        reveal_strlit("");
        assert(s@ == before + size_of(size as nat, places as nat));
    }
}

/// The text of `n` nanoseconds in seconds, with `places` decimals.
pub fn fixed_text(n: Nanos, places: usize) -> (r: String)
    requires
        places <= 8,
    ensures
        r@ == fixed_of(n as int, places as nat),
{
    let mut s = String::new();
    let size: u128 = if n < 0 {
        s.append("-");
        (-(n + 1)) as u128 + 1
    } else {
        n as u128
    };
    proof {
        reveal_strlit("-");
        assert(n < 0 ==> s@ == "-"@);
    }
    push_size(&mut s, size, places);
    assert(s@ == fixed_of(n as int, places as nat));
    s
}

/// How far `a` and `b` are apart.
pub open spec fn distance_of(a: int, b: int) -> nat {
    if a < b {
        (b - a) as nat
    } else {
        (a - b) as nat
    }
}

/// How far `a` and `b` are apart.
pub fn distance(a: Nanos, b: Nanos) -> (r: u128)
    ensures
        r == distance_of(a as int, b as int),
{
    let (low, high): (i128, i128) = if a < b {
        (a, b)
    } else {
        (b, a)
    };
    if low >= 0 || high < 0 {
        (high - low) as u128
    } else {
        high as u128 + ((-(low + 1)) as u128 + 1)
    }
}

/// The text of the time from `a` to `b` in seconds, with `places` decimals; of no
/// time at all where `b` is before `a`.
pub fn span_text(a: Nanos, b: Nanos, places: usize) -> (r: String)
    requires
        places <= 8,
    ensures
        r@ == fixed_of(
            if a < b {
                b - a
            } else {
                0
            },
            places as nat,
        ),
{
    let mut s = String::new();
    let size: u128 = if a < b {
        distance(a, b)
    } else {
        0
    };
    push_size(&mut s, size, places);
    assert(s@ == size_of(size as nat, places as nat));
    s
}

proof fn lemma_decimal_digits(n: nat)
    ensures
        forall|k: int| 0 <= k < decimal_of(n).len() ==> '0' <= #[trigger] decimal_of(n)[k] <= '9',
    decreases n,
{
    if n >= 10 {
        lemma_decimal_digits(n / 10);
        let rest = decimal_of(n / 10);
        assert forall|k: int| 0 <= k < decimal_of(n).len() implies '0' <= #[trigger] decimal_of(
            n,
        )[k] <= '9' by {
            if k < rest.len() {
                assert(decimal_of(n)[k] == rest[k]);
            } else {
                assert(decimal_of(n)[k] == digit_char((n % 10) as int));
            }
        }
    }
}

proof fn lemma_padded_digits(n: nat, width: nat)
    ensures
        forall|k: int|
            0 <= k < padded_decimal_of(n, width).len() ==> '0' <= #[trigger] padded_decimal_of(
                n,
                width,
            )[k] <= '9',
    decreases width,
{
    if width > 0 {
        let rest = padded_decimal_of(n / 10, (width - 1) as nat);
        lemma_padded_digits(n / 10, (width - 1) as nat);
        assert forall|k: int| 0 <= k < padded_decimal_of(n, width).len() implies '0'
            <= #[trigger] padded_decimal_of(n, width)[k] <= '9' by {
            if k < rest.len() {
                assert(padded_decimal_of(n, width)[k] == rest[k]);
            } else {
                assert(padded_decimal_of(n, width)[k] == digit_char((n % 10) as int));
            }
        }
    }
}

/// The text of a fixed-point number holds digits, a minus and a point, and
/// nothing else.
pub proof fn law_fixed_characters(n: int, places: nat, k: int)
    requires
        places <= 9,
        0 <= k < fixed_of(n, places).len(),
    ensures
        '0' <= fixed_of(n, places)[k] <= '9' || fixed_of(n, places)[k] == '-' || fixed_of(
            n,
            places,
        )[k] == '.',
{
    reveal_strlit("-");
    reveal_strlit("");
    reveal_strlit(".");
    let size = if n < 0 {
        -n
    } else {
        n
    };
    let scaled = single_scaled(size as nat, places);
    let whole = decimal_of(scaled / pow10(places));
    lemma_decimal_digits(scaled / pow10(places));
    lemma_padded_digits(scaled % pow10(places), places);
    let front: int = if n < 0 {
        1
    } else {
        0
    };
    if front <= k < front + whole.len() {
        assert(fixed_of(n, places)[k] == whole[k - front]);
    } else if k > front + whole.len() {
        let decimals = padded_decimal_of(scaled % pow10(places), places);
        assert(fixed_of(n, places)[k] == decimals[k - front - whole.len() - 1]);
    }
}

/// A share is rounded down: so many billionths are no more than the part, and one more
/// would be. All of it is reached with the whole.
pub proof fn law_share(part: nat, whole: nat)
    requires
        whole > 0,
    ensures
        part < whole ==> share_of(part, whole) * whole <= part * 1_000_000_000 < (share_of(
            part,
            whole,
        ) + 1) * whole,
        part >= whole ==> share_of(part, whole) == 1_000_000_000,
{
    if part < whole {
        lemma_share_part(part, whole);
        let n = part * 1_000_000_000;
        let q = n / whole;
        assert(q * whole <= n < (q + 1) * whole) by (nonlinear_arith)
            requires
                q == n / whole,
                whole > 0,
        ;
    } else {
        lemma_share_full(part, whole);
    }
}

proof fn lemma_pow2_positive(k: nat)
    ensures
        pow2(k) >= 1,
    decreases k,
{
    if k > 0 {
        lemma_pow2_positive((k - 1) as nat);
    }
}

/// A rounded quotient is as near as a whole number can be.
proof fn lemma_round_half_even(n: nat, d: nat)
    requires
        d > 0,
    ensures
        2 * n <= 2 * (round_half_even(n, d) * d) + d,
        2 * (round_half_even(n, d) * d) <= 2 * n + d,
        n % d == 0 ==> round_half_even(n, d) == n / d,
{
    let (q, m) = (n / d, n % d);
    assert(n == q * d + m && 0 <= m < d && (q + 1) * d == q * d + d) by (nonlinear_arith)
        requires
            q == n / d,
            m == n % d,
            d > 0,
    ;
}

/// Doubling stops when twenty-four bits are reached.
proof fn lemma_doublings(n: nat, d: nat)
    requires
        n > 0,
    ensures
        2 * (n * pow2(doublings(n, d))) >= 16_777_216 * d,
        doublings(n, d) > 0 ==> n * pow2(doublings(n, d)) < 16_777_216 * d,
    decreases 16_777_216 * d - n,
{
    if 2 * n >= 16_777_216 * d {
        assert(n * 1 == n);
    } else {
        lemma_doublings(2 * n, d);
        let j = doublings(2 * n, d);
        let p = pow2(j);
        assert(n * (2 * p) == (2 * n) * p) by (nonlinear_arith);
        assert(pow2((1 + j) as nat) == 2 * p);
        if j == 0 {
            assert((2 * n) * 1 == 2 * n);
        }
    }
}

/// Halving stops when no more than twenty-four bits are left.
proof fn lemma_halvings(n: nat, d: nat)
    requires
        d > 0,
    ensures
        n < 16_777_216 * (d * pow2(halvings(n, d))),
        halvings(n, d) > 0 ==> 2 * n >= 16_777_216 * (d * pow2(halvings(n, d))),
    decreases n - d,
{
    if n < 16_777_216 * d {
        assert(d * 1 == d);
    } else {
        lemma_halvings(n, 2 * d);
        let h = halvings(n, 2 * d);
        let p = pow2(h);
        assert(d * (2 * p) == (2 * d) * p) by (nonlinear_arith);
        assert(pow2((1 + h) as nat) == 2 * p);
        if h == 0 {
            assert((2 * d) * 1 == 2 * d);
        }
    }
}

/// What is written is the number nearest to the time that has twenty-four bits, and
/// that to the nearest digit: the time in units of the last bit is at least half of
/// twenty-four bits and less than all, and each rounding is off by half a unit at most.
pub proof fn law_text_is_near(size: nat, places: nat)
    ensures
        ({
            let up = pow2(doublings(size, 1_000_000_000));
            let down = pow2(halvings(size, 1_000_000_000));
            let unit = 1_000_000_000 * down;
            let (bits, scaled) = (single_bits(size), single_scaled(size, places));
            let exact = bits * down * pow10(places);
            &&& size * up < 16_777_216 * unit
            &&& size > 0 ==> 2 * (size * up) >= 16_777_216 * unit
            &&& 2 * (size * up) <= 2 * (bits * unit) + unit
            &&& 2 * (bits * unit) <= 2 * (size * up) + unit
            &&& 2 * exact <= 2 * (scaled * up) + up
            &&& 2 * (scaled * up) <= 2 * exact + up
        }),
{
    let up = pow2(doublings(size, 1_000_000_000));
    let down = pow2(halvings(size, 1_000_000_000));
    lemma_pow2_positive(doublings(size, 1_000_000_000));
    lemma_pow2_positive(halvings(size, 1_000_000_000));
    lemma_round_half_even(size * up, 1_000_000_000 * down);
    lemma_round_half_even(single_bits(size) * down * pow10(places), up);
    lemma_halvings(size, 1_000_000_000);
    if size > 0 {
        lemma_doublings(size, 1_000_000_000);
    }
    if doublings(size, 1_000_000_000) == 0 {
        assert(size * 1 == size);
    }
}

/// Whole seconds are written as they are, with zeros behind the point: up to
/// twenty-four bits of them need no rounding.
pub proof fn law_whole_seconds(seconds: nat, places: nat)
    requires
        seconds < 16_777_216,
    ensures
        single_scaled(seconds * 1_000_000_000, places) == seconds * pow10(places),
        fixed_of((seconds * 1_000_000_000) as int, places) == decimal_of(seconds) + if places == 0 {
            ""@
        } else {
            "."@ + padded_decimal_of(0, places)
        },
{
    let size = seconds * 1_000_000_000;
    let up = pow2(doublings(size, 1_000_000_000));
    let ten = pow10(places);
    lemma_pow2_positive(doublings(size, 1_000_000_000));
    lemma_pow10_grows(0, places);
    assert(halvings(size, 1_000_000_000) == 0);
    assert(pow2(0) == 1);
    let n = size * up;
    assert(n == (seconds * up) * 1_000_000_000) by (nonlinear_arith)
        requires
            n == size * up,
            size == seconds * 1_000_000_000,
    ;
    lemma_round_half_even(n, 1_000_000_000);
    assert(single_bits(size) == seconds * up);
    let m = single_bits(size) * 1 * ten;
    let s = seconds * ten;
    assert(m == s * up && m % up == 0 && m / up == s) by (nonlinear_arith)
        requires
            m == (seconds * up) * 1 * ten,
            s == seconds * ten,
            up >= 1,
    ;
    lemma_round_half_even(m, up);
    assert(s / ten == seconds && s % ten == 0) by (nonlinear_arith)
        requires
            s == seconds * ten,
            ten >= 1,
    ;
}

/// What is below zero is written with a minus, like what is above without one.
pub proof fn law_minus(n: int, places: nat)
    requires
        n > 0,
    ensures
        fixed_of(-n, places) == "-"@ + fixed_of(n, places),
{
}

} // verus!
