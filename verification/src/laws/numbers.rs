//! Numbers and their text: rounding is to the nearest, and text reads back.

use vstd::arithmetic::power;
use vstd::arithmetic::power2;
use vstd::prelude::*;

use crate::single;
use crate::single::{Single, INFINITY};
use crate::strings;
use crate::text::lexer;
use crate::text::lexer::CharClass;

verus! {

// ── Rounding ─────────────────────────────────────────────────────────────────

/// What the bits of a positive binary32 number stand for, in units of 2^-149: the lowest 23
/// bits are a fraction, and the eight bits above them an exponent. Where the exponent is not
/// 0, a leading one stands before the fraction, and the whole is shifted.
pub open spec fn units(bits: nat) -> nat {
    let exponent = bits / 0x80_0000;
    let fraction = bits % 0x80_0000;
    if exponent == 0 {
        fraction
    } else {
        (0x80_0000 + fraction) * power2::pow2((exponent - 1) as nat)
    }
}

/// How far `num / den` is from a number of units, times `den`.
pub open spec fn distance(num: nat, den: nat, u: nat) -> int {
    let x = num * power2::pow2(149) - u * den;
    if x < 0 {
        -x
    } else {
        x
    }
}

proof fn lemma_half_even(n: nat, d: nat, j: int)
    requires
        d > 0,
    ensures
        ({
            let h = single::half_even(n, d) as int;
            &&& 2 * (n - h * d) <= d
            &&& -2 * (n - h * d) <= d
            &&& j != h ==> 2 * (n - j * d) >= d || -2 * (n - j * d) >= d
            &&& j < h && 2 * (n - j * d) == d ==> h % 2 == 0
            &&& j > h && -2 * (n - j * d) == d ==> h % 2 == 0
            &&& n >= j * d ==> h >= j
            &&& n < j * d ==> h <= j
        }),
{
    let q = (n / d) as int;
    let r = (n % d) as int;
    let h = single::half_even(n, d) as int;
    vstd::arithmetic::div_mod::lemma_fundamental_div_mod(n as int, d as int);
    let dd = d as int;
    assert(n == q * dd + r) by (nonlinear_arith)
        requires
            n == dd * q + r,
    ;
    assert(0 <= r < dd);
    assert((q + 1) * dd == q * dd + dd) by (nonlinear_arith);
    if j <= q {
        assert(j * dd <= q * dd) by (nonlinear_arith)
            requires
                j <= q,
                dd > 0,
        ;
        if j < q {
            assert(j * dd <= q * dd - dd) by (nonlinear_arith)
                requires
                    j <= q - 1,
                    dd > 0,
            ;
        }
    } else {
        assert(j * dd >= q * dd + dd) by (nonlinear_arith)
            requires
                j >= q + 1,
                dd > 0,
        ;
        if j > q + 1 {
            assert(j * dd >= q * dd + 2 * dd) by (nonlinear_arith)
                requires
                    j >= q + 2,
                    dd > 0,
            ;
        }
    }
}

proof fn lemma_scale(num: nat, den: nat, k: nat)
    requires
        k <= 255,
    ensures
        ({
            let s = single::scale(num, den, k);
            &&& k <= s <= 255
            &&& s < 255 ==> num * power2::pow2(125) < den * power2::pow2(s)
            &&& s > k ==> num * power2::pow2(125) >= den * power2::pow2((s - 1) as nat)
        }),
    decreases 255 - k,
{
    if !(k >= 255 || num * power2::pow2(125) < den * power2::pow2(k)) {
        lemma_scale(num, den, k + 1);
    }
}

/// With the exponent `k` chosen, `num / den` in units lies below 2^(k + 24), and, where `k` is
/// not the least exponent, not below 2^(k + 23).
proof fn lemma_chosen(num: nat, den: nat)
    requires
        den > 0,
    ensures
        ({
            let k = single::scale(num, den, 0);
            let n = num * power2::pow2(149);
            let d = den * power2::pow2(k);
            &&& k <= 255
            &&& d > 0
            &&& k < 255 ==> n < d * 0x100_0000
            &&& k > 0 ==> n >= d * 0x80_0000
        }),
{
    let k = single::scale(num, den, 0);
    lemma_scale(num, den, 0);
    power2::lemma2_to64();
    power2::lemma_pow2_adds(125, 24);
    power2::lemma_pow2_pos(k);
    let a = num * power2::pow2(125);
    let p = power2::pow2(k);
    let d = den * p;
    let n = num * power2::pow2(149);
    let p125 = power2::pow2(125);
    assert(d > 0) by (nonlinear_arith)
        requires
            den > 0,
            p > 0,
            d == den * p,
    ;
    assert(n == a * 0x100_0000) by (nonlinear_arith)
        requires
            n == num * power2::pow2(149),
            power2::pow2(149) == p125 * 0x100_0000,
            a == num * p125,
    ;
    if k > 0 {
        let half = power2::pow2((k - 1) as nat);
        power2::lemma_pow2_adds((k - 1) as nat, 1);
        assert(d == 2 * (den * half)) by (nonlinear_arith)
            requires
                d == den * p,
                p == half * 2,
        ;
    }
}

proof fn lemma_shape(k: nat, h: nat)
    requires
        h <= 0x100_0000,
        k == 0 || h >= 0x80_0000,
    ensures
        units(k * 0x80_0000 + h) == h * power2::pow2(k),
{
    let m = (k * 0x80_0000 + h) as nat;
    power2::lemma2_to64();
    if h < 0x80_0000 {
        assert(m / 0x80_0000 == 0 && m % 0x80_0000 == h);
        assert(h * power2::pow2(0) == h);
    } else if h < 0x100_0000 {
        assert(m / 0x80_0000 == k + 1 && m % 0x80_0000 == h - 0x80_0000);
    } else {
        assert(m / 0x80_0000 == k + 2 && m % 0x80_0000 == 0);
        power2::lemma_pow2_adds(k, 1);
        let p = power2::pow2(k);
        assert(0x80_0000 * (p * 2) == 0x100_0000 * p) by (nonlinear_arith);
    }
}

/// Of two numbers of units, one that is a multiple of 2^k or lies below 2^(k + 23) is no
/// nearer than the rounded multiple of 2^k.
proof fn lemma_other(y: nat, k: nat) -> (c: nat)
    ensures
        units(y) == c * power2::pow2(k) || (k > 0 && units(y) < 0x80_0000 * power2::pow2(k)),
{
    let e = y / 0x80_0000;
    let f = y % 0x80_0000;
    power2::lemma2_to64();
    power2::lemma_pow2_pos(k);
    if e == 0 {
        if k == 0 {
            assert(f * power2::pow2(0) == f);
            f
        } else {
            let p = power2::pow2(k);
            assert(f < 0x80_0000 * p) by (nonlinear_arith)
                requires
                    f < 0x80_0000,
                    p >= 1,
            ;
            0
        }
    } else if e - 1 >= k {
        let rest = (e - 1 - k) as nat;
        power2::lemma_pow2_adds(rest, k);
        let s = (0x80_0000 + f) as nat;
        let (a, b) = (power2::pow2(rest), power2::pow2(k));
        assert(s * (a * b) == (s * a) * b) by (nonlinear_arith);
        s * a
    } else {
        let rest = (k - e) as nat;
        power2::lemma_pow2_adds((e - 1) as nat, rest + 1);
        power2::lemma_pow2_adds(rest, 1);
        power2::lemma_pow2_pos(rest);
        let a = power2::pow2((e - 1) as nat);
        let b = power2::pow2(rest + 1);
        power2::lemma_pow2_pos((e - 1) as nat);
        assert((0x80_0000 + f) * a < 0x80_0000 * (a * b)) by (nonlinear_arith)
            requires
                f < 0x80_0000,
                a >= 1,
                b >= 2,
        ;
        0
    }
}

/// Rounding gives the nearest binary32 number: no finite number is nearer to `num / den`
/// than the one that it is rounded to, and one that is as near has an odd last bit.
pub proof fn rounding_is_to_the_nearest(num: nat, den: nat, y: nat)
    requires
        den > 0,
        single::nearest(num, den) < INFINITY,
        y < INFINITY,
    ensures
        ({
            let x = single::nearest(num, den);
            &&& distance(num, den, units(x)) <= distance(num, den, units(y))
            &&& distance(num, den, units(x)) == distance(num, den, units(y)) ==> units(x) == units(
                y,
            ) || x % 2 == 0
        }),
{
    let k = single::scale(num, den, 0);
    let n = num * power2::pow2(149);
    let p = power2::pow2(k);
    let d = den * p;
    let h = single::half_even(n, d);
    let x = single::nearest(num, den);
    lemma_chosen(num, den);
    lemma_half_even(n, d, 0x100_0000);
    lemma_half_even(n, d, 0x80_0000);
    assert(x == k * 0x80_0000 + h);
    if k == 255 {
        assert(false);
    }
    lemma_shape(k, h);
    assert(h * d == (h * p) * den) by (nonlinear_arith)
        requires
            d == den * p,
    ;
    let c = lemma_other(y, k);
    if units(y) == c * p {
        lemma_half_even(n, d, c as int);
        assert(c * d == (c * p) * den) by (nonlinear_arith)
            requires
                d == den * p,
        ;
        assert(x % 2 == h % 2);
    } else {
        let u = units(y);
        let w = 0x80_0000 * p;
        assert(0x80_0000 * d == w * den) by (nonlinear_arith)
            requires
                d == den * p,
                w == 0x80_0000 * p,
        ;
        assert(u * den < w * den) by (nonlinear_arith)
            requires
                u < w,
                den > 0,
        ;
    }
}

/// A number is rounded to infinity exactly from the middle between the largest finite number
/// and the next power of two on.
pub proof fn rounding_overflows_at_the_end(num: nat, den: nat)
    requires
        den > 0,
    ensures
        single::nearest(num, den) == INFINITY <==> 2 * (num * power2::pow2(149)) >= den * (
        0x1ff_ffff * power2::pow2(253)),
{
    let k = single::scale(num, den, 0);
    let n = num * power2::pow2(149);
    let p = power2::pow2(k);
    let d = den * p;
    let h = single::half_even(n, d);
    lemma_chosen(num, den);
    lemma_half_even(n, d, 0x100_0000);
    lemma_half_even(n, d, 0x80_0000);
    lemma_half_even(n, d, 0xff_ffff);
    let top = power2::pow2(253);
    let dt = den * top;
    assert(den * (0x1ff_ffff * top) == 0x1ff_ffff * dt) by (nonlinear_arith)
        requires
            dt == den * top,
    ;
    power2::lemma_pow2_pos(253);
    assert(dt > 0) by (nonlinear_arith)
        requires
            den > 0,
            top > 0,
            dt == den * top,
    ;
    if k < 253 {
        let rest = (253 - k) as nat;
        power2::lemma_pow2_adds(k, rest);
        power2::lemma_pow2_adds((rest - 1) as nat, 1);
        power2::lemma_pow2_pos((rest - 1) as nat);
        power2::lemma2_to64();
        let b = power2::pow2(rest);
        assert(dt >= 2 * d) by (nonlinear_arith)
            requires
                dt == den * top,
                top == p * b,
                d == den * p,
                b >= 2,
        ;
    } else if k > 253 {
        let rest = (k - 253) as nat;
        power2::lemma_pow2_adds(253, rest);
        power2::lemma_pow2_adds((rest - 1) as nat, 1);
        power2::lemma_pow2_pos((rest - 1) as nat);
        power2::lemma2_to64();
        let b = power2::pow2(rest);
        assert(d >= 2 * dt) by (nonlinear_arith)
            requires
                dt == den * top,
                p == top * b,
                d == den * p,
                b >= 2,
        ;
    } else {
        assert(d == dt);
    }
}

/// Larger bits stand for larger numbers.
pub proof fn larger_bits_are_larger_numbers(a: nat, b: nat)
    requires
        a < b,
    ensures
        units(a) < units(b),
    decreases b - a,
{
    if a + 1 < b {
        larger_bits_are_larger_numbers(a, (b - 1) as nat);
    }
    let c = (b - 1) as nat;
    let e = c / 0x80_0000;
    let f = c % 0x80_0000;
    power2::lemma2_to64();
    if f + 1 < 0x80_0000 {
        assert(b / 0x80_0000 == e && b % 0x80_0000 == f + 1);
        if e > 0 {
            let p = power2::pow2((e - 1) as nat);
            power2::lemma_pow2_pos((e - 1) as nat);
            assert((0x80_0000 + f + 1) * p > (0x80_0000 + f) * p) by (nonlinear_arith)
                requires
                    p > 0,
            ;
        }
    } else {
        assert(b / 0x80_0000 == e + 1 && b % 0x80_0000 == 0);
        if e > 0 {
            let p = power2::pow2((e - 1) as nat);
            power2::lemma_pow2_pos((e - 1) as nat);
            power2::lemma_pow2_adds((e - 1) as nat, 1);
            assert(0x80_0000 * (p * 2) > (0x80_0000 + f) * p) by (nonlinear_arith)
                requires
                    p > 0,
                    f < 0x80_0000,
            ;
        } else {
            assert(units(b) == (0x80_0000 + 0) * power2::pow2(0));
        }
    }
}

/// What a finite number stands for is rounded to the number itself.
pub proof fn rounding_keeps_what_is_exact(y: nat)
    requires
        y < INFINITY,
    ensures
        single::nearest(units(y), power2::pow2(149)) == y,
{
    let den = power2::pow2(149);
    let num = units(y);
    power2::lemma_pow2_pos(149);
    let largest = (INFINITY - 1) as nat;
    if y < largest {
        larger_bits_are_larger_numbers(y, largest);
    }
    assert(largest / 0x80_0000 == 254 && largest % 0x80_0000 == 0x7f_ffff);
    let top = power2::pow2(253);
    power2::lemma_pow2_pos(253);
    assert(units(largest) == 0xff_ffff * top);
    assert(2 * (num * den) < den * (0x1ff_ffff * top)) by (nonlinear_arith)
        requires
            num <= 0xff_ffff * top,
            top > 0,
            den > 0,
    ;
    rounding_overflows_at_the_end(num, den);
    let x = single::nearest(num, den);
    rounding_is_to_the_nearest(num, den, y);
    assert(distance(num, den, num) == 0);
    assert(units(x) * den == num * den);
    let ux = units(x);
    assert(ux == num) by (nonlinear_arith)
        requires
            ux * den == num * den,
            den > 0,
    ;
    if x < y {
        larger_bits_are_larger_numbers(x, y);
    }
    if y < x {
        larger_bits_are_larger_numbers(y, x);
    }
}

/// Whether `x` is `num / den`, with the given sign, correctly rounded: infinite from the
/// middle between the largest number and the next power of two on, and otherwise a finite
/// number that no other is nearer than, the even one of two that are equally near.
pub open spec fn rounds(x: Single, negative: bool, num: nat, den: nat) -> bool {
    let m = (if x.bits >= 0x8000_0000u32 {
        x.bits - 0x8000_0000u32
    } else {
        x.bits as int
    }) as nat;
    &&& (x.bits >= 0x8000_0000u32) == negative
    &&& if 2 * (num * power2::pow2(149)) >= den * (0x1ff_ffff * power2::pow2(253)) {
        m == 0x7f80_0000
    } else {
        &&& m < 0x7f80_0000
        &&& forall|y: nat|
            y < 0x7f80_0000 ==> distance(num, den, units(m)) <= distance(
                num,
                den,
                #[trigger] units(y),
            )
        &&& forall|y: nat|
            y < 0x7f80_0000 && distance(num, den, units(m)) == distance(
                num,
                den,
                #[trigger] units(y),
            ) ==> y == m || m % 2 == 0
    }
}

pub(crate) proof fn lemma_rounds(negative: bool, num: nat, den: nat)
    requires
        den > 0,
    ensures
        rounds(single::signed(negative, single::nearest(num, den)), negative, num, den),
{
    let m = single::nearest(num, den);
    assert(m <= INFINITY);
    rounding_overflows_at_the_end(num, den);
    if m < INFINITY {
        assert forall|y: nat| y < 0x7f80_0000 implies distance(num, den, units(m)) <= distance(
            num,
            den,
            #[trigger] units(y),
        ) && (distance(num, den, units(m)) == distance(num, den, units(y)) ==> y == m || m % 2
            == 0) by {
            rounding_is_to_the_nearest(num, den, y);
            if y < m {
                larger_bits_are_larger_numbers(y, m);
            }
            if m < y {
                larger_bits_are_larger_numbers(m, y);
            }
        }
    }
}

/// A number is rounded in one way only.
pub proof fn rounding_is_unique(x: Single, y: Single, negative: bool, num: nat, den: nat)
    requires
        den > 0,
        rounds(x, negative, num, den),
        rounds(y, negative, num, den),
    ensures
        x == y,
{
    let z = single::nearest(num, den);
    lemma_rounds(negative, num, den);
    lemma_same_rounding(x, single::signed(negative, z), negative, num, den);
    lemma_same_rounding(y, single::signed(negative, z), negative, num, den);
}

spec fn size(x: Single) -> nat {
    (if x.bits >= 0x8000_0000u32 {
        x.bits - 0x8000_0000u32
    } else {
        x.bits as int
    }) as nat
}

proof fn lemma_same_rounding(x: Single, z: Single, negative: bool, num: nat, den: nat)
    requires
        den > 0,
        rounds(x, negative, num, den),
        rounds(z, negative, num, den),
    ensures
        x == z,
{
    let a = size(x);
    let b = size(z);
    let top = den * (0x1ff_ffff * power2::pow2(253));
    if 2 * (num * power2::pow2(149)) < top && a != b {
        assert(distance(num, den, units(a)) <= distance(num, den, units(b)));
        assert(distance(num, den, units(b)) <= distance(num, den, units(a)));
        assert(a % 2 == 0 && b % 2 == 0);
        let (lo, hi) = if a < b {
            (a, b)
        } else {
            (b, a)
        };
        let mid = (lo + 1) as nat;
        assert(mid < hi);
        larger_bits_are_larger_numbers(lo, mid);
        larger_bits_are_larger_numbers(mid, hi);
        let n = num * power2::pow2(149);
        let (ul, um, uh) = (units(lo), units(mid), units(hi));
        assert(ul * den < um * den && um * den < uh * den) by (nonlinear_arith)
            requires
                ul < um,
                um < uh,
                den > 0,
        ;
        assert(distance(num, den, units(mid)) < distance(num, den, units(lo)));
        assert(distance(num, den, units(a)) <= distance(num, den, units(mid)));
        assert(false);
    }
}

// ── Text of integers ─────────────────────────────────────────────────────────

/// The ten digits stand for the numbers from nothing to nine, and a digit behind a number
/// adds its value to ten times the number.
pub proof fn digits_count_in_tens(s: Seq<char>, c: char)
    requires
        '0' <= c && c <= '9',
    ensures
        strings::decimal_value(seq!['0']) == 0,
        strings::decimal_value(seq!['1']) == 1,
        strings::decimal_value(seq!['9']) == 9,
        strings::decimal_value(seq![c]) == c as int - 48,
        strings::decimal_value(s.push(c)) == 10 * strings::decimal_value(s)
            + strings::decimal_value(seq![c]),
{
    reveal_with_fuel(strings::decimal_value, 3);
    assert(seq!['0'].drop_last() =~= Seq::<char>::empty());
    assert(seq!['1'].drop_last() =~= Seq::<char>::empty());
    assert(seq!['9'].drop_last() =~= Seq::<char>::empty());
    assert(seq![c].drop_last() =~= Seq::<char>::empty());
    assert(s.push(c).drop_last() =~= s);
}

/// A number behind another moves it by as many places as it has digits.
pub proof fn digits_join(a: Seq<char>, b: Seq<char>)
    requires
        forall|i: int| 0 <= i < b.len() ==> '0' <= #[trigger] b[i] && b[i] <= '9',
    ensures
        strings::decimal_value(a + b) == strings::decimal_value(a) * power::pow(10, b.len())
            + strings::decimal_value(b),
    decreases b.len(),
{
    reveal(power::pow);
    if b.len() == 0 {
        assert(a + b =~= a);
    } else {
        let rest = b.drop_last();
        assert((a + b).drop_last() =~= a + rest);
        digits_join(a, rest);
        let p = power::pow(10, rest.len());
        let v = strings::decimal_value(a);
        assert('0' <= b[b.len() - 1]);
        assert(v * (10 * p) == 10 * (v * p)) by (nonlinear_arith);
    }
}

pub(crate) proof fn lemma_nat_text(n: nat)
    ensures
        strings::nat_text(n).len() > 0,
        forall|i: int|
            0 <= i < strings::nat_text(n).len() ==> strings::is_digit(
                #[trigger] strings::nat_text(n)[i],
            ),
        strings::decimal_value(strings::nat_text(n)) == n,
    decreases n,
{
    let s = strings::nat_text(n);
    reveal_with_fuel(strings::decimal_value, 2);
    if n >= 10 {
        lemma_nat_text(n / 10);
        assert(s.drop_last() =~= strings::nat_text(n / 10));
    } else {
        assert(s.drop_last() =~= Seq::<char>::empty());
    }
}

/// A written integer reads back as itself, whichever number it is.
pub proof fn integers_read_back(n: int)
    ensures
        strings::signed_decimal(strings::int_text(n)) == Some(n),
        strings::i64_text(strings::int_text(n)) == (if i64::MIN <= n <= i64::MAX {
            Some(n as i64)
        } else {
            None::<i64>
        }),
{
    let s = strings::int_text(n);
    reveal_strlit("-");
    if n < 0 {
        lemma_nat_text((-n) as nat);
        assert(s.skip(1) =~= strings::nat_text((-n) as nat));
    } else {
        lemma_nat_text(n as nat);
        assert(strings::is_digit(s[0]));
    }
}

/// Numbers are written without a leading zero, except nothing itself.
pub proof fn written_numbers_start_with_a_digit_that_counts(n: nat)
    requires
        n > 0,
    ensures
        '1' <= strings::nat_text(n)[0] && strings::nat_text(n)[0] <= '9',
        strings::nat_text(0) == seq!['0'],
    decreases n,
{
    if n >= 10 {
        lemma_nat_text(n / 10);
        written_numbers_start_with_a_digit_that_counts(n / 10);
    }
}

// ── Text of reals ────────────────────────────────────────────────────────────

/// The text of a real: a sign or none, digits, and, where there is a point, digits behind it.
pub open spec fn real_text(
    sign: Option<char>,
    whole: Seq<char>,
    fraction: Option<Seq<char>>,
) -> Seq<char> {
    let front = match sign {
        Some(c) => seq![c],
        None => Seq::<char>::empty(),
    };
    let back = match fraction {
        Some(f) => seq!['.'] + f,
        None => Seq::<char>::empty(),
    };
    front + (whole + back)
}

pub open spec fn digits(s: Seq<char>) -> bool {
    forall|i: int| 0 <= i < s.len() ==> '0' <= #[trigger] s[i] && s[i] <= '9'
}

proof fn lemma_run(s: Seq<char>, i: int, end: int)
    requires
        0 <= i <= end <= s.len(),
        forall|k: int| i <= k < end ==> '0' <= #[trigger] s[k] && s[k] <= '9',
        end < s.len() ==> !('0' <= s[end] && s[end] <= '9'),
    ensures
        lexer::run_end(s, i, CharClass::Digit) == end,
    decreases end - i,
{
    if i < end {
        lemma_run(s, i + 1, end);
    }
}

proof fn lemma_ten_to(e: nat)
    ensures
        single::ten_to(e) == power::pow(10, e),
        single::ten_to(e) > 0,
    decreases e,
{
    reveal(power::pow);
    if e > 0 {
        lemma_ten_to((e - 1) as nat);
    }
}

/// Decimal text reads as the single-precision number nearest to what it writes: the digits
/// on both sides of the point, divided by ten for each digit behind it. The fraction counts:
/// it is rounded, not cut off.
pub proof fn reals_are_read_to_the_nearest(
    sign: Option<char>,
    whole: Seq<char>,
    fraction: Option<Seq<char>>,
) -> (x: Single)
    requires
        digits(whole),
        fraction is Some ==> digits(fraction->0),
        whole.len() > 0 || (fraction is Some && fraction->0.len() > 0),
        sign is Some ==> sign->0 == '-' || sign->0 == '+',
    ensures
        single::single_text(real_text(sign, whole, fraction)) == Some(x),
        ({
            let behind = match fraction {
                Some(f) => f,
                None => Seq::<char>::empty(),
            };
            rounds(
                x,
                sign == Some('-'),
                strings::decimal_value(whole + behind),
                power::pow(10, behind.len()) as nat,
            )
        }),
{
    let s = real_text(sign, whole, fraction);
    let back = match fraction {
        Some(f) => seq!['.'] + f,
        None => Seq::<char>::empty(),
    };
    let behind = match fraction {
        Some(f) => f,
        None => Seq::<char>::empty(),
    };
    let body = whole + back;
    let negative = sign == Some('-');
    if sign is Some {
        assert(s.skip(1) =~= body);
    } else {
        assert(s =~= body);
        assert('0' <= s[0] && s[0] <= '9' || s[0] == '.') by {
            if whole.len() > 0 {
                assert(s[0] == whole[0]);
            }
        }
    }
    assert(body.len() > 0);
    let w = whole.len() as int;
    assert forall|k: int| 0 <= k < w implies '0' <= #[trigger] body[k] && body[k] <= '9' by {
        assert(body[k] == whole[k]);
    }
    lemma_run(body, 0, w);
    if fraction is Some {
        assert(body[w] == '.');
        assert forall|k: int| w + 1 <= k < body.len() implies '0' <= #[trigger] body[k] && body[k]
            <= '9' by {
            assert(body[k] == behind[k - w - 1]);
        }
        lemma_run(body, w + 1, body.len() as int);
        assert(body.subrange(w + 1, body.len() as int) =~= behind);
    }
    assert(single::fraction(body) == behind);
    assert(single::fraction_end(body) == body.len());
    assert(body.take(w) =~= whole);
    assert(!single::spells(body, "inf"@) && !single::spells(body, "infinity"@) && !single::spells(
        body,
        "nan"@,
    )) by {
        reveal_strlit("inf");
        reveal_strlit("infinity");
        reveal_strlit("nan");
        let c = body[0];
        assert('0' <= c && c <= '9' || c == '.');
        assert(single::lower(c) == c);
        if single::spells(body, "inf"@) {
            assert(single::lower(body[0]) == "inf"@[0]);
        }
        if single::spells(body, "infinity"@) {
            assert(single::lower(body[0]) == "infinity"@[0]);
        }
        if single::spells(body, "nan"@) {
            assert(single::lower(body[0]) == "nan"@[0]);
        }
    }
    let num = strings::decimal_value(whole + behind);
    lemma_ten_to(behind.len());
    let den = single::ten_to(behind.len());
    if behind.len() == 0 {
        assert(num * single::ten_to(0) == num) by (nonlinear_arith)
            requires
                single::ten_to(0) == 1,
        ;
    }
    lemma_rounds(negative, num, den);
    let bits = single::nearest(num, den);
    assert(single::unsigned_bits(body) == Some(bits));
    single::signed(negative, bits)
}

// ── Integers and sums ────────────────────────────────────────────────────────

/// What a finite number stands for, in units of 2^-149, with its sign.
pub open spec fn signed_units(x: Single) -> int {
    if x.bits >= 0x8000_0000u32 {
        -(units((x.bits - 0x8000_0000u32) as nat) as int)
    } else {
        units(x.bits as nat) as int
    }
}

pub open spec fn finite(x: Single) -> bool {
    x.bits % 0x8000_0000u32 < 0x7f80_0000u32
}

/// An integer becomes the single-precision number nearest to it.
pub proof fn integers_become_the_nearest_number(n: int)
    ensures
        rounds(
            single::of_integer(n),
            n < 0,
            if n < 0 {
                (-n) as nat
            } else {
                n as nat
            },
            1,
        ),
{
    lemma_rounds(
        n < 0,
        if n < 0 {
            (-n) as nat
        } else {
            n as nat
        },
        1,
    );
}

pub(crate) proof fn lemma_units(x: Single)
    requires
        finite(x),
    ensures
        x.scaled_value() == signed_units(x),
        !x.is_nan() && !x.is_infinite(),
{
    let m = x.magnitude();
    power2::lemma2_to64();
    if m < 0x80_0000 {
        assert(m / 0x80_0000 == 0 && m % 0x80_0000 == m);
        assert(m * power2::pow2(0) == m);
    } else {
        assert(m / 0x80_0000 >= 1);
    }
}

/// The sum of two finite numbers is the number nearest to their exact sum.
pub proof fn sums_are_rounded_once(a: Single, b: Single)
    requires
        finite(a),
        finite(b),
        signed_units(a) + signed_units(b) != 0,
    ensures
        ({
            let s = signed_units(a) + signed_units(b);
            rounds(
                a.sum(b),
                s < 0,
                if s < 0 {
                    (-s) as nat
                } else {
                    s as nat
                },
                power2::pow2(149),
            )
        }),
{
    lemma_units(a);
    lemma_units(b);
    let s = signed_units(a) + signed_units(b);
    power2::lemma_pow2_pos(149);
    lemma_rounds(
        s < 0,
        if s < 0 {
            (-s) as nat
        } else {
            s as nat
        },
        power2::pow2(149),
    );
}

/// Opposite numbers add up to a zero, nothing added to a number leaves it as it is, and the
/// order of the two does not matter.
pub proof fn sums_of_opposites_and_zeros(a: Single, b: Single)
    requires
        finite(a),
        finite(b),
    ensures
        signed_units(a) + signed_units(b) == 0 ==> signed_units(a.sum(b)) == 0 && finite(a.sum(b)),
        a.bits != 0x8000_0000u32 ==> (Single { bits: 0 }).sum(a) == a,
        a.bits == 0x8000_0000u32 ==> (Single { bits: 0 }).sum(a) == (Single { bits: 0 }),
        a.sum(b) == b.sum(a),
{
    lemma_units(a);
    lemma_units(b);
    let zero = Single { bits: 0 };
    lemma_units(zero);
    power2::lemma2_to64();
    assert(units(0) == 0);
    assert(0x8000_0000u32 - 0x8000_0000u32 == 0);
    let m = a.magnitude();
    if m > 0 {
        larger_bits_are_larger_numbers(0, m);
    }
    rounding_keeps_what_is_exact(m);
}

/// A number cut to an integer keeps its sign, and loses less than one; what is beyond the
/// integers ends at the last of them.
pub proof fn cutting_goes_towards_zero(x: Single)
    requires
        finite(x),
    ensures
        ({
            let one = power2::pow2(149) as int;
            let t = x.truncated() as int;
            let v = signed_units(x);
            &&& 0 <= v < 0x8000_0000 * one ==> t * one <= v < (t + 1) * one
            &&& -0x8000_0000 * one <= v < 0 ==> (t - 1) * one < v <= t * one && t <= 0
            &&& v >= 0x8000_0000 * one ==> t == 0x7fff_ffff
            &&& v < -0x8000_0000 * one ==> t == -0x8000_0000
        }),
{
    lemma_units(x);
    power2::lemma_pow2_pos(149);
    let one = power2::pow2(149) as int;
    let m = x.scaled() as int;
    let q = m / one;
    vstd::arithmetic::div_mod::lemma_fundamental_div_mod(m, one);
    let r = m % one;
    assert(m == q * one + r) by (nonlinear_arith)
        requires
            m == one * q + r,
    ;
    assert(q >= 0) by (nonlinear_arith)
        requires
            m == q * one + r,
            m >= 0,
            0 <= r < one,
    ;
    assert((q + 1) * one == q * one + one) by (nonlinear_arith);
    assert((-q) * one == -(q * one)) by (nonlinear_arith);
    assert((-q - 1) * one == -(q * one) - one) by (nonlinear_arith);
    assert(q >= 0x8000_0000 ==> q * one >= 0x8000_0000 * one) by (nonlinear_arith)
        requires
            one > 0,
    ;
    assert(q <= 0x7fff_ffff ==> q * one <= 0x7fff_ffff * one) by (nonlinear_arith)
        requires
            one > 0,
    ;
    assert(q > 0x8000_0000 ==> q * one >= 0x8000_0001 * one) by (nonlinear_arith)
        requires
            one > 0,
    ;
}

} // verus!
