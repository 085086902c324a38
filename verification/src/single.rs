//! Single-precision numbers as their bit patterns.
//!
//! A definition's real-valued fields are stored in the IEEE 754 binary32
//! format. The rounding from decimal text, from integers and of sums is to the
//! nearest representable number, and to the one with an even last bit where two
//! are equally near.

use vstd::arithmetic::power2;
use vstd::prelude::*;

use crate::natural::Natural;
use crate::strings;
use crate::strings::{chars_of, code, digit};
use crate::text::lexer;
use crate::text::lexer::{end_of_run, CharClass};

verus! {

/// The bits of positive infinity: the magnitudes above are not numbers.
pub const INFINITY: u32 = 0x7f80_0000;

/// The bits of a quiet not-a-number.
pub const NAN: u32 = 0x7fc0_0000;

/// The bit that is set in negative numbers.
pub const SIGN: u32 = 0x8000_0000;

/// A binary32 number, held by its bits.
#[derive(Copy, Clone, Debug, PartialEq, Eq, Structural)]
pub struct Single {
    pub bits: u32,
}

impl View for Single {
    type V = Single;

    open spec fn view(&self) -> Single {
        *self
    }
}

// ── Rounding a quotient ──────────────────────────────────────────────────────

/// The least `k` not below the given one with `num / den < 2^(k - 125)`: the
/// exponent field of the result, at most 255.
pub open spec fn scale(num: nat, den: nat, k: nat) -> nat
    decreases 255 - k,
{
    if k >= 255 || num * power2::pow2(125) < den * power2::pow2(k) {
        k
    } else {
        scale(num, den, k + 1)
    }
}

/// `num / den` rounded to the nearest integer, halves to the even one.
pub open spec fn half_even(num: nat, den: nat) -> nat {
    let q = num / den;
    let r = num % den;
    if 2 * r > den || (2 * r == den && q % 2 == 1) {
        q + 1
    } else {
        q
    }
}

/// The bits of the binary32 number nearest to `num / den`.
///
/// With `k` the exponent field, numbers are multiples of `2^(k - 149)`; a
/// rounding that carries into the next power of two also carries into the
/// exponent field, so the sum below is the bit pattern in every case.
pub open spec fn nearest(num: nat, den: nat) -> nat {
    let k = scale(num, den, 0);
    let bits = k * 0x80_0000 + half_even(num * power2::pow2(149), den * power2::pow2(k));
    if bits >= INFINITY {
        INFINITY as nat
    } else {
        bits
    }
}

proof fn lemma_scale_bound(num: nat, den: nat, k: nat)
    requires
        k <= 255,
    ensures
        k <= scale(num, den, k) <= 255,
    decreases 255 - k,
{
    if !(k >= 255 || num * power2::pow2(125) < den * power2::pow2(k)) {
        lemma_scale_bound(num, den, k + 1);
    }
}

/// Compute [`nearest`].
fn round(num: &Natural, den: &Natural) -> (r: u32)
    requires
        den@ > 0,
    ensures
        r == nearest(num@, den@),
        r <= INFINITY,
{
    let mut s = num.copy();
    let mut i: u32 = 0;
    proof {
        power2::lemma2_to64();
        assert(num@ * power2::pow2(0) == num@) by (nonlinear_arith)
            requires
                power2::pow2(0) == 1,
        ;
        assert(den@ * power2::pow2(0) == den@) by (nonlinear_arith)
            requires
                power2::pow2(0) == 1,
        ;
    }
    while i < 125
        invariant
            i <= 125,
            s@ == num@ * power2::pow2(i as nat),
        decreases 125 - i,
    {
        proof {
            power2::lemma_pow2_unfold((i + 1) as nat);
            assert(2 * (num@ * power2::pow2(i as nat)) == num@ * (2 * power2::pow2(i as nat)))
                by (nonlinear_arith);
        }
        s.double();
        i = i + 1;
    }
    let mut d = den.copy();
    let mut k: u32 = 0;
    while k < 255 && !s.less_than(&d)
        invariant
            k <= 255,
            s@ == num@ * power2::pow2(125),
            d@ == den@ * power2::pow2(k as nat),
            scale(num@, den@, k as nat) == scale(num@, den@, 0),
        decreases 255 - k,
    {
        proof {
            power2::lemma_pow2_unfold((k + 1) as nat);
            assert(2 * (den@ * power2::pow2(k as nat)) == den@ * (2 * power2::pow2(k as nat)))
                by (nonlinear_arith);
        }
        d.double();
        k = k + 1;
    }
    assert(scale(num@, den@, 0) == k);
    if k >= 255 {
        return INFINITY;
    }
    let ghost divisor = d@;
    proof {
        power2::lemma_pow2_pos(k as nat);
        assert(divisor > 0) by (nonlinear_arith)
            requires
                divisor == den@ * power2::pow2(k as nat),
                den@ > 0,
                power2::pow2(k as nat) > 0,
        ;
    }
    let ghost dividend = s@;
    let mut q: u32 = 0;
    let mut j: u32 = 0;
    proof {
        assert(dividend * power2::pow2(0) == 0 * divisor + dividend) by (nonlinear_arith)
            requires
                power2::pow2(0) == 1,
        ;
    }
    while j < 24
        invariant
            j <= 24,
            d@ == divisor,
            divisor > 0,
            s@ < divisor,
            dividend * power2::pow2(j as nat) == q as nat * divisor + s@,
            q < power2::pow2(j as nat),
            power2::pow2(24) == 0x100_0000,
        decreases 24 - j,
    {
        proof {
            power2::lemma_pow2_unfold((j + 1) as nat);
            let p = power2::pow2(j as nat);
            assert(dividend * (2 * p) == 2 * (q as nat * divisor + s@)) by (nonlinear_arith)
                requires
                    dividend * p == q as nat * divisor + s@,
            ;
            assert(2 * (q as nat * divisor) == (2 * q as nat) * divisor) by (nonlinear_arith);
            assert((2 * q as nat + 1) * divisor == (2 * q as nat) * divisor + divisor)
                by (nonlinear_arith);
            if j < 23 {
                power2::lemma_pow2_strictly_increases(j as nat, 23);
            }
            power2::lemma2_to64();
        }
        s.double();
        q = q * 2;
        if !s.less_than(&d) {
            s = s.minus(&d);
            q = q + 1;
        }
        j = j + 1;
    }
    let ghost rest = s@;
    proof {
        power2::lemma_pow2_adds(125, 24);
        assert(num@ * power2::pow2(149) == dividend * power2::pow2(24)) by (nonlinear_arith)
            requires
                dividend == num@ * power2::pow2(125),
                power2::pow2(149) == power2::pow2(125) * power2::pow2(24),
        ;
        vstd::arithmetic::div_mod::lemma_fundamental_div_mod_converse(
            (num@ * power2::pow2(149)) as int,
            divisor as int,
            q as int,
            rest as int,
        );
    }
    s.double();
    let up = d.less_than(&s) || (!s.less_than(&d) && q % 2 == 1);
    let m: u32 = if up {
        q + 1
    } else {
        q
    };
    assert(m == half_even(num@ * power2::pow2(149), den@ * power2::pow2(k as nat)));
    let bits: u32 = k * 0x80_0000 + m;
    if bits >= INFINITY {
        INFINITY
    } else {
        bits
    }
}

/// Nothing is nearest to nothing but zero.
proof fn lemma_nearest_zero(den: nat)
    requires
        den > 0,
    ensures
        nearest(0, den) == 0,
{
    power2::lemma2_to64();
    assert(den * power2::pow2(0) == den) by (nonlinear_arith)
        requires
            power2::pow2(0) == 1,
    ;
    assert(0 * power2::pow2(125) == 0);
    assert(0 * power2::pow2(149) == 0);
    assert(scale(0, den, 0) == 0);
    vstd::arithmetic::div_mod::lemma_fundamental_div_mod_converse(0, den as int, 0, 0);
}

/// A quotient of `2^130` or more is beyond every finite number.
proof fn lemma_nearest_huge(num: nat, den: nat)
    requires
        den > 0,
        num >= den * power2::pow2(130),
    ensures
        nearest(num, den) == INFINITY,
{
    lemma_scale_huge(num, den, 0);
}

proof fn lemma_scale_huge(num: nat, den: nat, k: nat)
    requires
        den > 0,
        num >= den * power2::pow2(130),
        k <= 255,
    ensures
        scale(num, den, k) == 255,
    decreases 255 - k,
{
    if k < 255 {
        power2::lemma_pow2_strictly_increases(k, 255);
        power2::lemma_pow2_adds(130, 125);
        let a = power2::pow2(130);
        let b = power2::pow2(125);
        let c = power2::pow2(k);
        assert(num * b >= den * c) by (nonlinear_arith)
            requires
                num >= den * a,
                c <= a * b,
                b >= 0,
                den >= 0,
        ;
        lemma_scale_huge(num, den, k + 1);
    }
}

/// A quotient below `2^-150` is nearest to zero.
proof fn lemma_nearest_tiny(num: nat, den: nat)
    requires
        num * power2::pow2(150) < den,
    ensures
        nearest(num, den) == 0,
{
    power2::lemma2_to64();
    power2::lemma_pow2_adds(125, 25);
    power2::lemma_pow2_adds(149, 1);
    let a = power2::pow2(125);
    let b = power2::pow2(149);
    assert(den * power2::pow2(0) == den) by (nonlinear_arith)
        requires
            power2::pow2(0) == 1,
    ;
    assert(num * a <= num * power2::pow2(150)) by (nonlinear_arith)
        requires
            power2::pow2(150) == a * power2::pow2(25),
            power2::pow2(25) >= 1,
            a >= 0,
            num >= 0,
    ;
    assert(2 * (num * b) == num * power2::pow2(150)) by (nonlinear_arith)
        requires
            power2::pow2(150) == b * power2::pow2(1),
            power2::pow2(1) == 2,
    ;
    assert(scale(num, den, 0) == 0);
    vstd::arithmetic::div_mod::lemma_fundamental_div_mod_converse(
        (num * b) as int,
        den as int,
        0,
        (num * b) as int,
    );
}

// ── Decimal text ─────────────────────────────────────────────────────────────

/// Ten to the `e`.
pub open spec fn ten_to(e: nat) -> nat
    decreases e,
{
    if e == 0 {
        1
    } else {
        10 * ten_to((e - 1) as nat)
    }
}

/// The bits of the number nearest to `digits · 10^exponent`.
pub open spec fn decimal_bits(digits: nat, exponent: int) -> nat {
    if exponent >= 0 {
        nearest(digits * ten_to(exponent as nat), 1)
    } else {
        nearest(digits, ten_to((-exponent) as nat))
    }
}

/// The lower-case form of an ASCII letter; other characters are unchanged.
pub open spec fn lower(c: char) -> char {
    if 'A' <= c && c <= 'Z' {
        (c as u32 + 32) as char
    } else {
        c
    }
}

/// Whether `s` is the word `word` in any mix of upper and lower case.
pub open spec fn spells(s: Seq<char>, word: Seq<char>) -> bool {
    s.len() == word.len() && forall|i: int| 0 <= i < s.len() ==> lower(#[trigger] s[i]) == word[i]
}

/// Where the digits of the whole part end, and where those of the fraction do.
pub open spec fn whole_end(s: Seq<char>) -> int {
    lexer::run_end(s, 0, CharClass::Digit)
}

pub open spec fn fraction_end(s: Seq<char>) -> int {
    if lexer::char_is(s, whole_end(s), '.') {
        lexer::run_end(s, whole_end(s) + 1, CharClass::Digit)
    } else {
        whole_end(s)
    }
}

/// The digits of the fraction.
pub open spec fn fraction(s: Seq<char>) -> Seq<char> {
    if lexer::char_is(s, whole_end(s), '.') {
        s.subrange(whole_end(s) + 1, fraction_end(s))
    } else {
        Seq::empty()
    }
}

/// The exponent that follows the digits, if what follows them is one.
pub open spec fn exponent(s: Seq<char>) -> Option<int> {
    let end = fraction_end(s);
    if end == s.len() {
        Some(0)
    } else if s[end] == 'e' || s[end] == 'E' {
        strings::signed_decimal(s.skip(end + 1))
    } else {
        None
    }
}

/// The bits that an unsigned number writes: `digits [. digits] [e exponent]`
/// with a digit before or behind the point.
pub open spec fn number_bits(s: Seq<char>) -> Option<nat> {
    let digits = s.take(whole_end(s)) + fraction(s);
    if digits.len() == 0 {
        None
    } else {
        match exponent(s) {
            None => None,
            Some(e) => Some(decimal_bits(strings::decimal_value(digits), e - fraction(s).len())),
        }
    }
}

/// The bits that an unsigned text writes.
pub open spec fn unsigned_bits(s: Seq<char>) -> Option<nat> {
    if spells(s, "inf"@) || spells(s, "infinity"@) {
        Some(INFINITY as nat)
    } else if spells(s, "nan"@) {
        Some(NAN as nat)
    } else {
        number_bits(s)
    }
}

/// The number that a text writes: an optional sign, then a number, `inf`,
/// `infinity` or `nan`.
pub open spec fn single_text(s: Seq<char>) -> Option<Single> {
    let negative = lexer::char_is(s, 0, '-');
    let body = if negative || lexer::char_is(s, 0, '+') {
        s.skip(1)
    } else {
        s
    };
    match unsigned_bits(body) {
        None => None,
        Some(bits) => Some(
            Single {
                bits: if negative {
                    (SIGN + bits) as u32
                } else {
                    bits as u32
                },
            },
        ),
    }
}

proof fn lemma_ten_to_adds(a: nat, b: nat)
    ensures
        ten_to(a + b) == ten_to(a) * ten_to(b),
        ten_to(a) > 0,
    decreases a,
{
    if a > 0 {
        lemma_ten_to_adds((a - 1) as nat, b);
        let x = ten_to((a - 1) as nat);
        let y = ten_to(b);
        assert(10 * (x * y) == (10 * x) * y) by (nonlinear_arith);
        assert((a + b - 1) as nat == (a - 1) as nat + b);
    } else {
        assert(1 * ten_to(b) == ten_to(b));
    }
}

/// Three decimal digits are worth more than nine binary ones.
proof fn lemma_ten_to_beats(n: nat)
    ensures
        ten_to(3 * n) >= power2::pow2(9 * n),
    decreases n,
{
    power2::lemma2_to64();
    if n > 0 {
        lemma_ten_to_beats((n - 1) as nat);
        lemma_ten_to_adds(3, (3 * (n - 1)) as nat);
        power2::lemma_pow2_adds(9, (9 * (n - 1)) as nat);
        reveal_with_fuel(ten_to, 4);
        let x = ten_to((3 * (n - 1)) as nat);
        let y = power2::pow2((9 * (n - 1)) as nat);
        assert(1000 * x >= 512 * y) by (nonlinear_arith)
            requires
                x >= y,
                y >= 0,
        ;
        assert(3 + 3 * (n - 1) == 3 * n);
        assert(9 + 9 * (n - 1) == 9 * n);
    }
}

proof fn lemma_digits_bound(s: Seq<char>)
    requires
        forall|i: int| 0 <= i < s.len() ==> strings::is_digit(#[trigger] s[i]),
    ensures
        strings::decimal_value(s) < ten_to(s.len()),
    decreases s.len(),
{
    if s.len() > 0 {
        let t = s.drop_last();
        assert forall|i: int| 0 <= i < t.len() implies strings::is_digit(#[trigger] t[i]) by {
            assert(t[i] == s[i]);
        }
        lemma_digits_bound(t);
        assert(strings::is_digit(s[s.len() - 1]));
    }
}

/// From `10^45` on, whole multiples of a power of ten are beyond every finite number.
proof fn lemma_decimal_huge(digits: nat, e: int)
    requires
        digits > 0,
        e >= 45,
    ensures
        decimal_bits(digits, e) == INFINITY,
{
    lemma_ten_to_beats(15);
    lemma_ten_to_adds(45, (e - 45) as nat);
    lemma_ten_to_adds((e - 45) as nat, 0);
    power2::lemma_pow2_strictly_increases(130, 135);
    let x = ten_to(45);
    let y = ten_to((e - 45) as nat);
    let p = power2::pow2(130);
    assert(digits * (x * y) >= 1 * p) by (nonlinear_arith)
        requires
            digits >= 1,
            x >= p,
            y >= 1,
            p >= 0,
    ;
    lemma_nearest_huge(digits * ten_to(e as nat), 1);
}

/// A number of `len` digits, shifted far enough behind the point, is nearest to
/// zero.
proof fn lemma_decimal_tiny(digits: nat, len: nat, e: int)
    requires
        digits < ten_to(len),
        e <= -(len + 51),
    ensures
        decimal_bits(digits, e) == 0,
{
    lemma_ten_to_beats(17);
    let f = (-e) as nat;
    lemma_ten_to_adds(len, 51);
    lemma_ten_to_adds(len + 51, (f - len - 51) as nat);
    lemma_ten_to_adds((f - len - 51) as nat, 0);
    power2::lemma_pow2_strictly_increases(150, 153);
    let t = ten_to(len);
    let x = ten_to(51);
    let y = ten_to((f - len - 51) as nat);
    let p = power2::pow2(150);
    power2::lemma_pow2_pos(150);
    assert(digits * p < (t * x) * y) by (nonlinear_arith)
        requires
            digits < t,
            x >= p,
            y >= 1,
            p > 0,
            digits >= 0,
    ;
    lemma_nearest_tiny(digits, ten_to(f));
}

fn lower_code(c: char) -> (r: u32)
    ensures
        r == lower(c) as int,
{
    if 'A' <= c && c <= 'Z' {
        code(c) + 32
    } else {
        code(c)
    }
}

fn spells_word(chars: &Vec<char>, from: usize, word: &str) -> (r: bool)
    requires
        from <= chars@.len(),
    ensures
        r == spells(chars@.skip(from as int), word@),
{
    let ghost s = chars@.skip(from as int);
    let w = chars_of(word);
    let n: usize = chars.len();
    if n - from != w.len() {
        return false;
    }
    let mut i: usize = 0;
    while i < w.len()
        invariant
            i <= w@.len(),
            w@ == word@,
            from + w@.len() == chars@.len(),
            chars@.len() == n,
            s == chars@.skip(from as int),
            forall|j: int| 0 <= j < i ==> lower(#[trigger] s[j]) == word@[j],
        decreases w@.len() - i,
    {
        assert(s[i as int] == chars@[from + i]);
        if lower_code(chars[from + i]) != code(w[i]) {
            return false;
        }
        i = i + 1;
    }
    true
}

/// Where an exponent is cut off: no text is long enough to make up for it.
pub open spec fn cut(e: int) -> int {
    if e > 0x10_0000_0000_0000_0000 {
        0x10_0000_0000_0000_0000
    } else if e < -0x10_0000_0000_0000_0000 {
        -0x10_0000_0000_0000_0000
    } else {
        e
    }
}

/// Read an exponent: an optional sign and digits, up to the end of the text.
fn read_exponent(chars: &Vec<char>, from: usize) -> (r: Option<i128>)
    requires
        from <= chars@.len(),
    ensures
        match (r, strings::signed_decimal(chars@.skip(from as int))) {
            (Some(v), Some(e)) => v == cut(e),
            (None, None) => true,
            _ => false,
        },
{
    let ghost s = chars@.skip(from as int);
    let n: usize = chars.len();
    let signed = from < n && (chars[from] == '-' || chars[from] == '+');
    let negative = from < n && chars[from] == '-';
    let start: usize = if signed {
        from + 1
    } else {
        from
    };
    let ghost body = if signed {
        s.skip(1)
    } else {
        s
    };
    assert(from < n ==> s[0] == chars@[from as int]);
    assert(body.len() == n - start);
    assert forall|j: int| 0 <= j < body.len() implies body[j] == chars@[start + j] by {}
    if start == n {
        return None;
    }
    let mut value: i128 = 0;
    let mut i: usize = start;
    let ghost mut exact: nat = 0;
    while i < n
        invariant
            start <= i <= n,
            n == chars@.len(),
            body.len() == n - start,
            forall|j: int| 0 <= j < body.len() ==> #[trigger] body[j] == chars@[start + j],
            forall|j: int| 0 <= j < i - start ==> strings::is_digit(#[trigger] body[j]),
            exact == strings::decimal_value(body.take(i - start)),
            value == cut(exact as int),
            start < n,
            s == chars@.skip(from as int),
            from < n,
            s[0] == chars@[from as int],
            signed == (s[0] == '-' || s[0] == '+'),
            body == (if signed {
                s.skip(1)
            } else {
                s
            }),
        decreases n - i,
    {
        let c = chars[i];
        assert(body[i - start] == c);
        if !digit(c) {
            assert(!strings::all_digits(body));
            return None;
        }
        assert(body.take(i - start + 1).drop_last() == body.take(i - start));
        let d: i128 = (c as u32 - '0' as u32) as i128;
        let next: i128 = value * 10 + d;
        value = if next > 0x10_0000_0000_0000_0000 {
            0x10_0000_0000_0000_0000
        } else {
            next
        };
        proof {
            exact = strings::decimal_value(body.take(i - start + 1));
        }
        i = i + 1;
    }
    assert(body.take(n - start) == body);
    assert(strings::all_digits(body));
    if negative {
        Some(0 - value)
    } else {
        Some(value)
    }
}

/// Append the digits `chars[from..to]` to the number `n`.
fn append_digits(n: &mut Natural, chars: &Vec<char>, from: usize, to: usize, before: Ghost<
    Seq<char>,
>)
    requires
        from <= to <= chars@.len(),
        old(n)@ == strings::decimal_value(before@),
        forall|i: int| from <= i < to ==> strings::is_digit(#[trigger] chars@[i]),
    ensures
        final(n)@ == strings::decimal_value(before@ + chars@.subrange(from as int, to as int)),
{
    let mut i: usize = from;
    assert(before@ + chars@.subrange(from as int, from as int) == before@);
    while i < to
        invariant
            from <= i <= to <= chars@.len(),
            n@ == strings::decimal_value(before@ + chars@.subrange(from as int, i as int)),
            forall|i: int| from <= i < to ==> strings::is_digit(#[trigger] chars@[i]),
        decreases to - i,
    {
        let c = chars[i];
        let ghost next = before@ + chars@.subrange(from as int, i as int + 1);
        assert(next.drop_last() == before@ + chars@.subrange(from as int, i as int));
        assert(next.last() == c);
        assert(strings::is_digit(chars@[i as int]));
        n.multiply_add(10, c as u32 - '0' as u32);
        i = i + 1;
    }
}

proof fn lemma_run_digits(s: Seq<char>, i: int)
    requires
        0 <= i <= s.len(),
    ensures
        forall|j: int|
            i <= j < lexer::run_end(s, i, CharClass::Digit) ==> strings::is_digit(#[trigger] s[j]),
    decreases s.len() - i,
{
    if i < s.len() && CharClass::Digit.has(s[i]) {
        lemma_run_digits(s, i + 1);
    }
}

/// Compute [`number_bits`].
fn read_number(chars: &Vec<char>) -> (r: Option<u32>)
    ensures
        match (r, number_bits(chars@)) {
            (Some(v), Some(bits)) => v == bits && v <= INFINITY,
            (None, None) => true,
            _ => false,
        },
{
    let ghost s = chars@;
    let n: usize = chars.len();
    let whole = end_of_run(chars, 0, CharClass::Digit);
    let has_point = whole < n && chars[whole] == '.';
    let end: usize = if has_point {
        end_of_run(chars, whole + 1, CharClass::Digit)
    } else {
        whole
    };
    let places: usize = if has_point {
        end - whole - 1
    } else {
        0
    };
    assert(fraction(s).len() == places);
    let ghost digits = s.take(whole as int) + fraction(s);
    if whole == 0 && places == 0 {
        return None;
    }
    let written: i128 = if end == n {
        0
    } else if chars[end] == 'e' || chars[end] == 'E' {
        match read_exponent(chars, end + 1) {
            Some(e) => e,
            None => return None,
        }
    } else {
        return None;
    };
    let mut number = Natural::new(0);
    proof {
        lemma_run_digits(s, 0);
        if has_point {
            lemma_run_digits(s, whole + 1);
        }
        assert(Seq::<char>::empty() + s.subrange(0, whole as int) == s.take(whole as int));
    }
    append_digits(&mut number, chars, 0, whole, Ghost(Seq::empty()));
    if has_point {
        append_digits(&mut number, chars, whole + 1, end, Ghost(s.take(whole as int)));
    } else {
        assert(digits == s.take(whole as int));
    }
    assert(number@ == strings::decimal_value(digits));
    let ghost e = exponent(s).unwrap() - places;
    let total: i128 = written - places as i128;
    if number.is_zero() {
        proof {
            assert(0 * ten_to(e as nat) == 0) by (nonlinear_arith);
            lemma_nearest_zero(1);
            if e < 0 {
                lemma_ten_to_adds((-e) as nat, 0);
                lemma_nearest_zero(ten_to((-e) as nat));
            }
        }
        return Some(0);
    }
    let length: i128 = whole as i128 + places as i128;
    if total >= 45 {
        proof {
            lemma_decimal_huge(number@, e);
        }
        return Some(INFINITY);
    }
    if total <= 0 - length - 51 {
        proof {
            assert forall|i: int| 0 <= i < digits.len() implies strings::is_digit(
                #[trigger] digits[i],
            ) by {
                if i < whole {
                    assert(digits[i] == s[i]);
                } else {
                    assert(digits[i] == s[i + 1]);
                }
            }
            lemma_digits_bound(digits);
            lemma_decimal_tiny(number@, digits.len(), e);
        }
        return Some(0);
    }
    assert(e == total);
    if total >= 0 {
        let ghost whole_number = number@;
        let mut k: i128 = 0;
        assert(whole_number * 1 == whole_number);
        while k < total
            invariant
                0 <= k <= total,
                number@ == whole_number * ten_to(k as nat),
            decreases total - k,
        {
            assert(whole_number * (10 * ten_to(k as nat)) == (whole_number * ten_to(k as nat)) * 10)
                by (nonlinear_arith);
            number.multiply_add(10, 0);
            k = k + 1;
        }
        Some(round(&number, &Natural::new(1)))
    } else {
        let places_behind: i128 = 0 - total;
        let mut den = Natural::new(1);
        let mut k: i128 = 0;
        while k < places_behind
            invariant
                0 <= k <= places_behind,
                den@ == ten_to(k as nat),
            decreases places_behind - k,
        {
            den.multiply_add(10, 0);
            k = k + 1;
        }
        proof {
            lemma_ten_to_adds(places_behind as nat, 0);
        }
        Some(round(&number, &den))
    }
}

/// A copy of the characters from `from` on.
fn tail(chars: &Vec<char>, from: usize) -> (r: Vec<char>)
    requires
        from <= chars@.len(),
    ensures
        r@ == chars@.skip(from as int),
{
    let mut out: Vec<char> = Vec::new();
    let mut i: usize = from;
    while i < chars.len()
        invariant
            from <= i <= chars@.len(),
            out@ == chars@.subrange(from as int, i as int),
        decreases chars@.len() - i,
    {
        out.push(chars[i]);
        assert(chars@.subrange(from as int, i as int + 1) == chars@.subrange(
            from as int,
            i as int,
        ).push(chars@[i as int]));
        i = i + 1;
    }
    assert(chars@.skip(from as int) == chars@.subrange(from as int, chars@.len() as int));
    out
}

impl Single {
    /// Read a number from its text.
    pub fn parse(text: &str) -> (r: Option<Single>)
        ensures
            r == single_text(text@),
    {
        let chars = chars_of(text);
        let negative = chars.len() > 0 && chars[0] == '-';
        let start: usize = if chars.len() > 0 && (chars[0] == '-' || chars[0] == '+') {
            1
        } else {
            0
        };
        let body = tail(&chars, start);
        assert(chars@.skip(0) == chars@);
        assert(body@.skip(0) == body@);
        let bits = if spells_word(&body, 0, "inf") || spells_word(&body, 0, "infinity") {
            INFINITY
        } else if spells_word(&body, 0, "nan") {
            NAN
        } else {
            match read_number(&body) {
                Some(bits) => bits,
                None => return None,
            }
        };
        Some(
            Single {
                bits: if negative {
                    SIGN + bits
                } else {
                    bits
                },
            },
        )
    }
}

// ── Integers and sums ────────────────────────────────────────────────────────

/// The number with the given sign and magnitude bits.
pub open spec fn signed(negative: bool, bits: nat) -> Single {
    Single {
        bits: if negative {
            (SIGN + bits) as u32
        } else {
            bits as u32
        },
    }
}

/// The number nearest to the integer `n`.
pub open spec fn of_integer(n: int) -> Single {
    signed(
        n < 0,
        nearest(
            if n < 0 {
                (-n) as nat
            } else {
                n as nat
            },
            1,
        ),
    )
}

impl Single {
    pub open spec fn negative(self) -> bool {
        self.bits >= SIGN
    }

    /// The bits without the sign.
    pub open spec fn magnitude(self) -> nat {
        (if self.bits >= SIGN {
            self.bits - SIGN
        } else {
            self.bits as int
        }) as nat
    }

    pub open spec fn is_nan(self) -> bool {
        self.magnitude() > INFINITY
    }

    pub open spec fn is_infinite(self) -> bool {
        self.magnitude() == INFINITY
    }

    /// The significand: the fraction bits, with the leading bit that numbers
    /// with a non-zero exponent field leave out.
    pub open spec fn significand(self) -> nat {
        if self.magnitude() < 0x80_0000 {
            self.magnitude()
        } else {
            self.magnitude() % 0x80_0000 + 0x80_0000
        }
    }

    /// By how many binary places the significand is shifted.
    pub open spec fn shift(self) -> nat {
        if self.magnitude() < 0x80_0000 {
            0
        } else {
            (self.magnitude() / 0x80_0000 - 1) as nat
        }
    }

    /// The magnitude of a finite number, times `2^149`: always an integer.
    pub open spec fn scaled(self) -> nat {
        self.significand() * power2::pow2(self.shift())
    }

    /// The finite number, times `2^149`.
    pub open spec fn scaled_value(self) -> int {
        if self.negative() {
            -(self.scaled() as int)
        } else {
            self.scaled() as int
        }
    }

    /// The sum of two numbers.
    pub open spec fn sum(self, other: Single) -> Single {
        if self.is_nan() || other.is_nan() {
            Single { bits: NAN }
        } else if self.is_infinite() {
            if other.is_infinite() && other.negative() != self.negative() {
                Single { bits: NAN }
            } else {
                self
            }
        } else if other.is_infinite() {
            other
        } else {
            let s = self.scaled_value() + other.scaled_value();
            if s == 0 {
                signed(self.negative() && other.negative(), 0)
            } else {
                signed(
                    s < 0,
                    nearest(
                        if s < 0 {
                            (-s) as nat
                        } else {
                            s as nat
                        },
                        power2::pow2(149),
                    ),
                )
            }
        }
    }

    /// The number without its fraction, moved into the range of `i32` if it is
    /// beyond it; 0 for what is not a number.
    pub open spec fn truncated(self) -> i32 {
        if self.is_nan() {
            0
        } else if self.is_infinite() {
            if self.negative() {
                i32::MIN
            } else {
                i32::MAX
            }
        } else {
            let t = self.scaled() as int / power2::pow2(149) as int;
            if self.negative() {
                if t > 0x8000_0000 {
                    i32::MIN
                } else {
                    (-t) as i32
                }
            } else if t > 0x7fff_ffff {
                i32::MAX
            } else {
                t as i32
            }
        }
    }

    fn is_negative(self) -> (r: bool)
        ensures
            r == self.negative(),
    {
        self.bits >= SIGN
    }

    fn get_magnitude(self) -> (r: u32)
        ensures
            r == self.magnitude(),
    {
        if self.bits >= SIGN {
            self.bits - SIGN
        } else {
            self.bits
        }
    }

    fn get_significand(self) -> (r: u32)
        ensures
            r == self.significand(),
            r < 0x100_0000,
            self.shift() > 0 ==> r >= 0x80_0000,
    {
        let m = self.get_magnitude();
        if m < 0x80_0000 {
            m
        } else {
            m % 0x80_0000 + 0x80_0000
        }
    }

    fn get_shift(self) -> (r: u32)
        ensures
            r == self.shift(),
            r <= 255,
    {
        let m = self.get_magnitude();
        if m < 0x80_0000 {
            0
        } else {
            m / 0x80_0000 - 1
        }
    }

    /// The magnitude of a finite number, times `2^149`.
    fn get_scaled(self) -> (r: Natural)
        ensures
            r@ == self.scaled(),
    {
        let mut n = Natural::new(self.get_significand());
        let k = self.get_shift();
        let mut i: u32 = 0;
        proof {
            power2::lemma2_to64();
            assert(self.significand() * power2::pow2(0) == self.significand()) by (nonlinear_arith)
                requires
                    power2::pow2(0) == 1,
            ;
        }
        while i < k
            invariant
                i <= k,
                n@ == self.significand() * power2::pow2(i as nat),
            decreases k - i,
        {
            proof {
                power2::lemma_pow2_unfold((i + 1) as nat);
                let m = self.significand();
                assert(2 * (m * power2::pow2(i as nat)) == m * (2 * power2::pow2(i as nat)))
                    by (nonlinear_arith);
            }
            n.double();
            i = i + 1;
        }
        n
    }

    /// The number with the given sign and magnitude bits.
    fn with_sign(negative: bool, bits: u32) -> (r: Single)
        requires
            bits <= INFINITY,
        ensures
            r == signed(negative, bits as nat),
    {
        Single {
            bits: if negative {
                SIGN + bits
            } else {
                bits
            },
        }
    }

    /// The number nearest to `n`.
    pub fn from_i64(n: i64) -> (r: Single)
        ensures
            r == of_integer(n as int),
    {
        let m: u64 = if n < 0 {
            (0 - (n as i128)) as u64
        } else {
            n as u64
        };
        let mut big = Natural::new((m / 0x1_0000_0000) as u32);
        // Two steps, because the factor 2³² is itself one too large.
        big.multiply_add(0x1_0000, 0);
        big.multiply_add(0x1_0000, 0);
        let low = Natural::new((m % 0x1_0000_0000) as u32);
        let whole = big.plus(&low);
        assert(whole@ == m);
        Single::with_sign(n < 0, round(&whole, &Natural::new(1)))
    }

    /// The sum of two numbers.
    pub fn plus(self, other: Single) -> (r: Single)
        ensures
            r == self.sum(other),
    {
        let a = self.get_magnitude();
        let b = other.get_magnitude();
        if a > INFINITY || b > INFINITY {
            return Single { bits: NAN };
        }
        if a == INFINITY {
            return if b == INFINITY && other.is_negative() != self.is_negative() {
                Single { bits: NAN }
            } else {
                self
            };
        }
        if b == INFINITY {
            return other;
        }
        let x = self.get_scaled();
        let y = other.get_scaled();
        let (negative, magnitude) = if self.is_negative() == other.is_negative() {
            (self.is_negative(), x.plus(&y))
        } else if x.less_than(&y) {
            (other.is_negative(), y.minus(&x))
        } else {
            (self.is_negative(), x.minus(&y))
        };
        if magnitude.is_zero() {
            return Single::with_sign(self.is_negative() && other.is_negative(), 0);
        }
        let mut den = Natural::new(1);
        let mut i: u32 = 0;
        proof {
            power2::lemma2_to64();
        }
        while i < 149
            invariant
                i <= 149,
                den@ == power2::pow2(i as nat),
            decreases 149 - i,
        {
            proof {
                power2::lemma_pow2_unfold((i + 1) as nat);
            }
            den.double();
            i = i + 1;
        }
        proof {
            power2::lemma_pow2_pos(149);
        }
        Single::with_sign(negative, round(&magnitude, &den))
    }

    /// The number without its fraction, moved into the range of `i32`.
    pub fn to_i32(self) -> (r: i32)
        ensures
            r == self.truncated(),
    {
        let m = self.get_magnitude();
        if m > INFINITY {
            return 0;
        }
        let negative = self.is_negative();
        if m == INFINITY {
            return if negative {
                i32::MIN
            } else {
                i32::MAX
            };
        }
        let k = self.get_shift();
        let significand = self.get_significand();
        let mut t: u64 = significand as u64;
        let ghost unit = power2::pow2(149);
        proof {
            power2::lemma2_to64();
            power2::lemma_pow2_pos(149);
        }
        if k >= 149 {
            let steps: u32 = k - 149;
            proof {
                power2::lemma_pow2_adds(149, steps as nat);
                let p = power2::pow2(steps as nat);
                let g = significand as nat;
                assert(g * (unit * p) == (g * p) * unit) by (nonlinear_arith);
                vstd::arithmetic::div_mod::lemma_div_multiples_vanish((g * p) as int, unit as int);
                assert(self.scaled() as int / unit as int == g * p) by {
                    assert(self.scaled() == (g * p) * unit);
                    assert(((g * p) * unit) as int == unit as int * (g * p) as int)
                        by (nonlinear_arith);
                }
            }
            if steps >= 8 {
                proof {
                    let p = power2::pow2(steps as nat);
                    if steps > 8 {
                        power2::lemma_pow2_strictly_increases(8, steps as nat);
                    }
                    let g = significand as nat;
                    assert(g * p >= 0x8000_0000) by (nonlinear_arith)
                        requires
                            g >= 0x80_0000,
                            p >= 256,
                    ;
                }
                return if negative {
                    i32::MIN
                } else {
                    i32::MAX
                };
            }
            let mut i: u32 = 0;
            proof {
                assert(significand as nat * power2::pow2(0) == significand as nat)
                    by (nonlinear_arith)
                    requires
                        power2::pow2(0) == 1,
                ;
            }
            while i < steps
                invariant
                    i <= steps < 8,
                    significand < 0x100_0000,
                    t == significand as nat * power2::pow2(i as nat),
                    t < 0x1_0000_0000,
                decreases steps - i,
            {
                proof {
                    power2::lemma_pow2_unfold((i + 1) as nat);
                    power2::lemma2_to64();
                    let g = significand as nat;
                    let p = power2::pow2(i as nat);
                    assert(2 * (g * p) == g * (2 * p)) by (nonlinear_arith);
                    if i < 7 {
                        power2::lemma_pow2_strictly_increases(i as nat, 7);
                    }
                    if i + 1 < 8 {
                        power2::lemma_pow2_strictly_increases((i + 1) as nat, 8);
                    }
                    let w = power2::pow2((i + 1) as nat);
                    assert(g * w < 0x1_0000_0000) by (nonlinear_arith)
                        requires
                            g < 0x100_0000,
                            w <= 256,
                            w > 0,
                    ;
                }
                t = t * 2;
                i = i + 1;
            }
        } else {
            let steps: u32 = 149 - k;
            proof {
                power2::lemma_pow2_adds(k as nat, steps as nat);
                power2::lemma_pow2_pos(k as nat);
                power2::lemma_pow2_pos(steps as nat);
                let p = power2::pow2(k as nat) as int;
                let q = power2::pow2(steps as nat) as int;
                let g = significand as int;
                vstd::arithmetic::div_mod::lemma_div_multiples_vanish_quotient(p, g, q);
                assert(self.scaled() as int == p * g) by (nonlinear_arith)
                    requires
                        self.scaled() as int == g * p,
                ;
                assert(self.scaled() as int / unit as int == g / q);
            }
            let mut i: u32 = 0;
            while i < steps
                invariant
                    i <= steps,
                    t == significand as int / power2::pow2(i as nat) as int,
                decreases steps - i,
            {
                proof {
                    power2::lemma_pow2_unfold((i + 1) as nat);
                    power2::lemma_pow2_pos(i as nat);
                    let p = power2::pow2(i as nat) as int;
                    vstd::arithmetic::div_mod::lemma_div_denominator(significand as int, p, 2);
                    assert(p * 2 == 2 * p);
                }
                t = t / 2;
                i = i + 1;
            }
        }
        if negative {
            if t > 0x8000_0000 {
                i32::MIN
            } else {
                (0 - t as i64) as i32
            }
        } else if t > 0x7fff_ffff {
            i32::MAX
        } else {
            t as i32
        }
    }
}

} // verus!
