//! Readings of expressions.

use vstd::prelude::*;

use super::numbers;
use crate::eval;
use crate::eval::{EvalErrorView, Symbols};
use crate::single::Single;
use crate::strings;
use crate::text::ast;
use crate::text::ast::ExprView;
use crate::text::base::Spanned;

verus! {

/// The sum of integers.
pub open spec fn total(n: Seq<int>) -> int
    decreases n.len(),
{
    if n.len() == 0 {
        0
    } else {
        total(n.drop_last()) + n.last()
    }
}

// ── Sums ─────────────────────────────────────────────────────────────────────

proof fn lemma_total_step(n: Seq<int>, k: int)
    requires
        0 <= k < n.len(),
    ensures
        total(n.take(k + 1)) == total(n.take(k)) + n[k],
{
    assert(n.take(k + 1).drop_last() =~= n.take(k));
}

proof fn lemma_sum_i32(syms: Symbols, v: Seq<Spanned<ExprView>>, n: Seq<int>, k: int)
    requires
        v.len() == n.len(),
        0 <= k <= n.len(),
        forall|j: int|
            0 <= j < n.len() ==> i32::MIN <= n[j] <= i32::MAX && eval::as_i32(
                syms,
                (#[trigger] v[j]).value,
            ) == Ok::<i32, EvalErrorView>(n[j] as i32),
        forall|j: int| 0 <= j <= n.len() ==> i32::MIN <= total(#[trigger] n.take(j)) <= i32::MAX,
    ensures
        eval::sum_i32(syms, v, k, total(n.take(k)) as i32) == Ok::<i32, EvalErrorView>(
            total(n) as i32,
        ),
    decreases n.len() - k,
{
    assert(i32::MIN <= total(n.take(k)) <= i32::MAX);
    if k < n.len() {
        lemma_total_step(n, k);
        assert(i32::MIN <= total(n.take(k + 1)) <= i32::MAX);
        assert(eval::as_i32(syms, v[k].value) == Ok::<i32, EvalErrorView>(n[k] as i32));
        lemma_sum_i32(syms, v, n, k + 1);
    } else {
        assert(n.take(k) =~= n);
    }
}

/// An additive expression whose terms read as signed integers reads as the arithmetic sum of
/// what its terms read as, where no partial sum leaves the range.
pub proof fn additive_expressions_add_up(
    syms: Symbols,
    v: Seq<Spanned<ExprView>>,
    n: Seq<int>,
)
    requires
        v.len() == n.len(),
        forall|j: int|
            0 <= j < n.len() ==> i32::MIN <= n[j] <= i32::MAX && eval::as_i32(
                syms,
                (#[trigger] v[j]).value,
            ) == Ok::<i32, EvalErrorView>(n[j] as i32),
        forall|j: int| 0 <= j <= n.len() ==> i32::MIN <= total(#[trigger] n.take(j)) <= i32::MAX,
    ensures
        i32::MIN <= total(n) <= i32::MAX,
        eval::as_i32(syms, ExprView::Add(v)) == Ok::<i32, EvalErrorView>(total(n) as i32),
{
    assert(n.take(n.len() as int) =~= n);
    assert(n.take(0) =~= Seq::<int>::empty());
    lemma_sum_i32(syms, v, n, 0);
}

/// `a + b` reads as the sum of the two, or overflows where that is out of range; the order of
/// the two does not matter, and a term that has no reading gives its error.
pub proof fn two_terms_add_up(syms: Symbols, a: Spanned<ExprView>, b: Spanned<ExprView>)
    ensures
        ({
            let sum = eval::as_i32(syms, ExprView::Add(seq![a, b]));
            match (eval::as_i32(syms, a.value), eval::as_i32(syms, b.value)) {
                (Ok(x), Ok(y)) => {
                    &&& sum == (if i32::MIN <= x + y <= i32::MAX {
                        Ok::<i32, EvalErrorView>((x + y) as i32)
                    } else {
                        Err(EvalErrorView::Overflow)
                    })
                    &&& sum == eval::as_i32(syms, ExprView::Add(seq![b, a]))
                },
                (Err(e), _) => sum == Err::<i32, EvalErrorView>(e),
                (Ok(_), Err(e)) => sum == Err::<i32, EvalErrorView>(e),
            }
        }),
        ({
            let sum = eval::as_u32(syms, ExprView::Add(seq![a, b]));
            match (eval::as_u32(syms, a.value), eval::as_u32(syms, b.value)) {
                (Ok(x), Ok(y)) => {
                    &&& sum == (if x + y <= u32::MAX {
                        Ok::<u32, EvalErrorView>((x + y) as u32)
                    } else {
                        Err(EvalErrorView::Overflow)
                    })
                    &&& sum == eval::as_u32(syms, ExprView::Add(seq![b, a]))
                },
                (Err(e), _) => sum == Err::<u32, EvalErrorView>(e),
                (Ok(_), Err(e)) => sum == Err::<u32, EvalErrorView>(e),
            }
        }),
{
    lemma_two_i32(syms, a, b);
    lemma_two_i32(syms, b, a);
    lemma_two_u32(syms, a, b);
    lemma_two_u32(syms, b, a);
}

proof fn lemma_two_i32(syms: Symbols, a: Spanned<ExprView>, b: Spanned<ExprView>)
    ensures
        eval::as_i32(syms, ExprView::Add(seq![a, b])) == (match (
            eval::as_i32(syms, a.value),
            eval::as_i32(syms, b.value),
        ) {
            (Ok(x), Ok(y)) => if i32::MIN <= x + y <= i32::MAX {
                Ok::<i32, EvalErrorView>((x + y) as i32)
            } else {
                Err(EvalErrorView::Overflow)
            },
            (Err(e), _) => Err(e),
            (Ok(_), Err(e)) => Err(e),
        }),
{
    let v = seq![a, b];
    assert(v.len() == 2 && v[0] == a && v[1] == b);
    assert(eval::as_i32(syms, ExprView::Add(v)) == eval::sum_i32(syms, v, 0, 0));
    if let Ok(x) = eval::as_i32(syms, v[0].value) {
        assert(eval::sum_i32(syms, v, 0, 0) == eval::sum_i32(syms, v, 1, x));
        if let Ok(y) = eval::as_i32(syms, v[1].value) {
            if i32::MIN <= x + y <= i32::MAX {
                assert(eval::sum_i32(syms, v, 1, x) == eval::sum_i32(syms, v, 2, (x + y) as i32));
                assert(eval::sum_i32(syms, v, 2, (x + y) as i32) == Ok::<i32, EvalErrorView>(
                    (x + y) as i32,
                ));
            }
        }
    }
}

proof fn lemma_two_u32(syms: Symbols, a: Spanned<ExprView>, b: Spanned<ExprView>)
    ensures
        eval::as_u32(syms, ExprView::Add(seq![a, b])) == (match (
            eval::as_u32(syms, a.value),
            eval::as_u32(syms, b.value),
        ) {
            (Ok(x), Ok(y)) => if x + y <= u32::MAX {
                Ok::<u32, EvalErrorView>((x + y) as u32)
            } else {
                Err(EvalErrorView::Overflow)
            },
            (Err(e), _) => Err(e),
            (Ok(_), Err(e)) => Err(e),
        }),
{
    let v = seq![a, b];
    assert(v.len() == 2 && v[0] == a && v[1] == b);
    assert(eval::as_u32(syms, ExprView::Add(v)) == eval::sum_u32(syms, v, 0, 0));
    if let Ok(x) = eval::as_u32(syms, v[0].value) {
        assert(eval::sum_u32(syms, v, 0, 0) == eval::sum_u32(syms, v, 1, x));
        if let Ok(y) = eval::as_u32(syms, v[1].value) {
            if x + y <= u32::MAX {
                assert(eval::sum_u32(syms, v, 1, x) == eval::sum_u32(syms, v, 2, (x + y) as u32));
                assert(eval::sum_u32(syms, v, 2, (x + y) as u32) == Ok::<u32, EvalErrorView>(
                    (x + y) as u32,
                ));
            }
        }
    }
}

proof fn lemma_sum_u32(syms: Symbols, v: Seq<Spanned<ExprView>>, n: Seq<int>, k: int)
    requires
        v.len() == n.len(),
        0 <= k <= n.len(),
        forall|j: int|
            0 <= j < n.len() ==> 0 <= n[j] <= u32::MAX && eval::as_u32(
                syms,
                (#[trigger] v[j]).value,
            ) == Ok::<u32, EvalErrorView>(n[j] as u32),
        forall|j: int| 0 <= j <= n.len() ==> 0 <= total(#[trigger] n.take(j)) <= u32::MAX,
    ensures
        eval::sum_u32(syms, v, k, total(n.take(k)) as u32) == Ok::<u32, EvalErrorView>(
            total(n) as u32,
        ),
    decreases n.len() - k,
{
    assert(0 <= total(n.take(k)) <= u32::MAX);
    if k < n.len() {
        lemma_total_step(n, k);
        assert(0 <= total(n.take(k + 1)) <= u32::MAX);
        assert(eval::as_u32(syms, v[k].value) == Ok::<u32, EvalErrorView>(n[k] as u32));
        lemma_sum_u32(syms, v, n, k + 1);
    } else {
        assert(n.take(k) =~= n);
    }
}

/// The same of unsigned integers.
pub proof fn unsigned_expressions_add_up(
    syms: Symbols,
    v: Seq<Spanned<ExprView>>,
    n: Seq<int>,
)
    requires
        v.len() == n.len(),
        forall|j: int|
            0 <= j < n.len() ==> 0 <= n[j] <= u32::MAX && eval::as_u32(
                syms,
                (#[trigger] v[j]).value,
            ) == Ok::<u32, EvalErrorView>(n[j] as u32),
        forall|j: int| 0 <= j <= n.len() ==> 0 <= total(#[trigger] n.take(j)) <= u32::MAX,
    ensures
        0 <= total(n) <= u32::MAX,
        eval::as_u32(syms, ExprView::Add(v)) == Ok::<u32, EvalErrorView>(total(n) as u32),
{
    assert(n.take(n.len() as int) =~= n);
    assert(n.take(0) =~= Seq::<int>::empty());
    lemma_sum_u32(syms, v, n, 0);
}

/// `a + b` of two finite numbers reads as the single-precision number nearest to their sum.
pub proof fn two_reals_add_up(
    syms: Symbols,
    a: Spanned<ExprView>,
    b: Spanned<ExprView>,
    x: Single,
    y: Single,
) -> (r: Single)
    requires
        eval::as_single(syms, a.value) == Ok::<Single, EvalErrorView>(x),
        eval::as_single(syms, b.value) == Ok::<Single, EvalErrorView>(y),
        numbers::finite(x),
        numbers::finite(y),
    ensures
        eval::as_single(syms, ExprView::Add(seq![a, b])) == Ok::<Single, EvalErrorView>(r),
        ({
            let s = numbers::signed_units(x) + numbers::signed_units(y);
            if s == 0 {
                numbers::signed_units(r) == 0
            } else {
                numbers::rounds(
                    r,
                    s < 0,
                    if s < 0 {
                        (-s) as nat
                    } else {
                        s as nat
                    },
                    vstd::arithmetic::power2::pow2(149),
                )
            }
        }),
{
    let v = seq![a, b];
    assert(v.len() == 2 && v[0] == a && v[1] == b);
    let zero = Single { bits: 0 };
    assert(numbers::finite(zero));
    numbers::sums_of_opposites_and_zeros(x, y);
    let first = zero.sum(x);
    assert(numbers::units(0) == 0);
    assert(numbers::signed_units(first) == numbers::signed_units(x));
    assert(numbers::finite(first));
    numbers::sums_of_opposites_and_zeros(first, y);
    if numbers::signed_units(x) + numbers::signed_units(y) != 0 {
        numbers::sums_are_rounded_once(first, y);
    }
    assert(eval::as_single(syms, ExprView::Add(v)) == eval::sum_single(syms, v, 0, zero));
    assert(eval::sum_single(syms, v, 0, zero) == eval::sum_single(syms, v, 1, first));
    assert(eval::sum_single(syms, v, 1, first) == eval::sum_single(syms, v, 2, first.sum(y)));
    assert(eval::sum_single(syms, v, 2, first.sum(y)) == Ok::<Single, EvalErrorView>(
        first.sum(y),
    ));
    first.sum(y)
}

// ── Unions ───────────────────────────────────────────────────────────────────

proof fn lemma_union_i32(
    syms: Symbols,
    v: Seq<Spanned<ExprView>>,
    n: Seq<i32>,
    k: int,
    acc: i32,
) -> (r: i32)
    requires
        v.len() == n.len(),
        0 <= k <= n.len(),
        forall|j: int|
            0 <= j < n.len() ==> eval::as_i32(syms, (#[trigger] v[j]).value) == Ok::<
                i32,
                EvalErrorView,
            >(n[j]),
    ensures
        eval::union_i32(syms, v, k, acc) == Ok::<i32, EvalErrorView>(r),
        r | acc == r,
        forall|j: int| k <= j < n.len() ==> r | #[trigger] n[j] == r,
        forall|m: i32|
            (m | acc == m && forall|j: int| k <= j < n.len() ==> m | #[trigger] n[j] == m)
                ==> #[trigger] (m | r) == m,
    decreases n.len() - k,
{
    if k < n.len() {
        assert(eval::as_i32(syms, v[k].value) == Ok::<i32, EvalErrorView>(n[k]));
        let x = n[k];
        let next = acc | x;
        let r = lemma_union_i32(syms, v, n, k + 1, next);
        assert(r | (acc | x) == r ==> r | acc == r && r | x == r) by (bit_vector);
        assert forall|m: i32|
            (m | acc == m && forall|j: int| k <= j < n.len() ==> m | #[trigger] n[j]
                == m) implies #[trigger] (m | r) == m by {
            assert(m | n[k] == m);
            assert(m | acc == m && m | x == m ==> m | (acc | x) == m) by (bit_vector);
            assert(m | next == m);
        }
        r
    } else {
        assert(acc | acc == acc) by (bit_vector);
        acc
    }
}

/// A bitwise-or expression reads as the union of its terms: it has the bits of every term,
/// and no bit that none of them has.
pub proof fn unions_have_the_bits_of_their_terms(
    syms: Symbols,
    v: Seq<Spanned<ExprView>>,
    n: Seq<i32>,
) -> (r: i32)
    requires
        v.len() == n.len(),
        forall|j: int|
            0 <= j < n.len() ==> eval::as_i32(syms, (#[trigger] v[j]).value) == Ok::<
                i32,
                EvalErrorView,
            >(n[j]),
    ensures
        eval::as_i32(syms, ExprView::BitOr(v)) == Ok::<i32, EvalErrorView>(r),
        forall|j: int| 0 <= j < n.len() ==> r | #[trigger] n[j] == r,
        forall|m: i32|
            (forall|j: int| 0 <= j < n.len() ==> m | #[trigger] n[j] == m) ==> #[trigger] (m | r)
                == m,
{
    assert forall|m: i32| #[trigger] (m | 0) == m by {
        assert(m | 0 == m) by (bit_vector);
    }
    lemma_union_i32(syms, v, n, 0, 0)
}

proof fn lemma_union_u32(
    syms: Symbols,
    v: Seq<Spanned<ExprView>>,
    n: Seq<u32>,
    k: int,
    acc: u32,
) -> (r: u32)
    requires
        v.len() == n.len(),
        0 <= k <= n.len(),
        forall|j: int|
            0 <= j < n.len() ==> eval::as_u32(syms, (#[trigger] v[j]).value) == Ok::<
                u32,
                EvalErrorView,
            >(n[j]),
    ensures
        eval::union_u32(syms, v, k, acc) == Ok::<u32, EvalErrorView>(r),
        r | acc == r,
        forall|j: int| k <= j < n.len() ==> r | #[trigger] n[j] == r,
        forall|m: u32|
            (m | acc == m && forall|j: int| k <= j < n.len() ==> m | #[trigger] n[j] == m)
                ==> #[trigger] (m | r) == m,
    decreases n.len() - k,
{
    if k < n.len() {
        assert(eval::as_u32(syms, v[k].value) == Ok::<u32, EvalErrorView>(n[k]));
        let x = n[k];
        let next = acc | x;
        let r = lemma_union_u32(syms, v, n, k + 1, next);
        assert(r | (acc | x) == r ==> r | acc == r && r | x == r) by (bit_vector);
        assert forall|m: u32|
            (m | acc == m && forall|j: int| k <= j < n.len() ==> m | #[trigger] n[j]
                == m) implies #[trigger] (m | r) == m by {
            assert(m | n[k] == m);
            assert(m | acc == m && m | x == m ==> m | (acc | x) == m) by (bit_vector);
            assert(m | next == m);
        }
        r
    } else {
        assert(acc | acc == acc) by (bit_vector);
        acc
    }
}

/// The same of unsigned integers.
pub proof fn unsigned_unions_have_the_bits_of_their_terms(
    syms: Symbols,
    v: Seq<Spanned<ExprView>>,
    n: Seq<u32>,
) -> (r: u32)
    requires
        v.len() == n.len(),
        forall|j: int|
            0 <= j < n.len() ==> eval::as_u32(syms, (#[trigger] v[j]).value) == Ok::<
                u32,
                EvalErrorView,
            >(n[j]),
    ensures
        eval::as_u32(syms, ExprView::BitOr(v)) == Ok::<u32, EvalErrorView>(r),
        forall|j: int| 0 <= j < n.len() ==> r | #[trigger] n[j] == r,
        forall|m: u32|
            (forall|j: int| 0 <= j < n.len() ==> m | #[trigger] n[j] == m) ==> #[trigger] (m | r)
                == m,
{
    assert forall|m: u32| #[trigger] (m | 0) == m by {
        assert(m | 0 == m) by (bit_vector);
    }
    lemma_union_u32(syms, v, n, 0, 0)
}

// ── Literals, symbols and words ──────────────────────────────────────────────

pub(crate) proof fn lemma_integer_shape(n: int)
    ensures
        !ast::float_shaped(strings::int_text(n)),
{
    let s = strings::int_text(n);
    reveal_strlit("-");
    numbers::lemma_nat_text(
        if n < 0 {
            (-n) as nat
        } else {
            n as nat
        },
    );
    let d = strings::nat_text(
        if n < 0 {
            (-n) as nat
        } else {
            n as nat
        },
    );
    let off: int = if n < 0 {
        1
    } else {
        0
    };
    assert forall|i: int| 0 <= i < s.len() implies #[trigger] s[i] != '.' && s[i] != 'f' by {
        if i >= off {
            assert(s[i] == d[i - off]);
            assert(strings::is_digit(d[i - off]));
        }
    }
}

/// The literal of an integer reads as that integer, in every integer type that has it, and as
/// the real nearest to it.
pub proof fn integer_literals_read_as_written(syms: Symbols, n: int) -> (x: Single)
    requires
        i64::MIN <= n <= i64::MAX,
    ensures
        ({
            let e = ExprView::Number(strings::int_text(n));
            &&& eval::as_i32(syms, e) == (if -0x8000_0000 <= n <= 0x7fff_ffff {
                Ok::<i32, EvalErrorView>(n as i32)
            } else {
                Err(EvalErrorView::OutOfRange(n as i64))
            })
            &&& eval::as_u32(syms, e) == (if 0 <= n <= 0xffff_ffff {
                Ok::<u32, EvalErrorView>(n as u32)
            } else {
                Err(EvalErrorView::OutOfRange(n as i64))
            })
            &&& eval::as_single(syms, e) == Ok::<Single, EvalErrorView>(x)
            &&& numbers::rounds(
                x,
                n < 0,
                if n < 0 {
                    (-n) as nat
                } else {
                    n as nat
                },
                1,
            )
            &&& 0 <= n <= 0x7fff_ffff ==> eval::as_usize(syms, e) == Ok::<usize, EvalErrorView>(
                n as usize,
            )
            &&& -0x8000_0000 <= n < 0 ==> eval::as_usize(syms, e) == Err::<usize, EvalErrorView>(
                EvalErrorView::OutOfRange(n as i64),
            )
        }),
{
    lemma_integer_shape(n);
    numbers::integers_read_back(n);
    numbers::integers_become_the_nearest_number(n);
    crate::single::of_integer(n)
}

proof fn lemma_without_suffix(s: Seq<char>, k: nat)
    requires
        s.len() > 0 ==> s.last() != 'f',
    ensures
        eval::without_suffix(s + Seq::new(k, |i: int| 'f')) == s,
    decreases k,
{
    let t = s + Seq::new(k, |i: int| 'f');
    if k == 0 {
        assert(t =~= s);
    } else {
        assert(t.drop_last() =~= s + Seq::new((k - 1) as nat, |i: int| 'f'));
        lemma_without_suffix(s, (k - 1) as nat);
    }
}

/// A real literal reads as the single-precision number nearest to its decimal value, whatever
/// `f`s it ends in; read as a signed integer it loses its fraction, and as an unsigned one it
/// has no reading.
pub proof fn real_literals_read_to_the_nearest(
    syms: Symbols,
    sign: Option<char>,
    whole: Seq<char>,
    fraction: Seq<char>,
    suffix: nat,
) -> (x: Single)
    requires
        numbers::digits(whole),
        numbers::digits(fraction),
        whole.len() > 0 || fraction.len() > 0,
        sign is Some ==> sign->0 == '-' || sign->0 == '+',
    ensures
        ({
            let e = ExprView::Number(
                numbers::real_text(sign, whole, Some(fraction)) + Seq::new(suffix, |i: int| 'f'),
            );
            &&& eval::as_single(syms, e) == Ok::<Single, EvalErrorView>(x)
            &&& eval::as_i32(syms, e) == Ok::<i32, EvalErrorView>(x.truncated())
            &&& eval::as_u32(syms, e) is Err
        }),
        numbers::rounds(
            x,
            sign == Some('-'),
            strings::decimal_value(whole + fraction),
            vstd::arithmetic::power::pow(10, fraction.len()) as nat,
        ),
{
    let s = numbers::real_text(sign, whole, Some(fraction));
    let t = s + Seq::new(suffix, |i: int| 'f');
    let back = seq!['.'] + fraction;
    let off: int = if sign is Some {
        1
    } else {
        0
    };
    assert(s.len() == off + whole.len() + 1 + fraction.len());
    assert(t[off + whole.len()] == '.');
    assert(t.contains('.'));
    assert(s.last() != 'f') by {
        if fraction.len() > 0 {
            assert(s.last() == fraction[fraction.len() - 1]);
        }
    }
    lemma_without_suffix(s, suffix);
    numbers::reals_are_read_to_the_nearest(sign, whole, Some(fraction))
}

/// A bound symbol reads as the number that it is bound to, and an unbound one is unknown.
/// `NULL` is no reference, whatever it is bound to.
pub proof fn symbols_read_as_what_they_are_bound_to(
    syms: Symbols,
    name: Seq<char>,
) -> (x: Single)
    ensures
        ({
            let e = ExprView::Symbol(name);
            &&& syms.dom().contains(name) && name != "NULL"@ && i32::MIN <= syms[name] <= i32::MAX
                ==> eval::as_i32(syms, e) == Ok::<i32, EvalErrorView>(syms[name] as i32)
            &&& syms.dom().contains(name) && name != "NULL"@ && !(i32::MIN <= syms[name]
                <= i32::MAX) ==> eval::as_i32(syms, e) == Err::<i32, EvalErrorView>(
                EvalErrorView::OutOfRange(syms[name]),
            )
            &&& syms.dom().contains(name) && name != "NULL"@ && 0 <= syms[name] <= u32::MAX
                ==> eval::as_u32(syms, e) == Ok::<u32, EvalErrorView>(syms[name] as u32)
            &&& syms.dom().contains(name) && name != "NULL"@ && !(0 <= syms[name] <= u32::MAX)
                ==> eval::as_u32(syms, e) == Err::<u32, EvalErrorView>(
                EvalErrorView::OutOfRange(syms[name]),
            )
            &&& !syms.dom().contains(name) && name != "NULL"@ ==> eval::as_i32(syms, e) == Err::<
                i32,
                EvalErrorView,
            >(EvalErrorView::UnknownSymbol(name)) && eval::as_u32(syms, e) == Err::<
                u32,
                EvalErrorView,
            >(EvalErrorView::UnknownSymbol(name))
            &&& name == "NULL"@ ==> eval::as_i32(syms, e) == Ok::<i32, EvalErrorView>(0)
                && eval::as_u32(syms, e) == Ok::<u32, EvalErrorView>(0)
            &&& syms.dom().contains(name) ==> eval::as_single(syms, e) == Ok::<
                Single,
                EvalErrorView,
            >(x) && numbers::rounds(
                x,
                syms[name] < 0,
                if syms[name] < 0 {
                    (-syms[name]) as nat
                } else {
                    syms[name] as nat
                },
                1,
            )
            &&& !syms.dom().contains(name) ==> eval::as_single(syms, e) == Err::<
                Single,
                EvalErrorView,
            >(EvalErrorView::UnknownSymbol(name))
            &&& eval::as_string(e) == Ok::<Seq<char>, EvalErrorView>(name)
        }),
{
    numbers::integers_become_the_nearest_number(syms[name] as int);
    crate::single::of_integer(syms[name] as int)
}

/// The words of truth values, and what a string, a truth value and a constructor read as.
pub proof fn words_read_as_what_they_say(syms: Symbols, s: Seq<char>, b: bool, c: ast::CallView)
    ensures
        eval::as_bool(ExprView::Bool(b)) == Ok::<bool, EvalErrorView>(b),
        eval::as_bool(ExprView::Symbol("true"@)) == Ok::<bool, EvalErrorView>(true),
        eval::as_bool(ExprView::Symbol("TRUE"@)) == Ok::<bool, EvalErrorView>(true),
        eval::as_bool(ExprView::Symbol("false"@)) == Ok::<bool, EvalErrorView>(false),
        eval::as_bool(ExprView::Symbol("FALSE"@)) == Ok::<bool, EvalErrorView>(false),
        eval::as_bool(ExprView::Number(s)) is Err,
        eval::as_i32(syms, ExprView::Bool(true)) == Ok::<i32, EvalErrorView>(1),
        eval::as_i32(syms, ExprView::Bool(false)) == Ok::<i32, EvalErrorView>(0),
        eval::as_u32(syms, ExprView::Bool(true)) == Ok::<u32, EvalErrorView>(1),
        eval::as_u32(syms, ExprView::Bool(false)) == Ok::<u32, EvalErrorView>(0),
        eval::as_single(syms, ExprView::Bool(b)) is Err,
        eval::as_string(ExprView::String(s)) == Ok::<Seq<char>, EvalErrorView>(s),
        eval::as_string(ExprView::Number(s)) is Err,
        eval::as_i32(syms, ExprView::String(s)) is Err,
        eval::as_u32(syms, ExprView::String(s)) is Err,
        eval::as_single(syms, ExprView::String(s)) is Err,
        eval::as_i32(syms, ExprView::Constructor(c)) is Err,
        eval::as_call(ExprView::Constructor(c), s) == (if c.name == s {
            Ok::<ast::CallView, EvalErrorView>(c)
        } else {
            Err(EvalErrorView::WrongConstructor { expected: s, found: c.name })
        }),
        eval::as_call(ExprView::Number(s), s) is Err,
{
    reveal_strlit("true");
    reveal_strlit("TRUE");
    reveal_strlit("false");
    reveal_strlit("FALSE");
    assert("true"@.len() == 4 && "TRUE"@.len() == 4 && "false"@.len() == 5 && "FALSE"@.len() == 5);
}

/// An argument that is not there, or that cannot be read as what is asked for, has the
/// default; any other is what it reads as.
pub proof fn arguments_have_their_defaults(
    syms: Symbols,
    args: Seq<Spanned<ExprView>>,
    i: int,
    n: i32,
    u: u32,
    x: Single,
    b: bool,
)
    ensures
        !(0 <= i < args.len()) ==> eval::arg_i32(syms, args, i, n) == n && eval::arg_u32(
            syms,
            args,
            i,
            u,
        ) == u && eval::arg_single(syms, args, i, x) == x && eval::arg_bool(args, i, b) == b
            && eval::arg_string(args, i) is None,
        0 <= i < args.len() ==> {
            let e = args[i].value;
            &&& (eval::as_i32(syms, e) matches Ok(v) ==> eval::arg_i32(syms, args, i, n) == v)
            &&& (eval::as_i32(syms, e) is Err ==> eval::arg_i32(syms, args, i, n) == n)
            &&& (eval::as_u32(syms, e) matches Ok(v) ==> eval::arg_u32(syms, args, i, u) == v)
            &&& (eval::as_u32(syms, e) is Err ==> eval::arg_u32(syms, args, i, u) == u)
            &&& (eval::as_single(syms, e) matches Ok(v) ==> eval::arg_single(syms, args, i, x) == v)
            &&& (eval::as_single(syms, e) is Err ==> eval::arg_single(syms, args, i, x) == x)
            &&& (eval::as_bool(e) matches Ok(v) ==> eval::arg_bool(args, i, b) == v)
            &&& (eval::as_bool(e) is Err ==> eval::arg_bool(args, i, b) == b)
            &&& (eval::as_string(e) matches Ok(v) ==> eval::arg_string(args, i) == Some(v))
            &&& (eval::as_string(e) is Err ==> eval::arg_string(args, i) is None)
        },
{
}

/// An index is a number that is not negative, and a symbol read as a string is its own name.
pub proof fn indices_are_not_negative(syms: Symbols, e: ExprView, s: Seq<char>)
    ensures
        eval::as_usize(syms, e) matches Ok(k) ==> (eval::as_i32(syms, e) matches Ok(n) && n == k
            && n >= 0),
        eval::as_i32(syms, e) matches Ok(n) ==> (eval::as_usize(syms, e) is Ok <==> n >= 0),
        eval::as_i32(syms, e) is Err ==> eval::as_usize(syms, e) is Err,
        eval::as_string(ExprView::Symbol(s)) == Ok::<Seq<char>, EvalErrorView>(s),
{
}

} // verus!
