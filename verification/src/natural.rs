//! Natural numbers of any size, for exact decimal conversion.

use vstd::prelude::*;

verus! {

/// The weight of limb `i`: 2³² to the `i`.
pub open spec fn weight(i: nat) -> nat
    decreases i,
{
    if i == 0 {
        1
    } else {
        0x1_0000_0000 * weight((i - 1) as nat)
    }
}

/// The number that the limbs `s` write in base 2³², least significant first.
pub open spec fn value(s: Seq<u32>) -> nat
    decreases s.len(),
{
    if s.len() == 0 {
        0
    } else {
        value(s.drop_last()) + s.last() as nat * weight((s.len() - 1) as nat)
    }
}

proof fn lemma_value_push(s: Seq<u32>, x: u32)
    ensures
        value(s.push(x)) == value(s) + x as nat * weight(s.len()),
{
    assert(s.push(x).drop_last() == s);
}

proof fn lemma_value_take(s: Seq<u32>, i: int)
    requires
        0 <= i < s.len(),
    ensures
        value(s.take(i + 1)) == value(s.take(i)) + s[i] as nat * weight(i as nat),
{
    assert(s.take(i + 1) == s.take(i).push(s[i]));
    lemma_value_push(s.take(i), s[i]);
}

/// `n` limbs write less than the weight of limb `n`.
proof fn lemma_value_bound(s: Seq<u32>)
    ensures
        value(s) < weight(s.len()),
        weight(s.len()) > 0,
    decreases s.len(),
{
    if s.len() > 0 {
        lemma_value_bound(s.drop_last());
        let w = weight((s.len() - 1) as nat);
        let x = s.last() as nat;
        assert(x * w + w <= 0x1_0000_0000 * w) by (nonlinear_arith)
            requires
                x + 1 <= 0x1_0000_0000,
        ;
        assert(w > 0 ==> 0x1_0000_0000 * w > 0);
    }
}

/// A natural number.
pub struct Natural {
    limbs: Vec<u32>,
}

impl View for Natural {
    type V = nat;

    closed spec fn view(&self) -> nat {
        value(self.limbs@)
    }
}

/// Whether a number is less than another.
fn less(a: &Vec<u32>, b: &Vec<u32>) -> (r: bool)
    requires
        a@.len() == b@.len(),
    ensures
        r == (value(a@) < value(b@)),
{
    let mut i: usize = a.len();
    assert(a@.take(i as int) == a@);
    assert(b@.take(i as int) == b@);
    while i > 0
        invariant
            i <= a@.len(),
            a@.len() == b@.len(),
            value(a@) - value(a@.take(i as int)) == value(b@) - value(b@.take(i as int)),
        decreases i,
    {
        let x = a[i - 1];
        let y = b[i - 1];
        proof {
            lemma_value_take(a@, i as int - 1);
            lemma_value_take(b@, i as int - 1);
            lemma_value_bound(a@.take(i as int - 1));
            lemma_value_bound(b@.take(i as int - 1));
            let w = weight((i - 1) as nat);
            if x < y {
                assert(x as nat * w + w <= y as nat * w) by (nonlinear_arith)
                    requires
                        x + 1 <= y,
                ;
            }
            if y < x {
                assert(y as nat * w + w <= x as nat * w) by (nonlinear_arith)
                    requires
                        y + 1 <= x,
                ;
            }
        }
        if x < y {
            return true;
        }
        if y < x {
            return false;
        }
        i = i - 1;
    }
    assert(a@.take(0) == b@.take(0));
    false
}

impl Natural {
    /// The number `n`.
    pub fn new(n: u32) -> (r: Self)
        ensures
            r@ == n,
    {
        let mut limbs: Vec<u32> = Vec::new();
        limbs.push(n);
        proof {
            reveal_with_fuel(value, 2);
            reveal_with_fuel(weight, 2);
            assert(limbs@.drop_last() == Seq::<u32>::empty());
        }
        Natural { limbs }
    }

    /// Multiply by `m` and add `a`.
    pub fn multiply_add(&mut self, m: u32, a: u32)
        ensures
            final(self)@ == old(self)@ * m + a,
    {
        let n: usize = self.limbs.len();
        let mut out: Vec<u32> = Vec::new();
        let mut carry: u32 = a;
        let mut i: usize = 0;
        proof {
            assert(self.limbs@.take(0) == Seq::<u32>::empty());
            assert(value(out@) == 0);
            assert(a as nat * weight(0nat) == a as nat) by (nonlinear_arith)
                requires
                    weight(0nat) == 1,
            ;
            assert(value(self.limbs@.take(0)) * m == 0) by (nonlinear_arith)
                requires
                    value(self.limbs@.take(0)) == 0,
            ;
        }
        while i < n
            invariant
                i <= n,
                n == self.limbs@.len(),
                self.limbs@ == old(self).limbs@,
                out@.len() == i,
                value(out@) + carry as nat * weight(i as nat) == value(self.limbs@.take(i as int))
                    * m + a,
            decreases n - i,
        {
            let x = self.limbs[i];
            assert(x as u64 * m as u64 + carry as u64 <= u64::MAX) by (nonlinear_arith)
                requires
                    x <= 0xffff_ffff,
                    m <= 0xffff_ffff,
                    carry <= 0xffff_ffff,
            ;
            assert(0 <= x as u64 * m as u64) by (nonlinear_arith);
            let t: u64 = x as u64 * m as u64 + carry as u64;
            let low: u32 = (t % 0x1_0000_0000) as u32;
            let high: u32 = (t / 0x1_0000_0000) as u32;
            proof {
                lemma_value_push(out@, low);
                lemma_value_take(self.limbs@, i as int);
                let w = weight(i as nat) as int;
                let v = value(self.limbs@.take(i as int)) as int;
                let o = value(out@) as int;
                assert(o + low as int * w + high as int * (0x1_0000_0000 * w) == (v + x as int * w)
                    * m as int + a as int) by (nonlinear_arith)
                    requires
                        o + carry as int * w == v * m as int + a as int,
                        low as int + high as int * 0x1_0000_0000 == x as int * m as int
                            + carry as int,
                ;
            }
            out.push(low);
            carry = high;
            i = i + 1;
        }
        proof {
            lemma_value_push(out@, carry);
            assert(self.limbs@.take(n as int) == self.limbs@);
        }
        if carry > 0 {
            out.push(carry);
        } else {
            assert(0 * weight(n as nat) == 0);
        }
        self.limbs = out;
    }

    /// Double.
    pub fn double(&mut self)
        ensures
            final(self)@ == 2 * old(self)@,
    {
        self.multiply_add(2, 0);
    }

    /// The limbs, with zeros added up to `n` of them.
    fn padded(&self, n: usize) -> (r: Vec<u32>)
        requires
            self.limbs@.len() <= n,
        ensures
            r@.len() == n,
            value(r@) == self@,
    {
        let mut out: Vec<u32> = Vec::new();
        let mut i: usize = 0;
        while i < self.limbs.len()
            invariant
                i <= self.limbs@.len(),
                out@ == self.limbs@.take(i as int),
            decreases self.limbs@.len() - i,
        {
            out.push(self.limbs[i]);
            assert(self.limbs@.take(i as int + 1) == self.limbs@.take(i as int).push(
                self.limbs@[i as int],
            ));
            i = i + 1;
        }
        assert(out@ == self.limbs@);
        while i < n
            invariant
                out@.len() == i <= n,
                value(out@) == self@,
            decreases n - i,
        {
            proof {
                lemma_value_push(out@, 0);
                assert(0 * weight(out@.len()) == 0);
            }
            out.push(0);
            i = i + 1;
        }
        out
    }

    /// Whether this number is less than `other`.
    pub fn less_than(&self, other: &Natural) -> (r: bool)
        ensures
            r == (self@ < other@),
    {
        let m: usize = self.limbs.len();
        let k: usize = other.limbs.len();
        let n: usize = if m < k {
            k
        } else {
            m
        };
        less(&self.padded(n), &other.padded(n))
    }

    /// Whether this number is 0.
    pub fn is_zero(&self) -> (r: bool)
        ensures
            r == (self@ == 0),
    {
        !Natural::new(0).less_than(self)
    }

    /// This number and `other` together.
    pub fn plus(&self, other: &Natural) -> (r: Natural)
        ensures
            r@ == self@ + other@,
    {
        let m: usize = self.limbs.len();
        let k: usize = other.limbs.len();
        let n: usize = if m < k {
            k
        } else {
            m
        };
        let a = self.padded(n);
        let b = other.padded(n);
        let mut out: Vec<u32> = Vec::new();
        let mut carry: u32 = 0;
        let mut i: usize = 0;
        proof {
            assert(a@.take(0) == Seq::<u32>::empty());
            assert(b@.take(0) == Seq::<u32>::empty());
        }
        while i < n
            invariant
                i <= n,
                a@.len() == n,
                b@.len() == n,
                out@.len() == i,
                carry <= 1,
                value(out@) + carry as nat * weight(i as nat) == value(a@.take(i as int)) + value(
                    b@.take(i as int),
                ),
            decreases n - i,
        {
            let x = a[i];
            let y = b[i];
            let t: u64 = x as u64 + y as u64 + carry as u64;
            let low: u32 = (t % 0x1_0000_0000) as u32;
            let high: u32 = (t / 0x1_0000_0000) as u32;
            proof {
                lemma_value_push(out@, low);
                lemma_value_take(a@, i as int);
                lemma_value_take(b@, i as int);
                let w = weight(i as nat) as int;
                let va = value(a@.take(i as int)) as int;
                let vb = value(b@.take(i as int)) as int;
                let o = value(out@) as int;
                assert(o + low as int * w + high as int * (0x1_0000_0000 * w) == va + x as int * w
                    + vb + y as int * w) by (nonlinear_arith)
                    requires
                        o + carry as int * w == va + vb,
                        low as int + high as int * 0x1_0000_0000 == x as int + y as int
                            + carry as int,
                ;
            }
            out.push(low);
            carry = high;
            i = i + 1;
        }
        proof {
            lemma_value_push(out@, carry);
            assert(a@.take(n as int) == a@);
            assert(b@.take(n as int) == b@);
        }
        out.push(carry);
        Natural { limbs: out }
    }

    /// What is left of this number without `other`.
    pub fn minus(&self, other: &Natural) -> (r: Natural)
        requires
            other@ <= self@,
        ensures
            r@ == self@ - other@,
    {
        let m: usize = self.limbs.len();
        let k: usize = other.limbs.len();
        let n: usize = if m < k {
            k
        } else {
            m
        };
        let a = self.padded(n);
        let b = other.padded(n);
        let mut out: Vec<u32> = Vec::new();
        let mut borrow: u32 = 0;
        let mut i: usize = 0;
        proof {
            assert(a@.take(0) == Seq::<u32>::empty());
            assert(b@.take(0) == Seq::<u32>::empty());
        }
        while i < n
            invariant
                i <= n,
                a@.len() == n,
                b@.len() == n,
                out@.len() == i,
                borrow <= 1,
                value(out@) + value(b@.take(i as int)) == value(a@.take(i as int)) + borrow as nat
                    * weight(i as nat),
            decreases n - i,
        {
            let x = a[i];
            let y = b[i];
            let t: u64 = 0x1_0000_0000 + x as u64 - y as u64 - borrow as u64;
            let low: u32 = (t % 0x1_0000_0000) as u32;
            let next: u32 = if t < 0x1_0000_0000 {
                1
            } else {
                0
            };
            proof {
                lemma_value_push(out@, low);
                lemma_value_take(a@, i as int);
                lemma_value_take(b@, i as int);
                let w = weight(i as nat) as int;
                let va = value(a@.take(i as int)) as int;
                let vb = value(b@.take(i as int)) as int;
                let o = value(out@) as int;
                assert(o + low as int * w + vb + y as int * w == va + x as int * w + next as int * (
                0x1_0000_0000 * w)) by (nonlinear_arith)
                    requires
                        o + vb == va + borrow as int * w,
                        low as int + y as int + borrow as int == x as int + next as int
                            * 0x1_0000_0000,
                ;
            }
            out.push(low);
            borrow = next;
            i = i + 1;
        }
        proof {
            assert(a@.take(n as int) == a@);
            assert(b@.take(n as int) == b@);
            lemma_value_bound(out@);
            let w = weight(n as nat) as int;
            assert(borrow == 1 ==> borrow as int * w == w) by (nonlinear_arith);
            assert(borrow == 0 ==> borrow as int * w == 0) by (nonlinear_arith);
        }
        Natural { limbs: out }
    }

    /// A copy.
    pub fn copy(&self) -> (r: Natural)
        ensures
            r@ == self@,
    {
        Natural { limbs: self.padded(self.limbs.len()) }
    }
}

} // verus!
