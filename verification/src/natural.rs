//! Natural numbers of any size, held as little-endian limbs of 32 bits.

use vstd::prelude::*;

verus! {

/// The radix of one limb.
pub open spec fn radix() -> nat {
    0x1_0000_0000
}

/// The weight of the limb at position `i`: the radix to the power `i`.
pub open spec fn weight(i: nat) -> nat
    decreases i,
{
    if i == 0 {
        1
    } else {
        radix() * weight((i - 1) as nat)
    }
}

/// The number that a little-endian sequence of limbs stands for.
pub open spec fn limbs_value(s: Seq<u32>) -> nat
    decreases s.len(),
{
    if s.len() == 0 {
        0
    } else {
        limbs_value(s.drop_last()) + s.last() as nat * weight((s.len() - 1) as nat)
    }
}

/// The value of the first `i` limbs of `s`, limbs past its end counting as zero.
pub open spec fn prefix_value(s: Seq<u32>, i: nat) -> nat {
    if i <= s.len() {
        limbs_value(s.take(i as int))
    } else {
        limbs_value(s)
    }
}

/// The limb of `s` at position `i`, zero past its end.
pub open spec fn limb_or_zero(s: Seq<u32>, i: int) -> u32 {
    if 0 <= i < s.len() {
        s[i]
    } else {
        0
    }
}

pub proof fn lemma_weight_positive(i: nat)
    ensures
        weight(i) > 0,
    decreases i,
{
    if i > 0 {
        lemma_weight_positive((i - 1) as nat);
        assert(radix() * weight((i - 1) as nat) > 0) by (nonlinear_arith)
            requires
                radix() > 0,
                weight((i - 1) as nat) > 0,
        ;
    }
}

pub proof fn lemma_weight_sum(i: nat, j: nat)
    ensures
        weight(i + j) == weight(i) * weight(j),
    decreases j,
{
    if j == 0 {
        assert(weight(i) * 1 == weight(i)) by (nonlinear_arith);
    } else {
        lemma_weight_sum(i, (j - 1) as nat);
        let w: nat = weight((j - 1) as nat);
        assert(i + j - 1 == i + (j - 1) as nat);
        assert(weight(i + j) == radix() * weight((i + j - 1) as nat));
        assert(radix() * (weight(i) * w) == weight(i) * (radix() * w)) by (nonlinear_arith);
    }
}

pub proof fn lemma_limbs_push(s: Seq<u32>, d: u32)
    ensures
        limbs_value(s.push(d)) == limbs_value(s) + d as nat * weight(s.len()),
{
    assert(s.push(d).drop_last() =~= s);
}

pub proof fn lemma_limbs_bound(s: Seq<u32>)
    ensures
        limbs_value(s) < weight(s.len()),
    decreases s.len(),
{
    if s.len() > 0 {
        lemma_limbs_bound(s.drop_last());
        let w: nat = weight((s.len() - 1) as nat);
        let d: nat = s.last() as nat;
        assert(d * w + w <= radix() * w) by (nonlinear_arith)
            requires
                d + 1 <= radix(),
        ;
    }
}

pub proof fn lemma_prefix_step(s: Seq<u32>, i: nat)
    ensures
        prefix_value(s, i + 1) == prefix_value(s, i) + limb_or_zero(s, i as int) as nat * weight(i),
{
    if i < s.len() {
        assert(s.take((i + 1) as int).drop_last() =~= s.take(i as int));
    } else if i == s.len() {
        assert(s.take(i as int) =~= s);
    }
}

pub proof fn lemma_prefix_bound(s: Seq<u32>, i: nat)
    ensures
        prefix_value(s, i) < weight(i),
    decreases i,
{
    if i <= s.len() {
        lemma_limbs_bound(s.take(i as int));
    } else {
        lemma_prefix_bound(s, (i - 1) as nat);
        lemma_prefix_whole(s, (i - 1) as nat);
        lemma_weight_positive((i - 1) as nat);
        assert(weight((i - 1) as nat) <= radix() * weight((i - 1) as nat)) by (nonlinear_arith)
            requires
                weight((i - 1) as nat) > 0,
        ;
    }
}

pub proof fn lemma_prefix_whole(s: Seq<u32>, i: nat)
    requires
        i >= s.len(),
    ensures
        prefix_value(s, i) == limbs_value(s),
{
    if i == s.len() {
        assert(s.take(i as int) =~= s);
    }
}

/// A natural number of any size.
#[derive(Debug)]
pub struct Natural {
    limbs: Vec<u32>,
}

impl View for Natural {
    type V = nat;

    closed spec fn view(&self) -> nat {
        limbs_value(self.limbs@)
    }
}

fn limb_at(v: &Vec<u32>, i: usize) -> (d: u32)
    ensures
        d == limb_or_zero(v@, i as int),
{
    if i < v.len() {
        v[i]
    } else {
        0
    }
}

impl Natural {
    /// The number zero.
    pub fn zero() -> (r: Natural)
        ensures
            r@ == 0,
    {
        Natural { limbs: Vec::new() }
    }

    /// The number `x`.
    pub fn from_u64(x: u64) -> (r: Natural)
        ensures
            r@ == x,
    {
        let mut limbs: Vec<u32> = Vec::new();
        let low: u32 = (x % 0x1_0000_0000) as u32;
        let high: u32 = (x / 0x1_0000_0000) as u32;
        limbs.push(low);
        proof {
            lemma_limbs_push(Seq::<u32>::empty(), low);
            assert(Seq::<u32>::empty().push(low) =~= limbs@);
            assert(weight(0) == 1);
            assert(limbs_value(Seq::<u32>::empty()) == 0);
            assert(low as nat * 1 == low) by (nonlinear_arith);
            assert(limbs_value(limbs@) == low);
        }
        let ghost one: Seq<u32> = limbs@;
        limbs.push(high);
        proof {
            lemma_limbs_push(one, high);
            assert(weight(1) == radix() * weight(0));
            assert(weight(1) == 0x1_0000_0000);
        }
        Natural { limbs }
    }

    /// A second copy of the number.
    pub fn duplicate(&self) -> (r: Natural)
        ensures
            r@ == self@,
    {
        Natural { limbs: self.limbs.clone() }
    }

    /// The limbs of the number, least significant first; `limbs_value` of them is the number.
    pub fn to_limbs(&self) -> (r: Vec<u32>)
        ensures
            limbs_value(r@) == self@,
    {
        self.limbs.clone()
    }

    /// The number that the limbs stand for, least significant first.
    pub fn from_limbs(limbs: Vec<u32>) -> (r: Natural)
        ensures
            r@ == limbs_value(limbs@),
    {
        Natural { limbs }
    }

    /// The sum of two numbers.
    pub fn add(&self, other: &Natural) -> (r: Natural)
        ensures
            r@ == self@ + other@,
    {
        let n: usize = if self.limbs.len() >= other.limbs.len() {
            self.limbs.len()
        } else {
            other.limbs.len()
        };
        let mut out: Vec<u32> = Vec::new();
        let mut carry: u64 = 0;
        let mut i: usize = 0;
        while i < n
            invariant
                i <= n,
                out.len() == i,
                carry <= 1,
                limbs_value(out@) + carry * weight(i as nat) == prefix_value(self.limbs@, i as nat)
                    + prefix_value(other.limbs@, i as nat),
            decreases n - i,
        {
            let a: u32 = limb_at(&self.limbs, i);
            let b: u32 = limb_at(&other.limbs, i);
            let t: u64 = a as u64 + b as u64 + carry;
            let d: u32 = (t % 0x1_0000_0000) as u32;
            let next: u64 = t / 0x1_0000_0000;
            proof {
                let w: nat = weight(i as nat);
                lemma_limbs_push(out@, d);
                lemma_prefix_step(self.limbs@, i as nat);
                lemma_prefix_step(other.limbs@, i as nat);
                assert(weight((i + 1) as nat) == radix() * w);
                assert(d * w + next * (radix() * w) == a * w + b * w + carry * w)
                    by (nonlinear_arith)
                    requires
                        d + next * radix() == a + b + carry,
                ;
            }
            out.push(d);
            carry = next;
            i += 1;
        }
        proof {
            lemma_prefix_whole(self.limbs@, n as nat);
            lemma_prefix_whole(other.limbs@, n as nat);
        }
        if carry > 0 {
            proof {
                lemma_limbs_push(out@, 1u32);
            }
            out.push(1);
        }
        Natural { limbs: out }
    }

    /// The difference of two numbers, the second no larger than the first.
    pub fn sub(&self, other: &Natural) -> (r: Natural)
        requires
            other@ <= self@,
        ensures
            r@ == self@ - other@,
    {
        let n: usize = if self.limbs.len() >= other.limbs.len() {
            self.limbs.len()
        } else {
            other.limbs.len()
        };
        let mut out: Vec<u32> = Vec::new();
        let mut borrow: u64 = 0;
        let mut i: usize = 0;
        while i < n
            invariant
                i <= n,
                out.len() == i,
                borrow <= 1,
                limbs_value(out@) + prefix_value(other.limbs@, i as nat) == prefix_value(
                    self.limbs@,
                    i as nat,
                ) + borrow * weight(i as nat),
            decreases n - i,
        {
            let a: u32 = limb_at(&self.limbs, i);
            let b: u32 = limb_at(&other.limbs, i);
            let take: u64 = b as u64 + borrow;
            let t: u64 = if a as u64 >= take {
                a as u64 - take
            } else {
                a as u64 + 0x1_0000_0000 - take
            };
            let next: u64 = if a as u64 >= take {
                0
            } else {
                1
            };
            let d: u32 = t as u32;
            proof {
                let w: nat = weight(i as nat);
                lemma_limbs_push(out@, d);
                lemma_prefix_step(self.limbs@, i as nat);
                lemma_prefix_step(other.limbs@, i as nat);
                assert(weight((i + 1) as nat) == radix() * w);
                assert(d * w + b * w + borrow * w == a * w + next * (radix() * w))
                    by (nonlinear_arith)
                    requires
                        d + b + borrow == a + next * radix(),
                ;
            }
            out.push(d);
            borrow = next;
            i += 1;
        }
        proof {
            lemma_prefix_whole(self.limbs@, n as nat);
            lemma_prefix_whole(other.limbs@, n as nat);
            lemma_limbs_bound(out@);
            if borrow == 1 {
                assert(1 * weight(n as nat) == weight(n as nat)) by (nonlinear_arith);
            } else {
                assert(0 * weight(n as nat) == 0) by (nonlinear_arith);
            }
        }
        Natural { limbs: out }
    }

    /// How the number stands to another: -1 where it is smaller, 0 where they are equal,
    /// 1 where it is larger.
    pub fn order(&self, other: &Natural) -> (r: i8)
        ensures
            r == -1 <==> self@ < other@,
            r == 0 <==> self@ == other@,
            r == 1 <==> self@ > other@,
    {
        let n: usize = if self.limbs.len() >= other.limbs.len() {
            self.limbs.len()
        } else {
            other.limbs.len()
        };
        let mut state: i8 = 0;
        let mut i: usize = 0;
        while i < n
            invariant
                i <= n,
                state == -1 || state == 0 || state == 1,
                state == -1 <==> prefix_value(self.limbs@, i as nat) < prefix_value(
                    other.limbs@,
                    i as nat,
                ),
                state == 1 <==> prefix_value(self.limbs@, i as nat) > prefix_value(
                    other.limbs@,
                    i as nat,
                ),
            decreases n - i,
        {
            let a: u32 = limb_at(&self.limbs, i);
            let b: u32 = limb_at(&other.limbs, i);
            proof {
                let w: nat = weight(i as nat);
                lemma_prefix_step(self.limbs@, i as nat);
                lemma_prefix_step(other.limbs@, i as nat);
                lemma_prefix_bound(self.limbs@, i as nat);
                lemma_prefix_bound(other.limbs@, i as nat);
                if a < b {
                    assert(a * w + w <= b * w) by (nonlinear_arith)
                        requires
                            a + 1 <= b,
                    ;
                } else if a > b {
                    assert(b * w + w <= a * w) by (nonlinear_arith)
                        requires
                            b + 1 <= a,
                    ;
                }
            }
            if a < b {
                state = -1;
            } else if a > b {
                state = 1;
            }
            i += 1;
        }
        proof {
            lemma_prefix_whole(self.limbs@, n as nat);
            lemma_prefix_whole(other.limbs@, n as nat);
        }
        state
    }

    /// Whether the number is zero.
    pub fn is_zero(&self) -> (r: bool)
        ensures
            r == (self@ == 0),
    {
        let zero = Natural::zero();
        self.order(&zero) == 0
    }

    /// The product of the number and one limb.
    pub fn mul_limb(&self, factor: u32) -> (r: Natural)
        ensures
            r@ == self@ * factor,
    {
        let n: usize = self.limbs.len();
        let mut out: Vec<u32> = Vec::new();
        let mut carry: u64 = 0;
        let mut i: usize = 0;
        proof {
            assert(prefix_value(self.limbs@, 0) == 0);
            assert(0 * factor == 0) by (nonlinear_arith);
            assert(0 * weight(0) == 0) by (nonlinear_arith);
        }
        while i < n
            invariant
                i <= n,
                n == self.limbs.len(),
                out.len() == i,
                carry < 0x1_0000_0000,
                limbs_value(out@) + carry * weight(i as nat) == prefix_value(self.limbs@, i as nat)
                    * factor,
            decreases n - i,
        {
            let a: u32 = self.limbs[i];
            assert(a as u64 * factor as u64 <= 0xffff_ffff * 0xffff_ffff) by (nonlinear_arith)
                requires
                    a <= 0xffff_ffff,
                    factor <= 0xffff_ffff,
            ;
            let t: u64 = a as u64 * factor as u64 + carry;
            let d: u32 = (t % 0x1_0000_0000) as u32;
            let next: u64 = t / 0x1_0000_0000;
            proof {
                let w: nat = weight(i as nat);
                let p: nat = prefix_value(self.limbs@, i as nat);
                lemma_limbs_push(out@, d);
                lemma_prefix_step(self.limbs@, i as nat);
                assert(weight((i + 1) as nat) == radix() * w);
                assert(d * w + next * (radix() * w) + p * factor == (p + a * w) * factor + carry
                    * w) by (nonlinear_arith)
                    requires
                        d + next * radix() == a * factor + carry,
                ;
            }
            out.push(d);
            carry = next;
            i += 1;
        }
        proof {
            lemma_prefix_whole(self.limbs@, n as nat);
            lemma_limbs_push(out@, carry as u32);
        }
        out.push(carry as u32);
        Natural { limbs: out }
    }

    /// The product of the number and the weight of limb `places`.
    pub fn shift_limbs(&self, places: usize) -> (r: Natural)
        ensures
            r@ == self@ * weight(places as nat),
    {
        let mut out: Vec<u32> = Vec::new();
        let mut i: usize = 0;
        while i < places
            invariant
                i <= places,
                out.len() == i,
                limbs_value(out@) == 0,
            decreases places - i,
        {
            proof {
                lemma_limbs_push(out@, 0u32);
                assert(0 * weight(i as nat) == 0) by (nonlinear_arith);
            }
            out.push(0);
            i += 1;
        }
        let n: usize = self.limbs.len();
        let mut j: usize = 0;
        while j < n
            invariant
                j <= n,
                n == self.limbs.len(),
                out.len() == places + j,
                limbs_value(out@) == prefix_value(self.limbs@, j as nat) * weight(places as nat),
            decreases n - j,
        {
            let a: u32 = self.limbs[j];
            proof {
                let w: nat = weight(j as nat);
                let s: nat = weight(places as nat);
                let p: nat = prefix_value(self.limbs@, j as nat);
                lemma_limbs_push(out@, a);
                lemma_prefix_step(self.limbs@, j as nat);
                lemma_weight_sum(places as nat, j as nat);
                assert(p * s + a * (s * w) == (p + a * w) * s) by (nonlinear_arith);
            }
            out.push(a);
            j += 1;
        }
        proof {
            lemma_prefix_whole(self.limbs@, n as nat);
        }
        Natural { limbs: out }
    }

    /// The product of two numbers.
    pub fn mul(&self, other: &Natural) -> (r: Natural)
        ensures
            r@ == self@ * other@,
    {
        let n: usize = other.limbs.len();
        let mut acc = Natural::zero();
        let mut j: usize = 0;
        while j < n
            invariant
                j <= n,
                n == other.limbs.len(),
                acc@ == self@ * prefix_value(other.limbs@, j as nat),
            decreases n - j,
        {
            let b: u32 = other.limbs[j];
            let part = self.mul_limb(b).shift_limbs(j);
            proof {
                let w: nat = weight(j as nat);
                let p: nat = prefix_value(other.limbs@, j as nat);
                lemma_prefix_step(other.limbs@, j as nat);
                assert(self@ * p + (self@ * b) * w == self@ * (p + b * w)) by (nonlinear_arith);
            }
            acc = acc.add(&part);
            j += 1;
        }
        proof {
            lemma_prefix_whole(other.limbs@, n as nat);
        }
        acc
    }
}

} // verus!
