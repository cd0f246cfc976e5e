//! Natural numbers of any size.

use vstd::arithmetic::mul::*;
use vstd::arithmetic::power::*;
use vstd::arithmetic::power2::*;
use vstd::prelude::*;

verus! {

/// What one limb counts up to.
const LIMB: u64 = 0x1_0000_0000;

/// A natural number, as limbs of thirty-two bits with the lowest first.
pub struct Natural {
    limbs: Vec<u32>,
}

/// The limb at `i`, counting those beyond the end as zero.
spec fn limb(limbs: Seq<u32>, i: int) -> nat {
    if 0 <= i < limbs.len() {
        limbs[i] as nat
    } else {
        0
    }
}

/// The number that the lowest `n` limbs make up.
spec fn lowest(limbs: Seq<u32>, n: nat) -> nat
    decreases n,
{
    if n == 0 {
        0
    } else {
        lowest(limbs, (n - 1) as nat) + limb(limbs, n - 1) * pow2((32 * (n - 1)) as nat)
    }
}

proof fn lemma_lowest_beyond(limbs: Seq<u32>, n: nat)
    requires
        n >= limbs.len(),
    ensures
        lowest(limbs, n) == lowest(limbs, limbs.len()),
    decreases n,
{
    if n > limbs.len() {
        lemma_lowest_beyond(limbs, (n - 1) as nat);
        lemma_mul_basics(pow2((32 * (n - 1)) as nat) as int);
    }
}

proof fn lemma_lowest_same(one: Seq<u32>, two: Seq<u32>, n: nat)
    requires
        forall|i: int| 0 <= i < n ==> limb(one, i) == limb(two, i),
    ensures
        lowest(one, n) == lowest(two, n),
    decreases n,
{
    if n > 0 {
        lemma_lowest_same(one, two, (n - 1) as nat);
    }
}

proof fn lemma_lowest_bounded(limbs: Seq<u32>, n: nat)
    ensures
        lowest(limbs, n) < pow2(32 * n),
    decreases n,
{
    lemma2_to64();
    if n > 0 {
        let k = (n - 1) as nat;
        lemma_lowest_bounded(limbs, k);
        lemma_pow2_adds(32, 32 * k);
        let unit = pow2(32 * k);
        assert(lowest(limbs, n) < LIMB * unit) by (nonlinear_arith)
            requires
                lowest(limbs, n) == lowest(limbs, k) + limb(limbs, k as int) * unit,
                lowest(limbs, k) < unit,
                limb(limbs, k as int) <= LIMB - 1,
        ;
    }
}

proof fn lemma_lowest_pushed(limbs: Seq<u32>, top: u32)
    ensures
        lowest(limbs.push(top), limbs.len() + 1) == lowest(limbs, limbs.len()) + top * pow2(
            32 * limbs.len(),
        ),
{
    lemma_lowest_same(limbs, limbs.push(top), limbs.len());
}

impl View for Natural {
    type V = nat;

    closed spec fn view(&self) -> nat {
        lowest(self.limbs@, self.limbs@.len())
    }
}

impl Natural {
    /// Zero.
    pub fn zero() -> (r: Natural)
        ensures
            r@ == 0,
    {
        Natural { limbs: Vec::new() }
    }

    /// A copy.
    pub fn copy(&self) -> (r: Natural)
        ensures
            r@ == self@,
    {
        let mut limbs: Vec<u32> = Vec::new();
        let n: usize = self.limbs.len();
        let mut i: usize = 0;
        while i < n
            invariant
                i <= n == self.limbs@.len(),
                limbs@ == self.limbs@.take(i as int),
            decreases n - i,
        {
            limbs.push(self.limbs[i]);
            i = i + 1;
        }
        assert(limbs@ == self.limbs@);
        Natural { limbs }
    }

    /// Replaces the number by `self * factor + addend`.
    pub fn multiply_add(&mut self, factor: u64, addend: u64)
        ensures
            final(self)@ == old(self)@ * factor + addend,
    {
        let ghost before = self.limbs@;
        let mut limbs: Vec<u32> = Vec::new();
        let mut carry: u128 = addend as u128;
        let n: usize = self.limbs.len();
        let mut i: usize = 0;
        proof {
            lemma2_to64();
            lemma_mul_basics(factor as int);
            lemma_mul_basics(carry as int);
        }
        while i < n
            invariant
                i <= n == before.len(),
                self.limbs@ == before,
                limbs@.len() == i,
                carry <= u64::MAX,
                lowest(limbs@, i as nat) + carry * pow2((32 * i) as nat) == lowest(
                    before,
                    i as nat,
                ) * factor + addend,
            decreases n - i,
        {
            let digit: u32 = self.limbs[i];
            proof {
                lemma_mul_inequality(digit as int, LIMB - 1, factor as int);
                lemma_mul_inequality(factor as int, u64::MAX as int, LIMB - 1);
                lemma_mul_is_commutative(LIMB - 1, factor as int);
            }
            let sum: u128 = digit as u128 * factor as u128 + carry;
            let low: u32 = (sum % 0x1_0000_0000) as u32;
            let next: u128 = sum / 0x1_0000_0000;
            proof {
                let done = limbs@;
                let unit = pow2((32 * i) as nat);
                lemma_lowest_pushed(done, low);
                lemma_pow2_adds(32, (32 * i) as nat);
                lemma2_to64();
                assert(next * pow2((32 * (i + 1)) as nat) + low * unit == digit * factor * unit
                    + carry * unit) by (nonlinear_arith)
                    requires
                        pow2((32 * (i + 1)) as nat) == LIMB * unit,
                        sum == digit * factor + carry,
                        sum == next * LIMB + low,
                ;
                assert((lowest(before, i as nat) + digit * unit) * factor == lowest(
                    before,
                    i as nat,
                ) * factor + digit * factor * unit) by (nonlinear_arith);
                assert(lowest(before, (i + 1) as nat) == lowest(before, i as nat) + digit * unit);
            }
            limbs.push(low);
            carry = next;
            i = i + 1;
        }
        if carry > 0 {
            let low: u32 = (carry % 0x1_0000_0000) as u32;
            let high: u32 = (carry / 0x1_0000_0000) as u32;
            proof {
                let done = limbs@;
                let unit = pow2((32 * n) as nat);
                lemma_lowest_pushed(done, low);
                lemma_lowest_pushed(done.push(low), high);
                lemma_pow2_adds(32, (32 * n) as nat);
                lemma2_to64();
                assert(carry == high * LIMB + low);
                assert(high * pow2((32 * (n + 1)) as nat) + low * unit == carry * unit)
                    by (nonlinear_arith)
                    requires
                        pow2((32 * (n + 1)) as nat) == LIMB * unit,
                        carry == high * LIMB + low,
                ;
                lemma_mul_basics(pow2((32 * (n + 1)) as nat) as int);
            }
            limbs.push(low);
            if high > 0 {
                limbs.push(high);
            }
        } else {
            proof {
                lemma_mul_basics(pow2((32 * n) as nat) as int);
            }
        }
        self.limbs = limbs;
    }

    /// Multiplies the number by two to the power of `n`.
    pub fn times_power_of_two(&mut self, n: u64)
        ensures
            final(self)@ == old(self)@ * pow2(n as nat),
    {
        let ghost start = self@;
        let mut done: u64 = 0;
        proof {
            lemma2_to64();
            lemma_mul_basics(start as int);
        }
        while done < n
            invariant
                done <= n,
                self@ == start * pow2(done as nat),
            decreases n - done,
        {
            proof {
                lemma2_to64();
            }
            if n - done >= 32 {
                proof {
                    lemma_pow2_adds(done as nat, 32);
                    lemma_mul_is_associative(start as int, pow2(done as nat) as int, LIMB as int);
                }
                self.multiply_add(LIMB, 0);
                done = done + 32;
            } else {
                proof {
                    lemma_pow2_adds(done as nat, 1);
                    lemma_mul_is_associative(start as int, pow2(done as nat) as int, 2);
                }
                self.multiply_add(2, 0);
                done = done + 1;
            }
        }
    }

    /// Multiplies the number by ten to the power of `n`.
    pub fn times_power_of_ten(&mut self, n: u128)
        ensures
            final(self)@ == old(self)@ * pow(10, n as nat),
    {
        let ghost start = self@;
        let mut done: u128 = 0;
        proof {
            lemma_pow0(10);
            lemma_mul_basics(start as int);
        }
        while done < n
            invariant
                done <= n,
                self@ == start * pow(10, done as nat),
            decreases n - done,
        {
            proof {
                lemma_pow1(10);
                lemma_pow_adds(10, done as nat, 1);
                lemma_mul_is_associative(start as int, pow(10, done as nat), 10);
            }
            self.multiply_add(10, 0);
            done = done + 1;
        }
    }

    /// `self <= other`.
    pub fn at_most(&self, other: &Natural) -> (r: bool)
        ensures
            r == (self@ <= other@),
    {
        let n1: usize = self.limbs.len();
        let n2: usize = other.limbs.len();
        let mut i: usize = if n1 > n2 {
            n1
        } else {
            n2
        };
        proof {
            lemma_lowest_beyond(self.limbs@, i as nat);
            lemma_lowest_beyond(other.limbs@, i as nat);
        }
        while i > 0
            invariant
                n1 == self.limbs@.len(),
                n2 == other.limbs@.len(),
                self@ - other@ == lowest(self.limbs@, i as nat) - lowest(other.limbs@, i as nat),
            decreases i,
        {
            i = i - 1;
            let one: u32 = if i < n1 {
                self.limbs[i]
            } else {
                0
            };
            let two: u32 = if i < n2 {
                other.limbs[i]
            } else {
                0
            };
            if one != two {
                proof {
                    let unit = pow2((32 * i) as nat);
                    lemma_lowest_bounded(self.limbs@, i as nat);
                    lemma_lowest_bounded(other.limbs@, i as nat);
                    assert(one < two ==> one * unit + unit <= two * unit) by (nonlinear_arith);
                    assert(two < one ==> two * unit + unit <= one * unit) by (nonlinear_arith);
                }
                return one < two;
            }
        }
        true
    }
}

} // verus!
