//! Natural numbers of unbounded size, held as 64-bit limbs.
//!
//! The cracker compares sums of fractions exactly; over a common denominator
//! their numerators outgrow every machine integer.

use vstd::prelude::*;

verus! {

/// The value of one limb position: 2^64.
pub open spec fn radix() -> nat {
    0x1_0000_0000_0000_0000
}

/// `radix()` to the power `n`.
pub open spec fn radix_pow(n: nat) -> nat
    decreases n,
{
    if n == 0 {
        1
    } else {
        radix() * radix_pow((n - 1) as nat)
    }
}

/// The limb at position `i`, zero past the end.
pub open spec fn limb_at(limbs: Seq<u64>, i: int) -> nat {
    if 0 <= i < limbs.len() {
        limbs[i] as nat
    } else {
        0
    }
}

/// The number that the lowest `n` limbs stand for, least significant first.
pub open spec fn low_value(limbs: Seq<u64>, n: nat) -> nat
    decreases n,
{
    if n == 0 {
        0
    } else {
        low_value(limbs, (n - 1) as nat) + limb_at(limbs, n - 1) * radix_pow((n - 1) as nat)
    }
}

/// The number that a whole limb sequence stands for.
pub open spec fn limbs_value(limbs: Seq<u64>) -> nat {
    low_value(limbs, limbs.len())
}

/// Sequences that agree on their lowest `n` limbs have the same low value.
pub proof fn lemma_low_value_agree(a: Seq<u64>, b: Seq<u64>, n: nat)
    requires
        forall|j: int| 0 <= j < n ==> limb_at(a, j) == limb_at(b, j),
    ensures
        low_value(a, n) == low_value(b, n),
    decreases n,
{
    if n > 0 {
        lemma_low_value_agree(a, b, (n - 1) as nat);
    }
}

/// Positions past the end add nothing.
pub proof fn lemma_low_value_beyond(a: Seq<u64>, n: nat)
    requires
        a.len() <= n,
    ensures
        low_value(a, n) == limbs_value(a),
    decreases n,
{
    if n > a.len() {
        lemma_low_value_beyond(a, (n - 1) as nat);
        let x = limb_at(a, n - 1);
        let p = radix_pow((n - 1) as nat);
        assert(x * p == 0) by (nonlinear_arith)
            requires
                x == 0,
        ;
    }
}

/// The lowest `n` limbs stand for a number below `radix_pow(n)`.
pub proof fn lemma_low_value_bound(a: Seq<u64>, n: nat)
    ensures
        low_value(a, n) < radix_pow(n),
    decreases n,
{
    if n > 0 {
        lemma_low_value_bound(a, (n - 1) as nat);
        let p = radix_pow((n - 1) as nat);
        let x = limb_at(a, n - 1);
        assert(x * p <= (radix() - 1) * p) by (nonlinear_arith)
            requires
                x <= radix() - 1,
                p >= 0,
        ;
        assert((radix() - 1) * p + p == radix() * p) by (nonlinear_arith);
    }
}

/// Where two sequences agree above position `k` and differ at `k`, the limb
/// at `k` decides the order of their values.
pub proof fn lemma_low_value_order(a: Seq<u64>, b: Seq<u64>, k: nat, n: nat)
    requires
        k < n,
        limb_at(a, k as int) < limb_at(b, k as int),
        forall|j: int| k < j < n ==> limb_at(a, j) == limb_at(b, j),
    ensures
        low_value(a, n) < low_value(b, n),
    decreases n,
{
    if n == k + 1 {
        lemma_low_value_bound(a, k);
        let p = radix_pow(k);
        let x = limb_at(a, k as int);
        let y = limb_at(b, k as int);
        assert(x * p + p <= y * p) by (nonlinear_arith)
            requires
                x + 1 <= y,
                p >= 0,
        ;
    } else {
        lemma_low_value_order(a, b, k, (n - 1) as nat);
    }
}

/// A zero limb put below the others multiplies the value by the radix.
pub proof fn lemma_low_value_shift(a: Seq<u64>, n: nat)
    ensures
        low_value(seq![0u64] + a, n + 1) == radix() * low_value(a, n),
    decreases n,
{
    let s = seq![0u64] + a;
    if n == 0 {
        assert(low_value(s, 0) == 0);
        assert(limb_at(s, 0) == 0);
        assert(low_value(s, 1) == low_value(s, 0) + limb_at(s, 0) * radix_pow(0));
        assert(low_value(a, 0) == 0);
    } else {
        lemma_low_value_shift(a, (n - 1) as nat);
        if n - 1 < a.len() {
            assert(s[n as int] == a[n - 1]);
        }
        assert(limb_at(s, n as int) == limb_at(a, n - 1));
        let x = limb_at(a, n - 1);
        let p = radix_pow((n - 1) as nat);
        let lo = low_value(a, (n - 1) as nat);
        assert(radix_pow(n) == radix() * p);
        assert(low_value(s, n + 1) == low_value(s, n) + limb_at(s, n as int) * radix_pow(n));
        assert(low_value(a, n) == lo + x * p);
        assert(x * (radix() * p) == radix() * (x * p)) by (nonlinear_arith);
        assert(radix() * (lo + x * p) == radix() * lo + radix() * (x * p)) by (nonlinear_arith);
    }
}

/// A natural number of any size.
#[derive(Debug, Clone)]
pub struct BigNat {
    limbs: Vec<u64>,
}

impl BigNat {
    /// The number that `self` holds.
    pub closed spec fn value(&self) -> nat {
        limbs_value(self.limbs@)
    }

    /// The number `x`.
    pub fn from_u64(x: u64) -> (r: BigNat)
        ensures
            r.value() == x,
    {
        let mut limbs: Vec<u64> = Vec::new();
        limbs.push(x);
        proof {
            assert(low_value(limbs@, 0) == 0);
            assert(radix_pow(0) == 1);
            assert(low_value(limbs@, 1) == low_value(limbs@, 0) + limb_at(limbs@, 0) * radix_pow(0));
        }
        BigNat { limbs }
    }

    /// The product of `self` and `m`.
    pub fn mul_u64(&self, m: u64) -> (r: BigNat)
        ensures
            r.value() == self.value() * m,
    {
        let n = self.limbs.len();
        let mut out: Vec<u64> = Vec::new();
        let mut carry: u64 = 0;
        let mut i: usize = 0;
        assert(carry * radix_pow(0) == 0) by (nonlinear_arith)
            requires
                carry == 0,
        ;
        assert(low_value(self.limbs@, 0) * m == 0) by (nonlinear_arith)
            requires
                low_value(self.limbs@, 0) == 0,
        ;
        while i < n
            invariant
                i <= n,
                n == self.limbs@.len(),
                out@.len() == i,
                low_value(out@, i as nat) + carry * radix_pow(i as nat) == low_value(
                    self.limbs@,
                    i as nat,
                ) * m,
            decreases n - i,
        {
            let limb: u64 = self.limbs[i];
            assert(limb * m <= 0xffff_ffff_ffff_ffff * 0xffff_ffff_ffff_ffff) by (nonlinear_arith)
                requires
                    limb <= 0xffff_ffff_ffff_ffff,
                    m <= 0xffff_ffff_ffff_ffff,
            ;
            let t: u128 = (limb as u128) * (m as u128) + (carry as u128);
            let lo: u64 = (t % 0x1_0000_0000_0000_0000u128) as u64;
            let hi: u64 = (t / 0x1_0000_0000_0000_0000u128) as u64;
            let ghost before = out@;
            out.push(lo);
            proof {
                let p = radix_pow(i as nat);
                let a = low_value(self.limbs@, i as nat);
                lemma_low_value_agree(before, out@, i as nat);
                assert(limb_at(out@, i as int) == lo);
                assert(limb_at(self.limbs@, i as int) == limb);
                assert(radix_pow((i + 1) as nat) == radix() * p);
                assert(hi * (radix() * p) + lo * p == (limb * m) * p + carry * p)
                    by (nonlinear_arith)
                    requires
                        hi * radix() + lo == limb * m + carry,
                ;
                assert((a + limb * p) * m == a * m + (limb * m) * p) by (nonlinear_arith);
            }
            carry = hi;
            i += 1;
        }
        if carry != 0 {
            let ghost before = out@;
            out.push(carry);
            proof {
                lemma_low_value_agree(before, out@, n as nat);
                assert(limb_at(out@, n as int) == carry);
            }
        } else {
            assert(carry * radix_pow(n as nat) == 0) by (nonlinear_arith)
                requires
                    carry == 0,
            ;
        }
        BigNat { limbs: out }
    }

    /// The limb at position `i`, zero past the end.
    fn limb(&self, i: usize) -> (r: u64)
        ensures
            r == limb_at(self.limbs@, i as int),
    {
        if i < self.limbs.len() {
            self.limbs[i]
        } else {
            0
        }
    }

    /// The sum of `self` and `other`.
    pub fn add(&self, other: &BigNat) -> (r: BigNat)
        ensures
            r.value() == self.value() + other.value(),
    {
        let n = if self.limbs.len() >= other.limbs.len() {
            self.limbs.len()
        } else {
            other.limbs.len()
        };
        let mut out: Vec<u64> = Vec::new();
        let mut carry: u64 = 0;
        let mut i: usize = 0;
        assert(carry * radix_pow(0) == 0) by (nonlinear_arith)
            requires
                carry == 0,
        ;
        while i < n
            invariant
                i <= n,
                out@.len() == i,
                carry <= 1,
                low_value(out@, i as nat) + carry * radix_pow(i as nat) == low_value(
                    self.limbs@,
                    i as nat,
                ) + low_value(other.limbs@, i as nat),
            decreases n - i,
        {
            let x: u64 = self.limb(i);
            let y: u64 = other.limb(i);
            let t: u128 = (x as u128) + (y as u128) + (carry as u128);
            let lo: u64 = (t % 0x1_0000_0000_0000_0000u128) as u64;
            let hi: u64 = (t / 0x1_0000_0000_0000_0000u128) as u64;
            let ghost before = out@;
            out.push(lo);
            proof {
                let p = radix_pow(i as nat);
                lemma_low_value_agree(before, out@, i as nat);
                assert(limb_at(out@, i as int) == lo);
                assert(radix_pow((i + 1) as nat) == radix() * p);
                assert(hi * (radix() * p) + lo * p == x * p + y * p + carry * p)
                    by (nonlinear_arith)
                    requires
                        hi * radix() + lo == x + y + carry,
                ;
            }
            carry = hi;
            i += 1;
        }
        proof {
            lemma_low_value_beyond(self.limbs@, n as nat);
            lemma_low_value_beyond(other.limbs@, n as nat);
        }
        if carry != 0 {
            let ghost before = out@;
            out.push(carry);
            proof {
                lemma_low_value_agree(before, out@, n as nat);
                assert(limb_at(out@, n as int) == carry);
            }
        } else {
            assert(carry * radix_pow(n as nat) == 0) by (nonlinear_arith)
                requires
                    carry == 0,
            ;
        }
        BigNat { limbs: out }
    }

    /// The product of `self` and the radix: every limb moves up one position.
    pub fn shift_limb(&self) -> (r: BigNat)
        ensures
            r.value() == self.value() * radix(),
    {
        let n = self.limbs.len();
        let mut out: Vec<u64> = Vec::new();
        out.push(0);
        let mut i: usize = 0;
        while i < n
            invariant
                i <= n,
                n == self.limbs@.len(),
                out@ == seq![0u64] + self.limbs@.take(i as int),
            decreases n - i,
        {
            out.push(self.limbs[i]);
            assert(self.limbs@.take(i + 1) =~= self.limbs@.take(i as int).push(self.limbs@[i as int]));
            assert(out@ =~= seq![0u64] + self.limbs@.take(i + 1));
            i += 1;
        }
        proof {
            assert(self.limbs@.take(n as int) =~= self.limbs@);
            lemma_low_value_shift(self.limbs@, n as nat);
            assert(radix() * low_value(self.limbs@, n as nat) == low_value(self.limbs@, n as nat)
                * radix()) by (nonlinear_arith);
        }
        BigNat { limbs: out }
    }

    /// The product of `self` and `m`.
    pub fn mul_u128(&self, m: u128) -> (r: BigNat)
        ensures
            r.value() == self.value() * m,
    {
        let lo: u64 = (m % 0x1_0000_0000_0000_0000u128) as u64;
        let hi: u64 = (m / 0x1_0000_0000_0000_0000u128) as u64;
        let low_part = self.mul_u64(lo);
        let high_part = self.mul_u64(hi).shift_limb();
        proof {
            let v = self.value();
            assert(v * lo + (v * hi) * radix() == v * m) by (nonlinear_arith)
                requires
                    m == hi * radix() + lo,
            ;
        }
        low_part.add(&high_part)
    }

    /// Whether `self` is smaller than `other`.
    pub fn less_than(&self, other: &BigNat) -> (r: bool)
        ensures
            r == (self.value() < other.value()),
    {
        let n = if self.limbs.len() >= other.limbs.len() {
            self.limbs.len()
        } else {
            other.limbs.len()
        };
        proof {
            lemma_low_value_beyond(self.limbs@, n as nat);
            lemma_low_value_beyond(other.limbs@, n as nat);
        }
        let mut i: usize = n;
        while i > 0
            invariant
                i <= n,
                low_value(self.limbs@, n as nat) == self.value(),
                low_value(other.limbs@, n as nat) == other.value(),
                forall|j: int| i <= j < n ==> limb_at(self.limbs@, j) == limb_at(other.limbs@, j),
            decreases i,
        {
            i -= 1;
            let x: u64 = self.limb(i);
            let y: u64 = other.limb(i);
            if x < y {
                proof {
                    lemma_low_value_order(self.limbs@, other.limbs@, i as nat, n as nat);
                }
                return true;
            }
            if x > y {
                proof {
                    lemma_low_value_order(other.limbs@, self.limbs@, i as nat, n as nat);
                }
                return false;
            }
        }
        proof {
            lemma_low_value_agree(self.limbs@, other.limbs@, n as nat);
        }
        false
    }
}

} // verus!
