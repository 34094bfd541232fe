//! Natural numbers of any size, as little-endian base-2^32 limbs, with the
//! exact addition, subtraction, multiplication and comparison that the
//! trend calculation needs.
use vstd::prelude::*;

verus! {

/// The base of one limb.
pub open spec fn limb_base() -> int {
    0x1_0000_0000
}

/// `limb_base()` to the power `k`.
pub open spec fn base_pow(k: nat) -> int
    decreases k,
{
    if k == 0 { 1 } else { limb_base() * base_pow((k - 1) as nat) }
}

/// The limb of `s` at `i`; zero beyond its end.
pub open spec fn digit(s: Seq<u32>, i: int) -> int {
    if 0 <= i < s.len() { s[i] as int } else { 0 }
}

/// The number written by the lowest `k` limbs of `s`.
pub open spec fn value_upto(s: Seq<u32>, k: nat) -> int
    decreases k,
{
    if k == 0 {
        0
    } else {
        value_upto(s, (k - 1) as nat) + digit(s, k - 1) * base_pow((k - 1) as nat)
    }
}

/// The number written by the limbs `s`, lowest first.
pub open spec fn limbs_value(s: Seq<u32>) -> int {
    value_upto(s, s.len())
}

proof fn lemma_pow_step(k: nat)
    ensures
        base_pow(k) >= 1,
        base_pow(k + 1) == limb_base() * base_pow(k),
    decreases k,
{
    if k > 0 {
        lemma_pow_step((k - 1) as nat);
    }
    let p = base_pow(k);
    assert(0x1_0000_0000 * p >= 1) by (nonlinear_arith)
        requires
            p >= 1,
    ;
}

/// The lowest `k` limbs write a number below `limb_base()^k`.
proof fn lemma_upto_bound(s: Seq<u32>, k: nat)
    ensures
        0 <= value_upto(s, k) < base_pow(k),
    decreases k,
{
    if k > 0 {
        let j = (k - 1) as nat;
        lemma_upto_bound(s, j);
        lemma_pow_step(j);
        let p = base_pow(j);
        let v = value_upto(s, j);
        let d = digit(s, j as int);
        assert(0 <= d <= 0xFFFF_FFFF);
        assert(0 <= v + d * p < 0x1_0000_0000 * p) by (nonlinear_arith)
            requires
                0 <= v < p,
                0 <= d <= 0xFFFF_FFFF,
        ;
    } else {
        assert(base_pow(0) == 1);
    }
}

/// Limbs beyond the end add nothing.
proof fn lemma_upto_beyond(s: Seq<u32>, k: nat)
    requires
        k >= s.len(),
    ensures
        value_upto(s, k) == limbs_value(s),
    decreases k,
{
    if k > s.len() {
        lemma_upto_beyond(s, (k - 1) as nat);
        assert(digit(s, k - 1) == 0);
    }
}

/// Two limb sequences that agree below `k` write the same lowest `k` limbs.
proof fn lemma_upto_same(s: Seq<u32>, t: Seq<u32>, k: nat)
    requires
        forall|i: int| 0 <= i < k ==> digit(s, i) == digit(t, i),
    ensures
        value_upto(s, k) == value_upto(t, k),
    decreases k,
{
    if k > 0 {
        lemma_upto_same(s, t, (k - 1) as nat);
    }
}

/// Appending a limb to `k` limbs adds it at weight `limb_base()^k`.
proof fn lemma_upto_push(c: Seq<u32>, x: u32)
    ensures
        value_upto(c.push(x), (c.len() + 1) as nat) == value_upto(c, c.len()) + x * base_pow(
            c.len(),
        ),
        limbs_value(c.push(x)) == limbs_value(c) + x * base_pow(c.len()),
{
    assert forall|i: int| 0 <= i < c.len() implies digit(c.push(x), i) == digit(c, i) by {}
    lemma_upto_same(c.push(x), c, c.len());
    assert(digit(c.push(x), c.len() as int) == x);
}

/// A zero limb put below the others multiplies by `limb_base()`.
proof fn lemma_upto_shift(s: Seq<u32>, k: nat)
    ensures
        value_upto(s.insert(0, 0u32), k + 1) == limb_base() * value_upto(s, k),
    decreases k,
{
    let z = s.insert(0, 0u32);
    if k == 0 {
        assert(digit(z, 0) == 0);
        assert(value_upto(z, 1) == value_upto(z, 0) + digit(z, 0) * base_pow(0));
    } else {
        let j = (k - 1) as nat;
        lemma_upto_shift(s, j);
        lemma_pow_step(j);
        assert(digit(z, k as int) == digit(s, j as int));
        let v = value_upto(s, j);
        let d = digit(s, j as int);
        let p = base_pow(j);
        assert(0x1_0000_0000 * v + d * (0x1_0000_0000 * p) == 0x1_0000_0000 * (v + d * p))
            by (nonlinear_arith);
    }
}

proof fn lemma_shift(s: Seq<u32>)
    ensures
        limbs_value(s.insert(0, 0u32)) == limb_base() * limbs_value(s),
{
    lemma_upto_shift(s, s.len());
}

/// `a + b`, limb by limb with a carry.
fn add_limbs(a: &Vec<u32>, b: &Vec<u32>) -> (r: Vec<u32>)
    ensures
        limbs_value(r@) == limbs_value(a@) + limbs_value(b@),
{
    let n = if a.len() >= b.len() { a.len() } else { b.len() };
    let mut c: Vec<u32> = Vec::new();
    let mut carry: u64 = 0;
    let mut i: usize = 0;
    while i < n
        invariant
            c@.len() == i,
            i <= n,
            n >= a@.len(),
            n >= b@.len(),
            carry <= 1,
            value_upto(c@, i as nat) + carry * base_pow(i as nat) == value_upto(a@, i as nat)
                + value_upto(b@, i as nat),
        decreases n - i,
    {
        let x: u64 = if i < a.len() { a[i] as u64 } else { 0 };
        let y: u64 = if i < b.len() { b[i] as u64 } else { 0 };
        let s: u64 = x + y + carry;
        let low: u64 = s % 0x1_0000_0000;
        let high: u64 = s / 0x1_0000_0000;
        let ghost old_c = c@;
        c.push(low as u32);
        proof {
            assert(x == digit(a@, i as int));
            assert(y == digit(b@, i as int));
            lemma_upto_push(old_c, low as u32);
            lemma_pow_step(i as nat);
            let p = base_pow(i as nat);
            assert(low * p + high * (0x1_0000_0000 * p) == s * p) by (nonlinear_arith)
                requires
                    s == 0x1_0000_0000 * high + low,
            ;
            assert(s * p == x * p + y * p + carry * p) by (nonlinear_arith)
                requires
                    s == x + y + carry,
            ;
            assert(value_upto(a@, (i + 1) as nat) == value_upto(a@, i as nat) + x * p);
            assert(value_upto(b@, (i + 1) as nat) == value_upto(b@, i as nat) + y * p);
        }
        carry = high;
        i = i + 1;
    }
    let ghost old_c = c@;
    if carry > 0 {
        c.push(carry as u32);
        proof {
            lemma_upto_push(old_c, carry as u32);
        }
    }
    proof {
        lemma_upto_beyond(a@, n as nat);
        lemma_upto_beyond(b@, n as nat);
    }
    c
}

/// `a - b`, limb by limb with a borrow; the flag tells whether `a < b`, in
/// which case the limbs are of no use.
fn sub_limbs(a: &Vec<u32>, b: &Vec<u32>) -> (r: (Vec<u32>, bool))
    ensures
        r.1 == (limbs_value(a@) < limbs_value(b@)),
        !r.1 ==> limbs_value(r.0@) == limbs_value(a@) - limbs_value(b@),
{
    let n = if a.len() >= b.len() { a.len() } else { b.len() };
    let mut c: Vec<u32> = Vec::new();
    let mut borrow: u64 = 0;
    let mut i: usize = 0;
    while i < n
        invariant
            c@.len() == i,
            i <= n,
            n >= a@.len(),
            n >= b@.len(),
            borrow <= 1,
            value_upto(c@, i as nat) - borrow * base_pow(i as nat) == value_upto(a@, i as nat)
                - value_upto(b@, i as nat),
        decreases n - i,
    {
        let x: u64 = if i < a.len() { a[i] as u64 } else { 0 };
        let y: u64 = if i < b.len() { b[i] as u64 } else { 0 };
        let (d, nb): (u64, u64) = if x >= y + borrow {
            (x - y - borrow, 0)
        } else {
            (x + 0x1_0000_0000 - y - borrow, 1)
        };
        let ghost old_c = c@;
        c.push(d as u32);
        proof {
            assert(x == digit(a@, i as int));
            assert(y == digit(b@, i as int));
            lemma_upto_push(old_c, d as u32);
            lemma_pow_step(i as nat);
            let p = base_pow(i as nat);
            assert(d * p - nb * (0x1_0000_0000 * p) == (x - y - borrow) * p) by (nonlinear_arith)
                requires
                    d - 0x1_0000_0000 * nb == x - y - borrow,
            ;
            assert((x - y - borrow) * p == x * p - y * p - borrow * p) by (nonlinear_arith);
        }
        borrow = nb;
        i = i + 1;
    }
    proof {
        lemma_upto_beyond(a@, n as nat);
        lemma_upto_beyond(b@, n as nat);
        lemma_upto_bound(c@, n as nat);
    }
    (c, borrow == 1)
}

/// `a * x` for one limb `x`.
fn mul_limb(a: &Vec<u32>, x: u32) -> (r: Vec<u32>)
    ensures
        limbs_value(r@) == limbs_value(a@) * x,
{
    let n = a.len();
    let mut c: Vec<u32> = Vec::new();
    let mut carry: u64 = 0;
    let mut i: usize = 0;
    while i < n
        invariant
            c@.len() == i,
            i <= n,
            n == a@.len(),
            carry <= 0xFFFF_FFFF,
            value_upto(c@, i as nat) + carry * base_pow(i as nat) == value_upto(a@, i as nat) * x,
        decreases n - i,
    {
        let ai: u64 = a[i] as u64;
        proof {
            assert(ai * x <= 0xFFFF_FFFF * 0xFFFF_FFFF) by (nonlinear_arith)
                requires
                    ai <= 0xFFFF_FFFF,
                    x <= 0xFFFF_FFFF,
            ;
        }
        let t: u64 = ai * (x as u64) + carry;
        let low: u64 = t % 0x1_0000_0000;
        let high: u64 = t / 0x1_0000_0000;
        let ghost old_c = c@;
        c.push(low as u32);
        proof {
            assert(ai == digit(a@, i as int));
            lemma_upto_push(old_c, low as u32);
            lemma_pow_step(i as nat);
            let p = base_pow(i as nat);
            let v = value_upto(a@, i as nat);
            assert(low * p + high * (0x1_0000_0000 * p) == t * p) by (nonlinear_arith)
                requires
                    t == 0x1_0000_0000 * high + low,
            ;
            assert((v + ai * p) * x == v * x + (ai * x) * p) by (nonlinear_arith);
            assert(t * p == (ai * x) * p + carry * p) by (nonlinear_arith)
                requires
                    t == ai * x + carry,
            ;
        }
        carry = high;
        i = i + 1;
    }
    let ghost old_c = c@;
    if carry > 0 {
        c.push(carry as u32);
        proof {
            lemma_upto_push(old_c, carry as u32);
        }
    }
    c
}

/// `a * b`, by Horner's rule over the limbs of `b` from the highest.
fn mul_limbs(a: &Vec<u32>, b: &Vec<u32>) -> (r: Vec<u32>)
    ensures
        limbs_value(r@) == limbs_value(a@) * limbs_value(b@),
{
    let mut acc: Vec<u32> = Vec::new();
    let mut i: usize = b.len();
    let ghost va = limbs_value(a@);
    proof {
        assert(limbs_value(acc@) == 0);
        lemma_upto_beyond(b@, b@.len());
        assert(0 * base_pow(i as nat) == 0) by (nonlinear_arith);
    }
    while i > 0
        invariant
            i <= b@.len(),
            va == limbs_value(a@),
            limbs_value(acc@) * base_pow(i as nat) + va * value_upto(b@, i as nat) == va
                * limbs_value(b@),
        decreases i,
    {
        i = i - 1;
        let ghost old_acc = limbs_value(acc@);
        let ghost old_seq = acc@;
        acc.insert(0, 0);
        proof {
            lemma_shift(old_seq);
        }
        let part = mul_limb(a, b[i]);
        let ghost shifted = limbs_value(acc@);
        acc = add_limbs(&acc, &part);
        proof {
            lemma_pow_step(i as nat);
            let p = base_pow(i as nat);
            let bi = b@[i as int] as int;
            assert(bi == digit(b@, i as int));
            let vb = value_upto(b@, i as nat);
            assert(value_upto(b@, (i + 1) as nat) == vb + bi * p);
            assert((0x1_0000_0000 * old_acc + va * bi) * p + va * vb == old_acc * (0x1_0000_0000
                * p) + va * (vb + bi * p)) by (nonlinear_arith);
        }
    }
    proof {
        assert(base_pow(0) == 1);
        assert(value_upto(b@, 0) == 0);
    }
    acc
}

/// A natural number of any size.
#[derive(Debug)]
pub struct Natural {
    limbs: Vec<u32>,
}

impl View for Natural {
    type V = nat;

    closed spec fn view(&self) -> nat {
        limbs_value(self.limbs@) as nat
    }
}

impl Clone for Natural {
    fn clone(&self) -> (r: Self)
        ensures
            r@ == self@,
    {
        let mut copy: Vec<u32> = Vec::new();
        let mut i: usize = 0;
        while i < self.limbs.len()
            invariant
                i <= self.limbs@.len(),
                copy@ == self.limbs@.take(i as int),
            decreases self.limbs@.len() - i,
        {
            copy.push(self.limbs[i]);
            i = i + 1;
            proof {
                assert(copy@ =~= self.limbs@.take(i as int));
            }
        }
        proof {
            assert(copy@ =~= self.limbs@);
        }
        Natural { limbs: copy }
    }
}

impl Natural {
    proof fn lemma_view(&self)
        ensures
            self@ == limbs_value(self.limbs@),
    {
        lemma_upto_bound(self.limbs@, self.limbs@.len());
    }

    pub fn zero() -> (r: Natural)
        ensures
            r@ == 0,
    {
        Natural { limbs: Vec::new() }
    }

    pub fn from_u64(x: u64) -> (r: Natural)
        ensures
            r@ == x,
    {
        let mut limbs: Vec<u32> = Vec::new();
        limbs.push((x % 0x1_0000_0000) as u32);
        limbs.push((x / 0x1_0000_0000) as u32);
        let r = Natural { limbs };
        proof {
            r.lemma_view();
            assert(base_pow(1) == limb_base() * base_pow(0));
            assert(value_upto(limbs@, 1) == value_upto(limbs@, 0) + digit(limbs@, 0) * base_pow(0));
            assert(value_upto(limbs@, 2) == value_upto(limbs@, 1) + digit(limbs@, 1) * base_pow(1));
        }
        r
    }

    pub fn from_u128(x: u128) -> (r: Natural)
        ensures
            r@ == x,
    {
        let high = Natural::from_u64((x / 0x1_0000_0000_0000_0000) as u64);
        let low = Natural::from_u64((x % 0x1_0000_0000_0000_0000) as u64);
        let mut limbs = high.limbs;
        let ghost h = limbs@;
        limbs.insert(0, 0);
        let ghost h1 = limbs@;
        limbs.insert(0, 0);
        proof {
            high.lemma_view();
            low.lemma_view();
            lemma_shift(h);
            lemma_shift(h1);
        }
        let r = Natural { limbs: add_limbs(&limbs, &low.limbs) };
        proof {
            r.lemma_view();
        }
        r
    }

    /// The limbs, lowest first, in base 2^32.
    pub fn digits(&self) -> (r: Vec<u32>)
        ensures
            limbs_value(r@) == self@,
    {
        proof {
            self.lemma_view();
        }
        let c = self.clone();
        proof {
            c.lemma_view();
        }
        c.limbs
    }

    pub fn add(&self, other: &Natural) -> (r: Natural)
        ensures
            r@ == self@ + other@,
    {
        let r = Natural { limbs: add_limbs(&self.limbs, &other.limbs) };
        proof {
            self.lemma_view();
            other.lemma_view();
            r.lemma_view();
        }
        r
    }

    pub fn sub(&self, other: &Natural) -> (r: Natural)
        requires
            other@ <= self@,
        ensures
            r@ == self@ - other@,
    {
        proof {
            self.lemma_view();
            other.lemma_view();
        }
        let (limbs, _) = sub_limbs(&self.limbs, &other.limbs);
        let r = Natural { limbs };
        proof {
            r.lemma_view();
        }
        r
    }

    pub fn mul(&self, other: &Natural) -> (r: Natural)
        ensures
            r@ == self@ * other@,
    {
        let r = Natural { limbs: mul_limbs(&self.limbs, &other.limbs) };
        proof {
            self.lemma_view();
            other.lemma_view();
            r.lemma_view();
        }
        r
    }

    pub fn le(&self, other: &Natural) -> (r: bool)
        ensures
            r == (self@ <= other@),
    {
        proof {
            self.lemma_view();
            other.lemma_view();
        }
        let (_, below) = sub_limbs(&other.limbs, &self.limbs);
        !below
    }

    pub fn lt(&self, other: &Natural) -> (r: bool)
        ensures
            r == (self@ < other@),
    {
        !other.le(self)
    }

    pub fn is_zero(&self) -> (r: bool)
        ensures
            r == (self@ == 0),
    {
        self.le(&Natural::zero())
    }

    /// The smaller of the two.
    pub fn min(&self, other: &Natural) -> (r: Natural)
        ensures
            r@ == (if self@ <= other@ { self@ } else { other@ }),
    {
        if self.le(other) { self.clone() } else { other.clone() }
    }

    /// |self - other|.
    pub fn abs_diff(&self, other: &Natural) -> (r: Natural)
        ensures
            r@ == (if self@ >= other@ { self@ - other@ } else { other@ - self@ }),
    {
        if other.le(self) { self.sub(other) } else { other.sub(self) }
    }
}

} // verus!
