use vstd::prelude::*;
use crate::reduce::{mul_high, mul_high_spec, lemma_product_bounds};

verus! {

/// A map `[0, 2^64) -> [0, 2^64)` applied to a hash before it is reduced to
/// a bucket, so that a few buckets are large and placed first.
pub trait BucketFn: Copy {
    /// Whether the function is the identity, so that the bucket is one fast
    /// reduction of the hash.
    spec fn is_linear() -> bool;

    spec fn call_spec(&self, x: u64) -> u64;

    fn linear() -> (r: bool)
        ensures
            r == Self::is_linear(),
    ;

    fn call(&self, x: u64) -> (r: u64)
        ensures
            r == self.call_spec(x),
    ;

    /// Whether `call` gives the bucket within the part itself, rather than a
    /// value that is then reduced to one.
    spec fn outputs_bucket() -> bool;

    fn bucket_output() -> (r: bool)
        ensures
            r == Self::outputs_bucket(),
    ;

    /// The function as set up for parts of `b` buckets.
    spec fn configured(&self, b: u64) -> Self;

    fn set_buckets_per_part(&mut self, b: u64)
        requires
            b < 0x2000_0000_0000_0000,
        ensures
            *final(self) == old(self).configured(b),
    ;
}

/// The identity: buckets are uniform.
#[derive(Clone, Copy, Debug, Default)]
pub struct Linear;

/// `x^2`, scaled to 64 bits.
#[derive(Clone, Copy, Debug, Default)]
pub struct Square;

/// `x^2` mixed with a little of `x`: `255/256 x^2 + x/256`.
#[derive(Clone, Copy, Debug, Default)]
pub struct SquareEps;

/// A cubic, `x^2 (x/2 + 1/2)`, scaled to 64 bits.
#[derive(Clone, Copy, Debug, Default)]
pub struct Cubic;

/// The cubic mixed with a little of `x`; the space-efficient choice.
#[derive(Clone, Copy, Debug, Default)]
pub struct CubicEps;

/// Two pieces of linear: the first `beta` of the hashes go to the first
/// `gamma` of the buckets, the rest to the rest. `beta` and `gamma` are in
/// thousandths; the other fields are set up for a number of buckets.
#[derive(Clone, Copy, Debug, PartialEq, Eq, Structural)]
pub struct Skewed {
    pub beta_f: u64,
    pub gamma_f: u64,
    pub b: u64,
    pub beta: u64,
    pub slope1: u64,
    pub slope2: u64,
    pub neg_offset: u64,
}

/// `num / den` as a 64-bit fraction, `floor(num 2^64 / den)`, saturated at `u64::MAX`.
pub open spec fn fraction_spec(num: u64, den: u64) -> u64 {
    let f = num as int * 0x1_0000_0000_0000_0000 / den as int;
    if f > u64::MAX { u64::MAX } else { f as u64 }
}

pub fn fraction(num: u64, den: u64) -> (r: u64)
    requires
        den > 0,
        num <= 0x1_0000_0000,
    ensures
        r == fraction_spec(num, den),
{
    let f: u128 = (num as u128) * 0x1_0000_0000_0000_0000u128 / (den as u128);
    if f > u64::MAX as u128 {
        u64::MAX
    } else {
        f as u64
    }
}

impl Skewed {
    /// A skewed function mapping the first `beta` thousandths of the hashes
    /// to the first `gamma` thousandths of the buckets; set up for buckets by
    /// `set_buckets_per_part`.
    pub fn new(beta: u64, gamma: u64) -> (r: Self)
        requires
            gamma < beta < 1000,
        ensures
            r.beta_f == beta && r.gamma_f == gamma,
            r.b == 0 && r.beta == 0 && r.slope1 == 0 && r.slope2 == 0 && r.neg_offset == 0,
    {
        Skewed { beta_f: beta, gamma_f: gamma, b: 0, beta: 0, slope1: 0, slope2: 0, neg_offset: 0 }
    }

    /// `beta = 0.6`, `gamma = 0.3`.
    pub fn default_skew() -> (r: Self)
        ensures
            r == Self::new_spec(600, 300),
    {
        Self::new(600, 300)
    }

    pub open spec fn new_spec(beta: u64, gamma: u64) -> Self {
        Skewed { beta_f: beta, gamma_f: gamma, b: 0, beta: 0, slope1: 0, slope2: 0, neg_offset: 0 }
    }

    /// Whether the thousandths are in range: `gamma < beta < 1000`.
    pub open spec fn valid(&self) -> bool {
        self.gamma_f < self.beta_f < 1000
    }
}

impl BucketFn for Skewed {
    open spec fn is_linear() -> bool {
        false
    }

    open spec fn call_spec(&self, x: u64) -> u64 {
        if x >= self.beta {
            let d = mul_high_spec(x, self.slope2) - self.neg_offset;
            if d >= 0 { d as u64 } else { (d + 0x1_0000_0000_0000_0000) as u64 }
        } else {
            mul_high_spec(x, self.slope1) as u64
        }
    }

    fn linear() -> (r: bool) {
        false
    }

    fn call(&self, x: u64) -> (r: u64) {
        if x >= self.beta {
            mul_high(x, self.slope2).wrapping_sub(self.neg_offset)
        } else {
            mul_high(x, self.slope1)
        }
    }

    open spec fn outputs_bucket() -> bool {
        true
    }

    fn bucket_output() -> (r: bool) {
        true
    }

    /// With `beta`, `gamma` as fractions: the first slope `gamma / beta`, the
    /// second `(1 - gamma) / (1 - beta)`, and the offset that makes the second
    /// piece end at `b`. Where the thousandths are out of range it stays as is.
    open spec fn configured(&self, b: u64) -> Self {
        if self.valid() {
            let den = ((1000 - self.beta_f) * 8) as u64;
            Skewed {
                beta_f: self.beta_f,
                gamma_f: self.gamma_f,
                b,
                beta: fraction_spec(self.beta_f, 1000),
                slope1: mul_high_spec(fraction_spec(self.gamma_f, self.beta_f), b) as u64,
                slope2: mul_high_spec(fraction_spec((1000 - self.gamma_f) as u64, den), (b * 8) as u64) as u64,
                neg_offset: mul_high_spec(fraction_spec((self.beta_f - self.gamma_f) as u64, den), (b * 8) as u64) as u64,
            }
        } else {
            *self
        }
    }

    fn set_buckets_per_part(&mut self, b: u64) {
        if self.gamma_f < self.beta_f && self.beta_f < 1000 {
            let den = (1000 - self.beta_f) * 8;
            let b8 = b * 8;
            self.b = b;
            self.beta = fraction(self.beta_f, 1000);
            self.slope1 = mul_high(fraction(self.gamma_f, self.beta_f), b);
            self.slope2 = mul_high(fraction(1000 - self.gamma_f, den), b8);
            self.neg_offset = mul_high(fraction(self.beta_f - self.gamma_f, den), b8);
        }
    }
}

/// `(x >> 1) | 2^63`: `x/2 + 1/2` as a 64-bit fraction.
pub open spec fn half_up(x: u64) -> u64 {
    (x >> 1) | 0x8000_0000_0000_0000
}

/// `a/256*255 + x/256`, the mix of a curve value `a <= x` with `x`.
pub open spec fn eps_mix(a: u64, x: u64) -> u64 {
    ((a / 256) * 255 + x / 256) as u64
}

proof fn lemma_eps_mix(a: u64, x: u64)
    requires
        a <= x,
    ensures
        (a / 256) * 255 + x / 256 <= x,
{
    let p = a as int / 256;
    let q = x as int / 256;
    assert(p <= q) by (nonlinear_arith)
        requires 0 <= a <= x, p == a as int / 256, q == x as int / 256;
    assert(q * 256 <= x as int) by (nonlinear_arith)
        requires q == x as int / 256, x >= 0;
    assert(p * 255 + q <= q * 256) by (nonlinear_arith)
        requires 0 <= p <= q;
}

fn mix_eps(a: u64, x: u64) -> (r: u64)
    requires
        a <= x,
    ensures
        r == eps_mix(a, x),
{
    proof {
        lemma_eps_mix(a, x);
    }
    a / 256 * 255 + x / 256
}

impl BucketFn for Linear {
    open spec fn outputs_bucket() -> bool {
        false
    }

    fn bucket_output() -> (r: bool) {
        false
    }

    open spec fn configured(&self, b: u64) -> Self {
        *self
    }

    fn set_buckets_per_part(&mut self, b: u64) {
    }

    open spec fn is_linear() -> bool {
        true
    }

    open spec fn call_spec(&self, x: u64) -> u64 {
        x
    }

    fn linear() -> (r: bool) {
        true
    }

    fn call(&self, x: u64) -> (r: u64) {
        x
    }
}

impl BucketFn for Square {
    open spec fn outputs_bucket() -> bool {
        false
    }

    fn bucket_output() -> (r: bool) {
        false
    }

    open spec fn configured(&self, b: u64) -> Self {
        *self
    }

    fn set_buckets_per_part(&mut self, b: u64) {
    }

    open spec fn is_linear() -> bool {
        false
    }

    open spec fn call_spec(&self, x: u64) -> u64 {
        mul_high_spec(x, x) as u64
    }

    fn linear() -> (r: bool) {
        false
    }

    fn call(&self, x: u64) -> (r: u64) {
        mul_high(x, x)
    }
}

impl BucketFn for SquareEps {
    open spec fn outputs_bucket() -> bool {
        false
    }

    fn bucket_output() -> (r: bool) {
        false
    }

    open spec fn configured(&self, b: u64) -> Self {
        *self
    }

    fn set_buckets_per_part(&mut self, b: u64) {
    }

    open spec fn is_linear() -> bool {
        false
    }

    open spec fn call_spec(&self, x: u64) -> u64 {
        eps_mix(mul_high_spec(x, x) as u64, x)
    }

    fn linear() -> (r: bool) {
        false
    }

    fn call(&self, x: u64) -> (r: u64) {
        proof {
            lemma_product_bounds(x, x);
        }
        mix_eps(mul_high(x, x), x)
    }
}

impl BucketFn for Cubic {
    open spec fn outputs_bucket() -> bool {
        false
    }

    fn bucket_output() -> (r: bool) {
        false
    }

    open spec fn configured(&self, b: u64) -> Self {
        *self
    }

    fn set_buckets_per_part(&mut self, b: u64) {
    }

    open spec fn is_linear() -> bool {
        false
    }

    open spec fn call_spec(&self, x: u64) -> u64 {
        mul_high_spec(mul_high_spec(x, x) as u64, half_up(x)) as u64
    }

    fn linear() -> (r: bool) {
        false
    }

    fn call(&self, x: u64) -> (r: u64) {
        mul_high(mul_high(x, x), (x >> 1) | 0x8000_0000_0000_0000)
    }
}

impl BucketFn for CubicEps {
    open spec fn outputs_bucket() -> bool {
        false
    }

    fn bucket_output() -> (r: bool) {
        false
    }

    open spec fn configured(&self, b: u64) -> Self {
        *self
    }

    fn set_buckets_per_part(&mut self, b: u64) {
    }

    open spec fn is_linear() -> bool {
        false
    }

    open spec fn call_spec(&self, x: u64) -> u64 {
        eps_mix(mul_high_spec(mul_high_spec(x, x) as u64, half_up(x)) as u64, x)
    }

    fn linear() -> (r: bool) {
        false
    }

    fn call(&self, x: u64) -> (r: u64) {
        let sq = mul_high(x, x);
        let h = (x >> 1) | 0x8000_0000_0000_0000;
        proof {
            lemma_product_bounds(x, x);
            lemma_product_bounds(sq, h);
        }
        mix_eps(mul_high(sq, h), x)
    }
}

} // verus!
