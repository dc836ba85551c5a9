use vstd::prelude::*;

verus! {

/// 2^64, as the divisor that takes the high word of a 128-bit product.
pub const TWO_POW_64: u128 = 0x1_0000_0000_0000_0000;

/// The high word of the 128-bit product `a * b`.
pub open spec fn mul_high_spec(a: u64, b: u64) -> int {
    (a as int * b as int) / (TWO_POW_64 as int)
}

/// The low word of the 128-bit product `a * b`.
pub open spec fn mul_low_spec(a: u64, b: u64) -> int {
    (a as int * b as int) % (TWO_POW_64 as int)
}

pub proof fn lemma_product_bounds(a: u64, b: u64)
    ensures
        0 <= a as int * b as int <= u64::MAX as int * u64::MAX as int,
        mul_high_spec(a, b) <= a as int,
        mul_high_spec(a, b) <= b as int,
        a > 0 ==> mul_high_spec(a, b) < a as int,
        0 <= mul_high_spec(a, b) <= u64::MAX,
{
    let m = u64::MAX as int;
    let t = TWO_POW_64 as int;
    let x = a as int;
    let y = b as int;
    assert(0 <= x * y <= m * m) by (nonlinear_arith)
        requires 0 <= x <= m, 0 <= y <= m;
    assert(x * y < x * t || x == 0) by (nonlinear_arith)
        requires 0 <= x, 0 <= y < t;
    assert(x * y < y * t || y == 0) by (nonlinear_arith)
        requires 0 <= x < t, 0 <= y;
    assert(x * y <= x * t) by (nonlinear_arith)
        requires 0 <= x, 0 <= y < t;
    assert((x * y) / t <= x) by (nonlinear_arith)
        requires 0 <= x * y <= x * t, t > 0;
    assert((x * y) / t <= y) by (nonlinear_arith)
        requires 0 <= x * y, x * y < y * t || y == 0, t > 0, y >= 0;
    assert(x > 0 ==> (x * y) / t < x) by (nonlinear_arith)
        requires 0 <= x * y, x * y < x * t || x == 0, t > 0;
}

/// The high 64 bits of the full product of `a` and `b`.
pub fn mul_high(a: u64, b: u64) -> (r: u64)
    ensures
        r == mul_high_spec(a, b),
{
    proof {
        lemma_product_bounds(a, b);
    }
    let p: u128 = (a as u128) * (b as u128);
    (p / TWO_POW_64) as u64
}

/// A precomputed reduction of 64-bit hashes to a range `0..d`.
pub trait Reduce: Sized + Copy {
    /// The bound `d` that the reducer was made for.
    spec fn divisor(&self) -> nat;

    /// Whether a reducer can be made for the bound `d`.
    spec fn accepts(d: usize) -> bool;

    /// What `reduce` maps `h` to.
    spec fn reduce_spec(&self, h: u64) -> nat;

    fn new(d: usize) -> (r: Self)
        requires
            Self::accepts(d),
        ensures
            r.divisor() == d,
    ;

    fn reduce(self, h: u64) -> (r: usize)
        ensures
            r == self.reduce_spec(h),
            self.divisor() > 0 ==> r < self.divisor(),
    ;
}

/// Fast reduction: `h` goes to the high word of `d * h`, which lies in `0..d`.
#[derive(Clone, Copy, Debug)]
pub struct FastReduce {
    pub d: usize,
}

impl FastReduce {
    /// Reduce `h` to `0..d`, and also return the low word of `d * h`, which
    /// still carries entropy for a second reduction.
    pub fn reduce_with_remainder(self, h: u64) -> (r: (usize, u64))
        ensures
            r.0 == mul_high_spec(self.d as u64, h),
            r.1 == mul_low_spec(self.d as u64, h),
            self.d > 0 ==> r.0 < self.d,
    {
        proof {
            lemma_product_bounds(self.d as u64, h);
        }
        let p: u128 = (self.d as u128) * (h as u128);
        ((p / TWO_POW_64) as usize, (p % TWO_POW_64) as u64)
    }
}

impl Reduce for FastReduce {
    open spec fn divisor(&self) -> nat {
        self.d as nat
    }

    open spec fn accepts(d: usize) -> bool {
        true
    }

    open spec fn reduce_spec(&self, h: u64) -> nat {
        mul_high_spec(self.d as u64, h) as nat
    }

    fn new(d: usize) -> (r: Self) {
        FastReduce { d }
    }

    fn reduce(self, h: u64) -> (r: usize) {
        proof {
            lemma_product_bounds(self.d as u64, h);
        }
        mul_high(self.d as u64, h) as usize
    }
}

/// Reduction to a power of two: the high word of `C * h`, masked.
#[derive(Clone, Copy, Debug)]
pub struct MulReduce {
    pub mask: usize,
}

impl Reduce for MulReduce {
    open spec fn divisor(&self) -> nat {
        self.mask as nat + 1
    }

    open spec fn accepts(d: usize) -> bool {
        exists|k: nat| k < 64 && d as int == vstd::arithmetic::power2::pow2(k)
    }

    open spec fn reduce_spec(&self, h: u64) -> nat {
        (mul_high_spec(crate::hash::C, h) as u64 & (self.mask as u64)) as nat
    }

    fn new(d: usize) -> (r: Self) {
        proof {
            let k = choose|k: nat| k < 64 && d as int == vstd::arithmetic::power2::pow2(k);
            vstd::arithmetic::power2::lemma_pow2_pos(k);
        }
        MulReduce { mask: d - 1 }
    }

    fn reduce(self, h: u64) -> (r: usize) {
        let x = mul_high(crate::hash::C, h);
        let m = self.mask as u64;
        let r = x & m;
        assert(r <= m) by (bit_vector)
            requires r == x & m;
        r as usize
    }
}

/// Reduction to `0..d` by the remainder, used for the slots within a part.
#[derive(Clone, Copy, Debug)]
pub struct SlotReduce {
    pub d: usize,
}

impl Reduce for SlotReduce {
    open spec fn divisor(&self) -> nat {
        self.d as nat
    }

    open spec fn accepts(d: usize) -> bool {
        d > 0
    }

    open spec fn reduce_spec(&self, h: u64) -> nat {
        if self.d == 0 { 0 } else { (h % (self.d as u64)) as nat }
    }

    fn new(d: usize) -> (r: Self) {
        SlotReduce { d }
    }

    fn reduce(self, h: u64) -> (r: usize) {
        if self.d == 0 {
            0
        } else {
            (h % (self.d as u64)) as usize
        }
    }
}

} // verus!
