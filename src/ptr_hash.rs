use vstd::prelude::*;
use core::marker::PhantomData;
use crate::bucket_fn::{BucketFn, CubicEps, Linear, SquareEps};
use crate::hash::{C, KeyHash, KeyHasher};
use crate::pack::Packed;
use crate::reduce::{
    lemma_product_bounds, mul_high_spec, mul_low_spec, FastReduce, Reduce, SlotReduce,
};
use crate::shard::Sharding;

verus! {

/// The largest number of keys an index is built for: 2^40.
pub const MAX_KEYS: u64 = 0x100_0000_0000;

/// Whether an index can be built for `n` keys: at most `MAX_KEYS`, and few
/// enough that the slots, about `n / alpha` and at most `4000 n`, can be
/// counted in a `usize`.
pub open spec fn key_count_ok(n: usize) -> bool {
    n as int <= MAX_KEYS as int && 4000 * n as int <= usize::MAX as int
}

/// The parameters of a construction.
///
/// The load factor `alpha` is given in thousandths (`990` is 0.99) and the
/// average bucket size `lambda` in tenths (`30` is 3.0).
#[derive(Clone, Copy, Debug)]
pub struct PtrHashParams<BF> {
    /// Whether slots past `n` are remapped, so that indices are minimal.
    pub remap: bool,
    /// Keys per slot, in thousandths, in `1..=1000`.
    pub alpha: u64,
    /// Keys per bucket on average, in tenths, at least 1.
    pub lambda: u64,
    /// The bucket function.
    pub bucket_fn: BF,
    /// The largest number of keys in one shard, at least 1.
    pub keys_per_shard: usize,
    /// How the hashes are split into shards.
    pub sharding: Sharding,
    /// Force a single part, so that `index_single_part` can be used.
    pub single_part: bool,
}

impl<BF> PtrHashParams<BF> {
    /// The ranges in which the parameters are meaningful.
    pub open spec fn valid(&self) -> bool {
        1 <= self.alpha <= 1000 && self.lambda >= 1 && self.keys_per_shard >= 1
    }
}

/// The default shard size: 2^31 keys.
pub const DEFAULT_KEYS_PER_SHARD: usize = 0x8000_0000;

impl PtrHashParams<Linear> {
    /// Fast construction and queries: `alpha = 0.99`, `lambda = 3.0`, linear buckets.
    pub fn default_fast() -> (r: Self)
        ensures
            r.valid(),
            r.remap && r.alpha == 990 && r.lambda == 30 && !r.single_part,
            r.keys_per_shard == DEFAULT_KEYS_PER_SHARD && r.sharding == Sharding::Off,
    {
        PtrHashParams {
            remap: true,
            alpha: 990,
            lambda: 30,
            bucket_fn: Linear,
            keys_per_shard: DEFAULT_KEYS_PER_SHARD,
            sharding: Sharding::Off,
            single_part: false,
        }
    }
}

impl PtrHashParams<SquareEps> {
    /// `alpha = 0.99`, `lambda = 3.5`, the `SquareEps` bucket function.
    pub fn default_square() -> (r: Self)
        ensures
            r.valid(),
            r.remap && r.alpha == 990 && r.lambda == 35 && !r.single_part,
            r.keys_per_shard == DEFAULT_KEYS_PER_SHARD && r.sharding == Sharding::Off,
    {
        PtrHashParams {
            remap: true,
            alpha: 990,
            lambda: 35,
            bucket_fn: SquareEps,
            keys_per_shard: DEFAULT_KEYS_PER_SHARD,
            sharding: Sharding::Off,
            single_part: false,
        }
    }
}

impl PtrHashParams<CubicEps> {
    /// Balanced space and speed: `alpha = 0.99`, `lambda = 3.5`, `CubicEps`.
    pub fn default_balanced() -> (r: Self)
        ensures
            r.valid(),
            r.remap && r.alpha == 990 && r.lambda == 35 && !r.single_part,
            r.keys_per_shard == DEFAULT_KEYS_PER_SHARD && r.sharding == Sharding::Off,
    {
        PtrHashParams {
            remap: true,
            alpha: 990,
            lambda: 35,
            bucket_fn: CubicEps,
            keys_per_shard: DEFAULT_KEYS_PER_SHARD,
            sharding: Sharding::Off,
            single_part: false,
        }
    }

    /// Smallest space, slower and less reliable construction: `alpha = 0.99`,
    /// `lambda = 3.9`, `CubicEps`.
    pub fn default_compact() -> (r: Self)
        ensures
            r.valid(),
            r.remap && r.alpha == 990 && r.lambda == 39 && !r.single_part,
            r.keys_per_shard == DEFAULT_KEYS_PER_SHARD && r.sharding == Sharding::Off,
    {
        PtrHashParams {
            remap: true,
            alpha: 990,
            lambda: 39,
            bucket_fn: CubicEps,
            keys_per_shard: DEFAULT_KEYS_PER_SHARD,
            sharding: Sharding::Off,
            single_part: false,
        }
    }
}

impl Default for PtrHashParams<Linear> {
    fn default() -> (r: Self)
        ensures
            r.valid(),
            r.remap && r.alpha == 990 && r.lambda == 30 && !r.single_part,
            r.keys_per_shard == DEFAULT_KEYS_PER_SHARD && r.sharding == Sharding::Off,
    {
        Self::default_fast()
    }
}

/// The sizes derived from the number of keys and the parameters.
#[derive(Clone, Copy, Debug, PartialEq, Eq, Structural)]
pub struct Layout {
    pub shards: usize,
    pub parts: usize,
    pub parts_per_shard: usize,
    /// Slots per part.
    pub slots: usize,
    /// Buckets per part.
    pub buckets: usize,
    pub slots_total: usize,
    pub buckets_total: usize,
}

/// `ceil(a / b)` for `a >= 1`.
pub open spec fn div_ceil(a: int, b: int) -> int {
    (a - 1) / b + 1
}

/// `floor(log2(x))`, and 0 for `x <= 1`.
pub open spec fn log2_floor(x: u64) -> nat
    decreases x,
{
    if x <= 1 {
        0
    } else {
        1 + log2_floor(x / 2)
    }
}

pub open spec fn is_pow2(x: u64) -> bool {
    x != 0 && x & ((x - 1) as u64) == 0
}

pub open spec fn shards_spec(n: usize, kps: usize, sharding: Sharding, single_part: bool) -> int {
    if single_part || sharding is Off {
        1
    } else {
        vstd::math::max(1, div_ceil(n as int, kps as int))
    }
}

/// The parts that the heuristic asks for, before they are rounded to the shards.
/// With `eps = (1 - alpha) / 2` and `x = n eps^2 / 2`, about `x / ln x`, where
/// `ln x` is taken as `0.693 floor(log2 x)`; `n / 50000` where that is unstable.
pub open spec fn target_parts_spec(n: usize, alpha: u64) -> int {
    let e = 1000 - alpha;
    let x = (n as int * e * e / 8_000_000) as u64;
    let fallback = vstd::math::max(1, n as int / 50000);
    if x <= 2 {
        fallback
    } else {
        let c = x as int * 1000 / (log2_floor(x) as int * 693);
        if c > 1_000_000 { fallback } else { vstd::math::max(1, c) }
    }
}

pub open spec fn parts_per_shard_spec(n: usize, alpha: u64, shards: int, single_part: bool) -> int {
    if single_part || n < 10000 {
        1
    } else {
        vstd::math::min(vstd::math::max(1, target_parts_spec(n, alpha) / shards), n as int / shards)
    }
}

pub open spec fn layout_spec<BF>(n: usize, params: PtrHashParams<BF>) -> Layout {
    let shards = shards_spec(n, params.keys_per_shard, params.sharding, params.single_part);
    let pps = parts_per_shard_spec(n, params.alpha, shards, params.single_part);
    let parts = pps * shards;
    let kpp = div_ceil(n as int, parts);
    let s0 = div_ceil(kpp * 1000, params.alpha as int);
    let buckets = div_ceil(kpp * 10, params.lambda as int) + 3;
    let s1 = vstd::math::max(s0, buckets + 1);
    let slots = if is_pow2(s1 as u64) { s1 + 1 } else { s1 };
    Layout {
        shards: shards as usize,
        parts: parts as usize,
        parts_per_shard: pps as usize,
        slots: slots as usize,
        buckets: buckets as usize,
        slots_total: (parts * slots) as usize,
        buckets_total: (parts * buckets) as usize,
    }
}

impl Layout {
    pub open spec fn wf(&self, n: usize) -> bool {
        &&& 1 <= self.parts <= n
        &&& self.shards >= 1
        &&& self.parts == self.parts_per_shard * self.shards
        &&& self.slots > self.buckets >= 1
        &&& !is_pow2(self.slots as u64)
        &&& self.slots_total == self.parts * self.slots
        &&& self.buckets_total == self.parts * self.buckets
        &&& n <= self.slots_total <= 4000 * n
        &&& self.buckets_total <= 26 * n
        &&& key_count_ok(n)
    }
}

proof fn lemma_log2_floor_le(x: u64)
    ensures
        log2_floor(x) <= x,
    decreases x,
{
    if x > 1 {
        lemma_log2_floor_le(x / 2);
    }
}

fn log2_floor_exec(x: u64) -> (r: u64)
    ensures
        r == log2_floor(x),
{
    proof {
        lemma_log2_floor_le(x);
    }
    let mut v: u64 = x;
    let mut r: u64 = 0;
    while v > 1
        invariant
            r + log2_floor(v) == log2_floor(x),
            log2_floor(x) <= x,
        decreases v,
    {
        v = v / 2;
        r = r + 1;
    }
    r
}

fn max_usize(a: usize, b: usize) -> (r: usize)
    ensures
        r == vstd::math::max(a as int, b as int),
{
    if a >= b { a } else { b }
}

proof fn lemma_div_mul_le(a: int, b: int)
    requires
        a >= 0,
        b > 0,
    ensures
        (a / b) * b <= a,
        a / b <= a,
        a / b >= 0,
{
    assert((a / b) * b <= a) by (nonlinear_arith)
        requires a >= 0, b > 0;
    assert(a / b <= a) by (nonlinear_arith)
        requires a >= 0, b > 0;
}

/// The sizes of an index over `n` keys.
pub fn layout<BF: Copy>(n: usize, params: &PtrHashParams<BF>) -> (r: Layout)
    requires
        1 <= n,
        key_count_ok(n),
        params.valid(),
    ensures
        r == layout_spec(n, *params),
        r.wf(n),
{
    let shards: usize = if params.single_part || matches!(params.sharding, Sharding::Off) {
        1
    } else {
        max_usize(1, (n - 1) / params.keys_per_shard + 1)
    };
    proof {
        if shards > 1 {
            let k = params.keys_per_shard as int;
            assert((n - 1) / k + 1 <= n) by (nonlinear_arith)
                requires k >= 1, n >= 1;
        }
    }
    assert(shards as int == shards_spec(n, params.keys_per_shard, params.sharding, params.single_part));
    assert(1 <= shards <= n);
    let pps: usize = if params.single_part || n < 10000 {
        1
    } else {
        let e: u64 = 1000 - params.alpha;
        assert(e * e <= 1_000_000) by (nonlinear_arith)
            requires 0 <= e <= 1000;
        assert((n as u64) * (e * e) <= 0x100_0000_0000 * 1_000_000) by (nonlinear_arith)
            requires 0 <= n as u64 <= 0x100_0000_0000, 0 <= e * e <= 1_000_000;
        let x: u64 = (n as u64) * (e * e) / 8_000_000;
        assert(x as int == (n as int * e * e / 8_000_000) as u64) by (nonlinear_arith)
            requires x == (n as u64) * (e * e) / 8_000_000, (n as u64) * (e * e) <= 0x100_0000_0000 * 1_000_000;
        assert(x <= n) by (nonlinear_arith)
            requires x == (n as u64) * (e * e) / 8_000_000, e * e <= 1_000_000, n >= 0;
        let fallback = max_usize(1, n / 50000);
        let target: usize = if x <= 2 {
            fallback
        } else {
            let l = log2_floor_exec(x);
            assert(l >= 1) by {
                reveal_with_fuel(log2_floor, 2);
            }
            proof {
                lemma_log2_floor_le(x);
            }
            let c: u64 = x * 1000 / (l * 693);
            if c > 1_000_000 {
                fallback
            } else {
                max_usize(1, c as usize)
            }
        };
        assert(target == target_parts_spec(n, params.alpha));
        let t = max_usize(1, target / shards);
        let cap = n / shards;
        proof {
            assert(cap >= 1) by (nonlinear_arith)
                requires 1 <= shards <= n, cap == n / shards;
        }
        if t < cap { t } else { cap }
    };
    assert(pps as int == parts_per_shard_spec(n, params.alpha, shards as int, params.single_part));
    proof {
        if !(params.single_part || n < 10000) {
            lemma_div_mul_le(n as int, shards as int);
            assert(pps * shards <= (n / shards) * shards) by (nonlinear_arith)
                requires pps <= n / shards, shards >= 1;
        }
        assert(pps * shards <= n) by (nonlinear_arith)
            requires pps == 1 ==> shards <= n, pps != 1 ==> pps * shards <= n as int, shards >= 1, pps >= 1;
        assert(pps * shards >= 1) by (nonlinear_arith)
            requires pps >= 1, shards >= 1;
    }
    let parts: usize = pps * shards;
    let kpp: usize = (n - 1) / parts + 1;
    proof {
        assert(1 <= kpp <= n) by (nonlinear_arith)
            requires 1 <= parts <= n, kpp as int == (n as int - 1) / (parts as int) + 1;
        assert(n <= parts * kpp < 2 * n) by (nonlinear_arith)
            requires 1 <= parts <= n, kpp as int == (n as int - 1) / (parts as int) + 1;
    }
    let s0: u64 = ((kpp as u64) * 1000 - 1) / params.alpha + 1;
    proof {
        let a = params.alpha as int;
        assert(s0 <= kpp * 1000) by (nonlinear_arith)
            requires 1 <= a <= 1000, s0 == (kpp * 1000 - 1) / a + 1, kpp >= 1;
        assert(s0 >= kpp) by (nonlinear_arith)
            requires 1 <= a <= 1000, s0 == (kpp * 1000 - 1) / a + 1, kpp >= 1;
    }
    let b0: u64 = ((kpp as u64) * 10 - 1) / params.lambda + 1;
    proof {
        let l = params.lambda as int;
        assert(b0 <= kpp * 10) by (nonlinear_arith)
            requires l >= 1, b0 == (kpp * 10 - 1) / l + 1, kpp >= 1;
    }
    let buckets: usize = b0 as usize + 3;
    let s1: u64 = if s0 > buckets as u64 { s0 } else { buckets as u64 + 1 };
    let slots: usize = if s1 & (s1 - 1) == 0 { s1 as usize + 1 } else { s1 as usize };
    proof {
        assert(s1 >= 5);
        let t = (s1 + 1) as u64;
        if s1 & ((s1 - 1) as u64) == 0 {
            assert(t & ((t - 1) as u64) != 0) by (bit_vector)
                requires s1 & ((s1 - 1) as u64) == 0, s1 >= 5, t == s1 + 1, s1 < 0x1000_0000_0000_0000;
        }
        assert(slots <= 1001 * kpp);
        assert(slots >= kpp);
        assert(buckets <= 13 * kpp);
        assert(parts * slots <= 4000 * n) by (nonlinear_arith)
            requires slots <= 1001 * kpp, parts * kpp < 2 * n, parts >= 0;
        assert(parts * slots >= n) by (nonlinear_arith)
            requires slots >= kpp, parts * kpp >= n, parts >= 0;
        assert(parts * buckets <= 26 * n) by (nonlinear_arith)
            requires buckets <= 13 * kpp, parts * kpp < 2 * n, parts >= 0;
    }
    Layout {
        shards,
        parts,
        parts_per_shard: pps,
        slots,
        buckets,
        slots_total: parts * slots,
        buckets_total: parts * buckets,
    }
}

/// `a * d + b < ad * d` for `a < ad` and `b < d`: a position in a block of a
/// blocked array lies inside the array.
pub proof fn lemma_block_index(a: int, b: int, ad: int, d: int)
    requires
        0 <= a < ad,
        0 <= b < d,
    ensures
        0 <= a * d + b < ad * d,
{
    assert(0 <= a * d + b < ad * d) by (nonlinear_arith)
        requires 0 <= a < ad, 0 <= b < d;
}

/// A minimal perfect hash function over a set of keys fixed at construction.
///
/// A key goes to a bucket; the bucket's pilot picks a slot in the key's part;
/// a slot at `n` or above goes back below `n` through the remap table.
pub struct PtrHash<Key, BF, Hx> {
    pub params: PtrHashParams<BF>,
    /// The number of keys.
    pub n: usize,
    /// The sizes derived from `n` and the parameters.
    pub layout: Layout,
    pub rem_parts: FastReduce,
    pub rem_buckets: FastReduce,
    pub rem_buckets_total: FastReduce,
    pub rem_slots: SlotReduce,
    /// The global seed of the hashes.
    pub seed: u64,
    /// One pilot per bucket.
    pub pilots: Vec<u8>,
    /// For each slot `n + j`, the slot below `n` it is sent to, at `j`.
    pub remap: Vec<u32>,
    pub key: PhantomData<Key>,
    pub hasher: PhantomData<Hx>,
}

/// An index over `u64` keys with the Fx hash and linear buckets, unless told otherwise.
pub type DefaultPtrHash<Hx = crate::hash::FastIntHash, Key = u64, BF = Linear> = PtrHash<Key, BF, Hx>;

/// The pilot hash: `C * (p ^ seed)`, wrapping.
pub open spec fn hash_pilot_spec(seed: u64, p: u64) -> u64 {
    ((C as int * (p ^ seed) as int) % 0x1_0000_0000_0000_0000) as u64
}

/// The pilot hash of `p` under `seed`.
pub fn hash_pilot(seed: u64, p: u64) -> (r: u64)
    ensures
        r == hash_pilot_spec(seed, p),
{
    C.wrapping_mul(p ^ seed)
}

impl<Key, BF: BucketFn, Hx: KeyHasher<Key>> PtrHash<Key, BF, Hx> {
    /// The invariant of an index: the derived sizes and reducers agree with
    /// `n` and the parameters, there is one pilot per bucket, and the remap
    /// table is empty or covers every slot from `n` on, with targets below `n`.
    pub open spec fn wf(&self) -> bool {
        &&& self.n >= 1
        &&& self.params.valid()
        &&& self.layout == layout_spec(self.n, self.params)
        &&& self.layout.wf(self.n)
        &&& self.rem_parts.d == self.layout.parts
        &&& self.rem_buckets.d == self.layout.buckets
        &&& self.rem_buckets_total.d == self.layout.buckets_total
        &&& self.rem_slots.d == self.layout.slots
        &&& self.pilots@.len() == self.layout.buckets_total
        &&& (self.remap@.len() == 0 || self.remap@.len() == self.layout.slots_total - self.n)
        &&& forall|j: int| 0 <= j < self.remap@.len() ==> (#[trigger] self.remap@[j]) < self.n
    }

    /// Whether every index lies below `n`: slots past `n` are remapped, or there are none.
    pub open spec fn is_minimal(&self) -> bool {
        self.remap@.len() > 0 || self.layout.slots_total <= self.n
    }

    pub open spec fn part_spec(&self, h: KeyHash) -> int {
        mul_high_spec(self.layout.parts as u64, h.high)
    }

    /// The bucket within its part of a value `x`; a function that gives the
    /// bucket itself is held to the last bucket.
    pub open spec fn bucket_in_part_spec(&self, x: u64) -> int {
        if BF::outputs_bucket() {
            vstd::math::min(self.params.bucket_fn.call_spec(x) as int, self.layout.buckets - 1)
        } else {
            let y = if BF::is_linear() { x } else { self.params.bucket_fn.call_spec(x) };
            mul_high_spec(self.layout.buckets as u64, y)
        }
    }

    /// The global bucket of a hash.
    pub open spec fn bucket_spec(&self, h: KeyHash) -> int {
        if BF::is_linear() && !BF::outputs_bucket() {
            mul_high_spec(self.layout.buckets_total as u64, h.high)
        } else {
            self.part_spec(h) * self.layout.buckets + self.bucket_in_part_spec(
                mul_low_spec(self.layout.parts as u64, h.high) as u64,
            )
        }
    }

    pub open spec fn slot_in_part_spec(&self, h: KeyHash, hp: u64) -> int {
        ((h.low ^ hp) % (self.layout.slots as u64)) as int
    }

    /// The slot of a hash under a pilot.
    pub open spec fn slot_spec(&self, h: KeyHash, pilot: u64) -> int {
        self.part_spec(h) * self.layout.slots + self.slot_in_part_spec(
            h,
            hash_pilot_spec(self.seed, pilot),
        )
    }

    /// The slot of a hash under its bucket's pilot.
    pub open spec fn index_no_remap_hash(&self, h: KeyHash) -> int {
        self.slot_spec(h, self.pilots@[self.bucket_spec(h)] as u64)
    }

    /// The index of a hash: its slot, sent below `n` through the remap table.
    pub open spec fn index_hash(&self, h: KeyHash) -> int {
        let s = self.index_no_remap_hash(h);
        if s < self.n || self.remap@.len() == 0 {
            s
        } else {
            self.remap@[s - self.n] as int
        }
    }

    /// The hash of a key under this index's seed.
    pub open spec fn key_hash(&self, key: &Key) -> KeyHash {
        Hx::hash_spec(key, self.seed)
    }

    /// The index of a key.
    pub open spec fn index_of(&self, key: &Key) -> int {
        self.index_hash(self.key_hash(key))
    }

    /// The slot of a key, before remapping.
    pub open spec fn index_no_remap_of(&self, key: &Key) -> int {
        self.index_no_remap_hash(self.key_hash(key))
    }

    /// The number of keys.
    pub fn n(&self) -> (r: usize)
        ensures
            r == self.n,
    {
        self.n
    }

    /// One past the largest slot: the bound of `index_no_remap`.
    pub fn max_index(&self) -> (r: usize)
        ensures
            r == self.layout.slots_total,
    {
        self.layout.slots_total
    }

    /// The number of slots in one part.
    pub fn slots_per_part(&self) -> (r: usize)
        ensures
            r == self.layout.slots,
    {
        self.layout.slots
    }

    /// The space of the pilots and of the remap table, in thousandths of a
    /// bit per key.
    pub fn bits_per_element(&self) -> (r: (u64, u64))
        requires
            self.wf(),
        ensures
            r.0 as int == 8000 * (self.pilots@.len() as int) / (self.n as int),
            r.1 as int == 32000 * (self.remap@.len() as int) / (self.n as int),
    {
        assert(self.remap@.len() <= self.layout.slots_total);
        let remap_bits: u128 = 32000 * (self.remap.len() as u128) / (self.n as u128);
        assert(remap_bits <= 128_000_000) by (nonlinear_arith)
            requires
                remap_bits == 32000 * (self.remap@.len() as int) / (self.n as int),
                self.n >= 1,
                self.remap@.len() <= 4000 * self.n;
        (8000 * (self.pilots.len() as u64) / (self.n as u64), remap_bits as u64)
    }

    pub fn hash_key(&self, key: &Key) -> (r: KeyHash)
        ensures
            r == self.key_hash(key),
    {
        Hx::hash(key, self.seed)
    }

    pub fn part(&self, h: KeyHash) -> (r: usize)
        requires
            self.wf(),
        ensures
            r == self.part_spec(h),
            r < self.layout.parts,
    {
        self.rem_parts.reduce(h.high)
    }

    pub fn bucket_in_part(&self, x: u64) -> (r: usize)
        requires
            self.wf(),
        ensures
            r == self.bucket_in_part_spec(x),
            r < self.layout.buckets,
    {
        if BF::bucket_output() {
            let y = self.params.bucket_fn.call(x);
            if y >= self.layout.buckets as u64 {
                self.layout.buckets - 1
            } else {
                y as usize
            }
        } else if BF::linear() {
            self.rem_buckets.reduce(x)
        } else {
            self.rem_buckets.reduce(self.params.bucket_fn.call(x))
        }
    }

    pub fn bucket(&self, h: KeyHash) -> (r: usize)
        requires
            self.wf(),
        ensures
            r == self.bucket_spec(h),
            r < self.layout.buckets_total,
    {
        proof {
            lemma_block_index(0, 0, self.layout.parts as int, self.layout.buckets as int);
        }
        if BF::linear() && !BF::bucket_output() {
            self.rem_buckets_total.reduce(h.high)
        } else {
            let (part, rest) = self.rem_parts.reduce_with_remainder(h.high);
            let b = self.bucket_in_part(rest);
            proof {
                lemma_block_index(part as int, b as int, self.layout.parts as int, self.layout.buckets as int);
            }
            part * self.layout.buckets + b
        }
    }

    pub fn slot_in_part_hp(&self, h: KeyHash, hp: u64) -> (r: usize)
        requires
            self.wf(),
        ensures
            r == self.slot_in_part_spec(h, hp),
            r < self.layout.slots,
    {
        self.rem_slots.reduce(h.low ^ hp)
    }

    /// The global slot of a hash under a pilot hash.
    pub fn slot_hp(&self, h: KeyHash, hp: u64) -> (r: usize)
        requires
            self.wf(),
        ensures
            r == self.part_spec(h) * self.layout.slots + self.slot_in_part_spec(h, hp),
            r < self.layout.slots_total,
    {
        let part = self.part(h);
        let s = self.slot_in_part_hp(h, hp);
        proof {
            lemma_block_index(part as int, s as int, self.layout.parts as int, self.layout.slots as int);
        }
        part * self.layout.slots + s
    }

    pub fn slot(&self, h: KeyHash, pilot: u64) -> (r: usize)
        requires
            self.wf(),
        ensures
            r == self.slot_spec(h, pilot),
            r < self.layout.slots_total,
    {
        self.slot_hp(h, hash_pilot(self.seed, pilot))
    }

    /// The slot of a hash, before remapping.
    pub fn index_no_remap_of_hash(&self, h: KeyHash) -> (r: usize)
        requires
            self.wf(),
        ensures
            r == self.index_no_remap_hash(h),
            r < self.layout.slots_total,
    {
        let b = self.bucket(h);
        let pilot = self.pilots[b] as u64;
        self.slot(h, pilot)
    }

    /// Send a slot below `n` through the remap table, where it lies at `n` or above.
    pub fn remap_slot(&self, slot: usize) -> (r: usize)
        requires
            self.wf(),
            slot < self.layout.slots_total,
        ensures
            r == (if slot < self.n || self.remap@.len() == 0 {
                slot as int
            } else {
                self.remap@[slot - self.n] as int
            }),
            self.is_minimal() ==> r < self.n,
    {
        if slot < self.n || self.remap.len() == 0 {
            slot
        } else {
            let t = Packed::index(&self.remap, slot - self.n);
            assert(t == self.remap@[slot - self.n] as u64);
            t as usize
        }
    }

    /// The index of a hash.
    pub fn index_of_hash(&self, h: KeyHash) -> (r: usize)
        requires
            self.wf(),
        ensures
            r == self.index_hash(h),
            r < self.layout.slots_total,
            self.is_minimal() ==> r < self.n,
    {
        let s = self.index_no_remap_of_hash(h);
        self.remap_slot(s)
    }

    /// The index of a key: for the keys the index was built on, a distinct
    /// value in `0..n`; for another key, some value in that range.
    pub fn index(&self, key: &Key) -> (r: usize)
        requires
            self.wf(),
        ensures
            r == self.index_of(key),
            self.is_minimal() ==> r < self.n,
    {
        let h = self.hash_key(key);
        self.index_of_hash(h)
    }

    /// The slot of a key, in `0..max_index()`.
    pub fn index_no_remap(&self, key: &Key) -> (r: usize)
        requires
            self.wf(),
        ensures
            r == self.index_no_remap_of(key),
            r < self.layout.slots_total,
    {
        let h = self.hash_key(key);
        self.index_no_remap_of_hash(h)
    }

    /// The slot of a key where there is a single part: the part and its
    /// offset are skipped.
    pub fn index_single_part_no_remap(&self, key: &Key) -> (r: usize)
        requires
            self.wf(),
            self.layout.parts == 1,
        ensures
            r == self.index_no_remap_of(key),
            r < self.layout.slots_total,
    {
        let h = self.hash_key(key);
        let b = self.bucket_in_part(h.high);
        proof {
            lemma_product_bounds(1, h.high);
            assert(mul_low_spec(1, h.high) == h.high);
            assert(mul_high_spec(1, h.high) == 0);
            assert(self.layout.buckets_total == self.layout.buckets);
            if BF::is_linear() && !BF::outputs_bucket() {
                assert(b == mul_high_spec(self.layout.buckets as u64, h.high));
            } else {
                assert(self.part_spec(h) == 0);
                assert(self.part_spec(h) * self.layout.buckets == 0);
            }
            assert(b == self.bucket_spec(h));
        }
        let pilot = self.pilots[b] as u64;
        let r = self.slot_in_part_hp(h, hash_pilot(self.seed, pilot));
        assert(r == self.slot_spec(h, pilot));
        r
    }

    /// The index of a key where there is a single part.
    pub fn index_single_part(&self, key: &Key) -> (r: usize)
        requires
            self.wf(),
            self.layout.parts == 1,
        ensures
            r == self.index_of(key),
            self.is_minimal() ==> r < self.n,
    {
        let s = self.index_single_part_no_remap(key);
        self.remap_slot(s)
    }

    /// The parameters with the bucket function set up for the buckets of a part.
    pub open spec fn configured_params(n: usize, params: PtrHashParams<BF>) -> PtrHashParams<BF> {
        PtrHashParams {
            bucket_fn: params.bucket_fn.configured(layout_spec(n, params).buckets as u64),
            ..params
        }
    }

    /// An index over `n` keys with the given parameters, seed 0, pilots all
    /// zero and no remap table: the shape that construction fills in.
    pub fn init(n: usize, params: PtrHashParams<BF>) -> (r: Self)
        requires
            1 <= n,
            key_count_ok(n),
            params.valid(),
        ensures
            r.wf(),
            r.n == n,
            r.params == Self::configured_params(n, params),
            r.seed == 0,
            r.remap@.len() == 0,
            forall|b: int| 0 <= b < r.pilots@.len() ==> r.pilots@[b] == 0,
    {
        let layout = layout(n, &params);
        let mut params = params;
        proof {
            assert(layout.buckets <= 26 * n) by (nonlinear_arith)
                requires layout.buckets_total == layout.parts * layout.buckets, layout.parts >= 1,
                    layout.buckets_total <= 26 * n, layout.buckets >= 0;
        }
        params.bucket_fn.set_buckets_per_part(layout.buckets as u64);
        let mut pilots: Vec<u8> = Vec::new();
        let mut b: usize = 0;
        while b < layout.buckets_total
            invariant
                b <= layout.buckets_total,
                pilots@.len() == b,
                forall|k: int| 0 <= k < b ==> pilots@[k] == 0,
            decreases layout.buckets_total - b,
        {
            pilots.push(0);
            b = b + 1;
        }
        PtrHash {
            params,
            n,
            layout,
            rem_parts: FastReduce::new(layout.parts),
            rem_buckets: FastReduce::new(layout.buckets),
            rem_buckets_total: FastReduce::new(layout.buckets_total),
            rem_slots: SlotReduce::new(layout.slots),
            seed: 0,
            pilots,
            remap: Vec::new(),
            key: PhantomData,
            hasher: PhantomData,
        }
    }

    /// Whether `pilots` and `remap` fit an index over `n` keys with `params`.
    pub open spec fn parts_fit(n: usize, params: PtrHashParams<BF>, pilots: Seq<u8>, remap: Seq<u32>) -> bool {
        let l = layout_spec(n, params);
        &&& pilots.len() == l.buckets_total
        &&& (remap.len() == 0 || remap.len() == l.slots_total - n)
        &&& forall|j: int| 0 <= j < remap.len() ==> (#[trigger] remap[j]) < n
    }

    /// An index rebuilt from what a caller kept of another one: the
    /// parameters, the number of keys, the seed, the pilots and the remap
    /// table. The derived sizes are computed as at construction.
    pub fn from_parts(
        n: usize,
        params: PtrHashParams<BF>,
        seed: u64,
        pilots: Vec<u8>,
        remap: Vec<u32>,
    ) -> (r: Option<Self>)
        requires
            1 <= n,
            key_count_ok(n),
            params.valid(),
        ensures
            r is Some <==> Self::parts_fit(n, params, pilots@, remap@),
            r matches Some(ph) ==> ph.wf() && ph.n == n && ph.params == Self::configured_params(n, params)
                && ph.seed == seed
                && ph.pilots@ == pilots@ && ph.remap@ == remap@,
    {
        let mut ph = Self::init(n, params);
        if pilots.len() != ph.layout.buckets_total {
            return None;
        }
        if remap.len() != 0 && (ph.layout.slots_total < n || remap.len() != ph.layout.slots_total - n) {
            assert(!Self::parts_fit(n, params, pilots@, remap@));
            return None;
        }
        let mut j: usize = 0;
        while j < remap.len()
            invariant
                j <= remap@.len(),
                forall|k: int| 0 <= k < j ==> remap@[k] < n,
            decreases remap@.len() - j,
        {
            if remap[j] as usize >= n {
                return None;
            }
            j = j + 1;
        }
        ph.seed = seed;
        ph.pilots = pilots;
        ph.remap = remap;
        Some(ph)
    }

    /// Two indices that agree on the number of keys, the parameters, the seed,
    /// the pilots and the remap table give every key the same index and the
    /// same slot: those values determine the index.
    pub proof fn lemma_round_trip(a: &Self, b: &Self, key: &Key)
        requires
            a.wf(),
            b.wf(),
            a.n == b.n,
            a.params == b.params,
            a.seed == b.seed,
            a.pilots@ == b.pilots@,
            a.remap@ == b.remap@,
        ensures
            a.index_of(key) == b.index_of(key),
            a.index_no_remap_of(key) == b.index_no_remap_of(key),
    {
    }
}

} // verus!
