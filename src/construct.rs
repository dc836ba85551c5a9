use vstd::prelude::*;
use rand_chacha::ChaCha8Rng;
use crate::bucket_fn::BucketFn;
use crate::error::BuildError;
use crate::hash::{KeyHash, KeyHasher};
use crate::pack::{MutPacked, Packed};
use crate::ptr_hash::{hash_pilot, key_count_ok, lemma_block_index, PtrHash, PtrHashParams};

verus! {

/// The generator of the global seeds and of the start pilots, carried as an
/// opaque value.
#[verifier::external_type_specification]
#[verifier::external_body]
pub struct ExChaCha8Rng(ChaCha8Rng);

/// Relies on rand_core::SeedableRng::seed_from_u64 for ChaCha8Rng: a
/// generator whose stream is fixed by the seed.
#[verifier::external_body]
fn seeded_rng(seed: u64) -> (r: ChaCha8Rng) {
    <ChaCha8Rng as rand::SeedableRng>::seed_from_u64(seed)
}

/// Relies on rand_core::RngCore::next_u64 for ChaCha8Rng: the next word of the stream.
#[verifier::external_body]
fn next_u64(rng: &mut ChaCha8Rng) -> (r: u64) {
    rand::RngCore::next_u64(rng)
}

/// The `i`-th 64-bit word of the ChaCha8 stream seeded with `seed`.
pub uninterp spec fn chacha8_word(seed: u64, i: int) -> u64;

/// Relies on rand_chacha::ChaCha8Rng, made by SeedableRng::seed_from_u64 and
/// read by RngCore::next_u64: the first `count` words of the stream, which
/// depend on the seed alone.
#[verifier::external_body]
fn chacha8_words(seed: u64, count: usize) -> (r: Vec<u64>)
    ensures
        r@.len() == count,
        forall|i: int| 0 <= i < count ==> r@[i] == chacha8_word(seed, i),
{
    let mut rng = <ChaCha8Rng as rand::SeedableRng>::seed_from_u64(seed);
    (0..count).map(|_| rand::RngCore::next_u64(&mut rng)).collect()
}

/// The seed of the generator that draws the global seeds of the attempts.
pub const SEED_STREAM: u64 = 31415;

/// The number of global seeds tried before construction gives up.
pub const MAX_TRIES: usize = 10;

/// The number of pilots: one byte.
pub const NUM_PILOTS: u64 = 256;

/// How many recently evicted buckets a displacement may not evict again.
pub const RECENT: usize = 16;

/// The state of one construction attempt: a pilot per bucket, and per slot
/// whether it is taken and which bucket owns it (the global bucket plus one,
/// or 0 for none).
pub struct Placement {
    pub pilots: Vec<u8>,
    pub taken: Vec<bool>,
    pub owner: Vec<usize>,
}

/// Why one part could not be built under the current seed.
pub enum PartFailure {
    /// The eviction chains grew past the budget.
    Unsolvable,
    /// Two hashes of a bucket of this size collide under every pilot.
    Indistinguishable(usize),
}

/// The number of taken slots in `lo..hi`.
pub open spec fn taken_count(t: Seq<bool>, lo: int, hi: int) -> int
    decreases hi - lo,
{
    if hi <= lo {
        0
    } else {
        taken_count(t, lo, hi - 1) + if t[hi - 1] { 1int } else { 0int }
    }
}

/// The free slots below `k`, in increasing order.
pub open spec fn free_below(t: Seq<bool>, k: int) -> Seq<u64>
    decreases k,
{
    if k <= 0 {
        Seq::empty()
    } else if !t[k - 1] {
        free_below(t, k - 1).push((k - 1) as u64)
    } else {
        free_below(t, k - 1)
    }
}

/// Where the remap table sends slot `s >= n`: the free slot below `n` whose
/// rank is the number of taken slots in `n..s`; past the last free slot, the
/// last one; 0 where there is none.
pub open spec fn remap_target(t: Seq<bool>, n: int, s: int) -> int {
    let f = free_below(t, n);
    let c = taken_count(t, n, s);
    if c < f.len() {
        f[c] as int
    } else if f.len() > 0 {
        f[f.len() - 1] as int
    } else {
        0
    }
}

proof fn lemma_count_nonneg(t: Seq<bool>, lo: int, hi: int)
    ensures
        taken_count(t, lo, hi) >= 0,
    decreases hi - lo,
{
    if hi > lo {
        lemma_count_nonneg(t, lo, hi - 1);
    }
}

proof fn lemma_free_plus_taken(t: Seq<bool>, k: int)
    requires
        0 <= k,
    ensures
        free_below(t, k).len() + taken_count(t, 0, k) == k,
    decreases k,
{
    if k > 0 {
        lemma_free_plus_taken(t, k - 1);
    }
}

proof fn lemma_count_split(t: Seq<bool>, lo: int, mid: int, hi: int)
    requires
        lo <= mid <= hi,
    ensures
        taken_count(t, lo, hi) == taken_count(t, lo, mid) + taken_count(t, mid, hi),
        taken_count(t, lo, mid) <= taken_count(t, lo, hi),
    decreases hi - mid,
{
    if hi > mid {
        lemma_count_split(t, lo, mid, hi - 1);
    }
}

proof fn lemma_free_below_sorted(t: Seq<bool>, k: int)
    requires
        0 <= k <= u64::MAX,
    ensures
        forall|a: int, b: int| 0 <= a < b < free_below(t, k).len() ==> free_below(t, k)[a] < free_below(t, k)[b],
        forall|a: int| 0 <= a < free_below(t, k).len() ==> (#[trigger] free_below(t, k)[a]) < k,
    decreases k,
{
    if k > 0 {
        lemma_free_below_sorted(t, k - 1);
        let p = free_below(t, k - 1);
        let f = free_below(t, k);
        if !t[k - 1] {
            assert(f == p.push((k - 1) as u64));
            assert forall|a: int, b: int| 0 <= a < b < f.len() implies f[a] < f[b] by {
                assert(f[a] == p[a]);
                if b == f.len() - 1 {
                    assert(p[a] < k - 1);
                    assert(f[b] == k - 1);
                } else {
                    assert(f[b] == p[b]);
                    assert(p[a] < p[b]);
                }
            }
            assert forall|a: int| 0 <= a < f.len() implies (#[trigger] f[a]) < k by {
                if a < p.len() {
                    assert(f[a] == p[a]);
                }
            }
        }
    }
}

proof fn lemma_free_not_taken(t: Seq<bool>, k: int)
    requires
        0 <= k <= t.len(),
        k <= u64::MAX,
    ensures
        forall|a: int| 0 <= a < free_below(t, k).len() ==> !t[#[trigger] free_below(t, k)[a] as int],
    decreases k,
{
    if k > 0 {
        lemma_free_not_taken(t, k - 1);
        let p = free_below(t, k - 1);
        let f = free_below(t, k);
        assert forall|a: int| 0 <= a < f.len() implies !t[#[trigger] f[a] as int] by {
            if a < p.len() {
                assert(f[a] == p[a]);
            }
        }
    }
}

/// Where exactly `n` of the first `total` slots are taken, the remap table
/// sends each taken slot at or past `n` to a free slot below `n`, and two such
/// slots to two different free slots.
proof fn lemma_remap_targets(t: Seq<bool>, n: int, total: int, a: int, b: int)
    requires
        0 < n < total <= t.len(),
        total <= u64::MAX,
        taken_count(t, 0, total) == n,
        n <= a < total,
        n <= b < total,
        t[a],
        t[b],
    ensures
        0 <= remap_target(t, n, a) < n,
        !t[remap_target(t, n, a)],
        a != b ==> remap_target(t, n, a) != remap_target(t, n, b),
{
    let f = free_below(t, n);
    lemma_free_plus_taken(t, n);
    lemma_count_split(t, 0, n, total);
    lemma_free_below_sorted(t, n);
    lemma_free_not_taken(t, n);
    lemma_count_split(t, n, a + 1, total);
    lemma_count_split(t, n, b + 1, total);
    assert(taken_count(t, n, a + 1) == taken_count(t, n, a) + 1);
    assert(taken_count(t, n, b + 1) == taken_count(t, n, b) + 1);
    assert(f.len() == taken_count(t, n, total));
    let ca = taken_count(t, n, a);
    let cb = taken_count(t, n, b);
    assert(0 <= ca) by {
        lemma_count_split(t, n, n, a);
        lemma_count_nonneg(t, n, a);
    }
    assert(0 <= cb) by {
        lemma_count_nonneg(t, n, b);
    }
    assert(ca < f.len());
    assert(f[ca] < n);
    if a < b {
        lemma_count_split(t, n, a + 1, b);
        assert(ca < cb);
        assert(f[ca] < f[cb]);
    } else if b < a {
        lemma_count_split(t, n, b + 1, a);
        assert(cb < ca);
        assert(f[cb] < f[ca]);
    }
}

/// Whether `v` holds `len` copies of `x`.
pub open spec fn filled<T>(v: Seq<T>, len: nat, x: T) -> bool {
    v.len() == len && forall|i: int| 0 <= i < len ==> v[i] == x
}

fn filled_vec<T: Copy>(len: usize, x: T) -> (r: Vec<T>)
    ensures
        filled(r@, len as nat, x),
{
    let mut r: Vec<T> = Vec::new();
    let mut i: usize = 0;
    while i < len
        invariant
            i <= len,
            filled(r@, i as nat, x),
        decreases len - i,
    {
        r.push(x);
        i = i + 1;
    }
    r
}

/// `x * x`, or `u64::MAX` where that does not fit.
pub fn square_saturating(x: u64) -> (r: u64)
    ensures
        x * x <= u64::MAX ==> r == x * x,
        x * x > u64::MAX ==> r == u64::MAX,
{
    if x <= 0xFFFF_FFFF {
        assert(x * x <= 0xFFFF_FFFF * 0xFFFF_FFFF) by (nonlinear_arith)
            requires x <= 0xFFFF_FFFF;
        x * x
    } else {
        assert(x * x > u64::MAX) by (nonlinear_arith)
            requires x > 0xFFFF_FFFF;
        u64::MAX
    }
}

impl<Key, BF: BucketFn, Hx: KeyHasher<Key>> PtrHash<Key, BF, Hx> {
    /// The global slot of the `k`-th key of a bucket under the pilot hash `hp`.
    pub open spec fn key_slot(&self, bucket: Seq<KeyHash>, hp: u64, k: int) -> int {
        self.part_spec(bucket[k]) * self.layout.slots + self.slot_in_part_spec(bucket[k], hp)
    }

    /// Whether the keys of a bucket go to distinct slots under `hp`.
    pub open spec fn slots_distinct(&self, bucket: Seq<KeyHash>, hp: u64) -> bool {
        forall|a: int, b: int| 0 <= a < b < bucket.len() ==> self.key_slot(bucket, hp, a) != self.key_slot(bucket, hp, b)
    }

    /// Whether `after` is `before` with the bucket's slots under `hp` taken,
    /// where they were all free and distinct.
    pub open spec fn took(&self, bucket: Seq<KeyHash>, hp: u64, before: Seq<bool>, after: Seq<bool>) -> bool {
        &&& self.slots_distinct(bucket, hp)
        &&& forall|k: int| 0 <= k < bucket.len() ==> !before[#[trigger] self.key_slot(bucket, hp, k)]
        &&& after.len() == before.len()
        &&& forall|x: int| 0 <= x < after.len() ==> #[trigger] after[x] == (before[x]
            || exists|k: int| 0 <= k < bucket.len() && self.key_slot(bucket, hp, k) == x)
    }

    /// Mark the slots of `bucket` under the pilot hash `hp` as taken, where all
    /// of them are free and distinct; otherwise leave `taken` as it was.
    fn try_take_pilot(&self, bucket: &Vec<KeyHash>, hp: u64, taken: &mut Vec<bool>) -> (r: bool)
        requires
            self.wf(),
            old(taken)@.len() == self.layout.slots_total,
        ensures
            final(taken)@.len() == self.layout.slots_total,
            r ==> self.took(bucket@, hp, old(taken)@, final(taken)@),
            !r ==> final(taken)@ == old(taken)@,
    {
        let ghost start = taken@;
        let mut i: usize = 0;
        while i < bucket.len()
            invariant
                self.wf(),
                taken@.len() == self.layout.slots_total,
                start.len() == self.layout.slots_total,
                start == old(taken)@,
                i <= bucket@.len(),
                forall|a: int, b: int| 0 <= a < b < i ==> self.key_slot(bucket@, hp, a) != self.key_slot(bucket@, hp, b),
                forall|k: int| 0 <= k < i ==> !start[#[trigger] self.key_slot(bucket@, hp, k)],
                forall|k: int| 0 <= k < i ==> 0 <= #[trigger] self.key_slot(bucket@, hp, k) < self.layout.slots_total,
                forall|x: int| 0 <= x < taken@.len() ==> #[trigger] taken@[x] == (start[x]
                    || exists|k: int| 0 <= k < i && self.key_slot(bucket@, hp, k) == x),
            decreases bucket@.len() - i,
        {
            let s = self.slot_hp(bucket[i], hp);
            assert(s == self.key_slot(bucket@, hp, i as int));
            if taken[s] {
                let mut j: usize = 0;
                while j < i
                    invariant
                        self.wf(),
                        taken@.len() == self.layout.slots_total,
                        start.len() == self.layout.slots_total,
                        start == old(taken)@,
                        j <= i,
                        i < bucket@.len(),
                        forall|a: int, b: int| 0 <= a < b < i ==> self.key_slot(bucket@, hp, a) != self.key_slot(bucket@, hp, b),
                        forall|k: int| 0 <= k < i ==> !start[#[trigger] self.key_slot(bucket@, hp, k)],
                        forall|x: int| 0 <= x < taken@.len() ==> #[trigger] taken@[x] == (start[x]
                            || exists|k: int| j <= k < i && self.key_slot(bucket@, hp, k) == x),
                    decreases i - j,
                {
                    let t = self.slot_hp(bucket[j], hp);
                    assert(t == self.key_slot(bucket@, hp, j as int));
                    let ghost before = taken@;
                    taken.set(t, false);
                    assert forall|x: int| 0 <= x < taken@.len() implies #[trigger] taken@[x] == (start[x]
                        || exists|k: int| j + 1 <= k < i && self.key_slot(bucket@, hp, k) == x) by {
                        if x == t {
                            if exists|k: int| j + 1 <= k < i && self.key_slot(bucket@, hp, k) == x {
                                let k = choose|k: int| j + 1 <= k < i && self.key_slot(bucket@, hp, k) == x;
                                assert(self.key_slot(bucket@, hp, j as int) != self.key_slot(bucket@, hp, k));
                            }
                        } else {
                            assert(before[x] == taken@[x]);
                            if exists|k: int| j <= k < i && self.key_slot(bucket@, hp, k) == x {
                                let k = choose|k: int| j <= k < i && self.key_slot(bucket@, hp, k) == x;
                                assert(k != j);
                            }
                        }
                    }
                    j = j + 1;
                }
                assert(taken@ =~= start);
                return false;
            }
            let ghost before = taken@;
            taken.set(s, true);
            assert forall|k: int| 0 <= k < i implies self.key_slot(bucket@, hp, k) != s by {
                assert(before[self.key_slot(bucket@, hp, k)]);
            }
            assert forall|x: int| 0 <= x < taken@.len() implies #[trigger] taken@[x] == (start[x]
                || exists|k: int| 0 <= k < i + 1 && self.key_slot(bucket@, hp, k) == x) by {
                if x == s {
                    assert(self.key_slot(bucket@, hp, i as int) == x);
                } else {
                    assert(before[x] == taken@[x]);
                    if exists|k: int| 0 <= k < i + 1 && self.key_slot(bucket@, hp, k) == x {
                        let k = choose|k: int| 0 <= k < i + 1 && self.key_slot(bucket@, hp, k) == x;
                        assert(k != i);
                    }
                }
            }
            i = i + 1;
        }
        true
    }

    /// Whether some slot of `bucket` under the pilot hash `hp` is taken. The
    /// loop does not stop early, so that it compiles to code without branches.
    fn any_taken(&self, bucket: &Vec<KeyHash>, hp: u64, taken: &Vec<bool>) -> (r: bool)
        requires
            self.wf(),
            taken@.len() == self.layout.slots_total,
    {
        let mut bad = false;
        let mut i: usize = 0;
        while i < bucket.len()
            invariant
                self.wf(),
                taken@.len() == self.layout.slots_total,
                i <= bucket@.len(),
            decreases bucket@.len() - i,
        {
            let t = taken[self.slot_hp(bucket[i], hp)];
            bad = bad || t;
            i = i + 1;
        }
        bad
    }

    /// The first pilot under which every slot of `bucket` is free and no two
    /// of its keys share a slot; those slots are then taken.
    fn find_pilot(&self, bucket: &Vec<KeyHash>, taken: &mut Vec<bool>) -> (r: Option<(u64, u64)>)
        requires
            self.wf(),
            old(taken)@.len() == self.layout.slots_total,
        ensures
            final(taken)@.len() == self.layout.slots_total,
            r matches Some((p, hp)) ==> p < NUM_PILOTS && hp == crate::ptr_hash::hash_pilot_spec(self.seed, p)
                && self.took(bucket@, hp, old(taken)@, final(taken)@),
            r is None ==> final(taken)@ == old(taken)@,
    {
        let mut p: u64 = 0;
        while p < NUM_PILOTS
            invariant
                self.wf(),
                taken@.len() == self.layout.slots_total,
                taken@ == old(taken)@,
                p <= NUM_PILOTS,
            decreases NUM_PILOTS - p,
        {
            let hp = hash_pilot(self.seed, p);
            if !self.any_taken(bucket, hp, taken) && self.try_take_pilot(bucket, hp, taken) {
                return Some((p, hp));
            }
            p = p + 1;
        }
        None
    }

    /// Whether two keys of `bucket` share a slot under the pilot hash `hp`.
    fn duplicate_slots(&self, bucket: &Vec<KeyHash>, hp: u64) -> (r: bool)
        requires
            self.wf(),
        ensures
            r == !self.slots_distinct(bucket@, hp),
    {
        let mut i: usize = 0;
        while i < bucket.len()
            invariant
                self.wf(),
                i <= bucket@.len(),
                forall|a: int, b: int| 0 <= a < i && a < b < bucket@.len() ==> self.key_slot(bucket@, hp, a) != self.key_slot(bucket@, hp, b),
            decreases bucket@.len() - i,
        {
            let si = self.slot_hp(bucket[i], hp);
            let mut j: usize = i + 1;
            while j < bucket.len()
                invariant
                    self.wf(),
                    i < j <= bucket@.len(),
                    si == self.key_slot(bucket@, hp, i as int),
                    forall|a: int, b: int| 0 <= a < i && a < b < bucket@.len() ==> self.key_slot(bucket@, hp, a) != self.key_slot(bucket@, hp, b),
                    forall|b: int| i < b < j ==> self.key_slot(bucket@, hp, i as int) != self.key_slot(bucket@, hp, b),
                decreases bucket@.len() - j,
            {
                if self.slot_hp(bucket[j], hp) == si {
                    assert(self.key_slot(bucket@, hp, i as int) == self.key_slot(bucket@, hp, j as int));
                    return true;
                }
                j = j + 1;
            }
            i = i + 1;
        }
        false
    }

    /// The buckets `lo..lo + len` of `buckets`, largest first.
    fn bucket_order(buckets: &Vec<Vec<KeyHash>>, lo: usize, len: usize) -> (r: Vec<usize>)
        requires
            lo + len <= buckets@.len(),
        ensures
            forall|i: int| 0 <= i < r@.len() ==> lo <= #[trigger] r@[i] < lo + len,
            forall|i: int, j: int|
                0 <= i < j < r@.len() ==> buckets@[r@[i] as int]@.len() >= buckets@[r@[j] as int]@.len(),
            forall|k: usize| lo <= k < lo + len ==> #[trigger] r@.contains(k),
            r@.no_duplicates(),
    {
        let total = buckets.len();
        let hi = lo + len;
        let mut max_len: usize = 0;
        let mut b: usize = lo;
        while b < hi
            invariant
                hi == lo + len,
                lo <= b <= hi <= buckets@.len(),
                forall|k: int| lo <= k < b ==> buckets@[k]@.len() <= max_len,
            decreases hi - b,
        {
            if buckets[b].len() > max_len {
                max_len = buckets[b].len();
            }
            b = b + 1;
        }
        let mut order: Vec<usize> = Vec::new();
        // Sizes `size`, `size - 1`, ..., 0 are still to be collected; `done` once 0 is.
        let mut size: usize = max_len;
        let mut done = false;
        while !done
            invariant
                hi == lo + len,
                size <= max_len,
                forall|k: int| lo <= k < hi ==> buckets@[k]@.len() <= max_len,
                hi <= buckets@.len(),
                forall|i: int| 0 <= i < order@.len() ==> lo <= #[trigger] order@[i] < hi,
                !done ==> forall|i: int| 0 <= i < order@.len() ==> buckets@[#[trigger] order@[i] as int]@.len() > size,
                forall|i: int, j: int|
                    0 <= i < j < order@.len() ==> buckets@[order@[i] as int]@.len() >= buckets@[order@[j] as int]@.len(),
                !done ==> forall|k: usize| lo <= k < hi && buckets@[k as int]@.len() > size ==> #[trigger] order@.contains(k),
                done ==> forall|k: usize| lo <= k < hi ==> #[trigger] order@.contains(k),
                order@.no_duplicates(),
            decreases size, if done { 0int } else { 1int },
        {
            let mut k: usize = lo;
            let ghost start_len = order@.len();
            while k < hi
                invariant
                    hi == lo + len,
                    lo <= k <= hi <= buckets@.len(),
                    start_len <= order@.len(),
                    forall|i: int| 0 <= i < order@.len() ==> lo <= #[trigger] order@[i] < hi,
                    forall|i: int| 0 <= i < start_len ==> buckets@[#[trigger] order@[i] as int]@.len() > size,
                    forall|i: int| start_len <= i < order@.len() ==> buckets@[#[trigger] order@[i] as int]@.len() == size,
                    forall|i: int, j: int|
                        0 <= i < j < order@.len() ==> buckets@[order@[i] as int]@.len() >= buckets@[order@[j] as int]@.len(),
                    forall|c: usize| lo <= c < hi && buckets@[c as int]@.len() > size ==> #[trigger] order@.contains(c),
                    forall|c: usize| lo <= c < k && buckets@[c as int]@.len() == size ==> #[trigger] order@.contains(c),
                    forall|i: int| start_len <= i < order@.len() ==> #[trigger] order@[i] < k,
                    order@.no_duplicates(),
                decreases hi - k,
            {
                if buckets[k].len() == size {
                    let ghost before = order@;
                    order.push(k);
                    assert(order@[before.len() as int] == k);
                    assert forall|c: usize| lo <= c < hi && buckets@[c as int]@.len() > size implies #[trigger] order@.contains(c) by {
                        assert(before.contains(c));
                        let w = choose|w: int| 0 <= w < before.len() && before[w] == c;
                        assert(order@[w] == c);
                    }
                    assert forall|c: usize| lo <= c < k + 1 && buckets@[c as int]@.len() == size implies #[trigger] order@.contains(c) by {
                        if c < k {
                            assert(before.contains(c));
                            let w = choose|w: int| 0 <= w < before.len() && before[w] == c;
                            assert(order@[w] == c);
                        }
                    }
                    assert forall|a: int, b: int| 0 <= a < b < order@.len() implies order@[a] != order@[b] by {
                        if b == before.len() {
                            if a >= start_len {
                                assert(before[a] < k);
                            } else {
                                assert(buckets@[before[a] as int]@.len() > size);
                            }
                        } else {
                            assert(before[a] != before[b]);
                        }
                    }
                }
                k = k + 1;
            }
            if size == 0 {
                done = true;
            } else {
                size = size - 1;
            }
        }
        order
    }

    /// The sizes of the construction state: a pilot per bucket, and per slot
    /// whether it is taken and which bucket owns it (the global bucket plus
    /// one, or 0 for none).
    pub open spec fn state_ok(&self, pilots: Seq<u8>, taken: Seq<bool>, owner: Seq<usize>) -> bool {
        &&& pilots.len() == self.layout.buckets_total
        &&& taken.len() == self.layout.slots_total
        &&& owner.len() == self.layout.slots_total
        &&& forall|s: int| 0 <= s < owner.len() ==> #[trigger] owner[s] <= self.layout.buckets_total
    }

    /// Free the slots of the bucket `bucket` placed with pilot `pilot`.
    fn release(&self, bucket: &Vec<KeyHash>, pilot: u8, pilots: &Vec<u8>, taken: &mut Vec<bool>, owner: &mut Vec<usize>)
        requires
            self.wf(),
            self.state_ok(pilots@, old(taken)@, old(owner)@),
        ensures
            self.state_ok(pilots@, final(taken)@, final(owner)@),
    {
        let hp = hash_pilot(self.seed, pilot as u64);
        let mut k: usize = 0;
        while k < bucket.len()
            invariant
                self.wf(),
                self.state_ok(pilots@, taken@, owner@),
                k <= bucket@.len(),
            decreases bucket@.len() - k,
        {
            let s = self.slot_hp(bucket[k], hp);
            owner.set(s, 0);
            taken.set(s, false);
            k = k + 1;
        }
    }

    /// The cost of placing `bucket` with the pilot hash `hp`: the sum of the
    /// squared sizes of the buckets it would evict, or `None` where one of
    /// them was evicted recently or the sum reaches `cap`, so that the pilot
    /// can be passed over.
    fn collision_score(
        &self,
        buckets: &Vec<Vec<KeyHash>>,
        first: usize,
        bucket: &Vec<KeyHash>,
        hp: u64,
        recent: &Vec<usize>,
        owner: &Vec<usize>,
        cap: u64,
    ) -> (r: Option<u64>)
        requires
            self.wf(),
            owner@.len() == self.layout.slots_total,
        ensures
            r matches Some(score) ==> score < cap,
    {
        let mut score: u64 = 0;
        let mut k: usize = 0;
        while k < bucket.len()
            invariant
                self.wf(),
                owner@.len() == self.layout.slots_total,
                k <= bucket@.len(),
                score < cap || k == 0,
            decreases bucket@.len() - k,
        {
            let o = owner[self.slot_hp(bucket[k], hp)];
            if o != 0 {
                let b2 = o - 1;
                let mut j: usize = 0;
                while j < recent.len()
                    invariant
                        j <= recent@.len(),
                    decreases recent@.len() - j,
                {
                    if recent[j] == b2 {
                        return None;
                    }
                    j = j + 1;
                }
                if first <= b2 && b2 - first < buckets.len() {
                    let l = buckets[b2 - first].len() as u64;
                    score = score.saturating_add(square_saturating(l));
                }
            }
            if score >= cap {
                return None;
            }
            k = k + 1;
        }
        if score >= cap {
            return None;
        }
        Some(score)
    }

    /// Take the entry of largest size (then largest bucket) off the stack.
    fn pop_largest(stack: &mut Vec<(usize, usize)>, bound: usize) -> (r: (usize, usize))
        requires
            old(stack)@.len() > 0,
            forall|k: int| 0 <= k < old(stack)@.len() ==> (#[trigger] old(stack)@[k]).1 < bound,
        ensures
            final(stack)@.len() == old(stack)@.len() - 1,
            r.1 < bound,
            old(stack)@.contains(r),
            forall|k: int| 0 <= k < old(stack)@.len() ==> (#[trigger] old(stack)@[k]).0 < r.0
                || (old(stack)@[k].0 == r.0 && old(stack)@[k].1 <= r.1),
            forall|k: int| 0 <= k < final(stack)@.len() ==> (#[trigger] final(stack)@[k]).1 < bound,
    {
        let mut m: usize = 0;
        let mut k: usize = 1;
        while k < stack.len()
            invariant
                m < k <= stack@.len(),
                forall|j: int| 0 <= j < k ==> (#[trigger] stack@[j]).0 < stack@[m as int].0
                    || (stack@[j].0 == stack@[m as int].0 && stack@[j].1 <= stack@[m as int].1),
            decreases stack@.len() - k,
        {
            let (ks, kb) = stack[k];
            let (ms, mb) = stack[m];
            if ks > ms || (ks == ms && kb > mb) {
                m = k;
            }
            k = k + 1;
        }
        let ghost before = stack@;
        let r = stack.remove(m);
        assert(before[m as int] == r);
        assert forall|k: int| 0 <= k < stack@.len() implies (#[trigger] stack@[k]).1 < bound by {
            if k < m {
                assert(stack@[k] == before[k]);
            } else {
                assert(stack@[k] == before[k + 1]);
            }
        }
        r
    }

    /// Give a pilot to every bucket `lo..lo + buckets` of `buckets`, largest
    /// first, evicting placed buckets where no pilot finds free slots. The
    /// buckets are local to a shard whose first global bucket is `first`.
    /// The part is given up when placing one bucket takes more than
    /// `10 * slots` evictions.
    fn build_part(
        &self,
        buckets: &Vec<Vec<KeyHash>>,
        first: usize,
        lo: usize,
        pilots: &mut Vec<u8>,
        taken: &mut Vec<bool>,
        owner: &mut Vec<usize>,
        rng: &mut ChaCha8Rng,
    ) -> (r: Result<(), PartFailure>)
        requires
            self.wf(),
            lo + self.layout.buckets <= buckets@.len(),
            first + buckets@.len() <= self.layout.buckets_total,
            self.state_ok(old(pilots)@, old(taken)@, old(owner)@),
        ensures
            self.state_ok(final(pilots)@, final(taken)@, final(owner)@),
    {
        let nb = buckets.len();
        let order = Self::bucket_order(buckets, lo, self.layout.buckets);
        proof {
            let l = self.layout;
            assert(l.slots <= l.slots_total && l.buckets <= l.buckets_total) by (nonlinear_arith)
                requires
                    l.parts >= 1,
                    l.slots_total == l.parts * l.slots,
                    l.buckets_total == l.parts * l.buckets,
                    l.slots >= 0,
                    l.buckets >= 0;
        }
        let budget: u64 = 10 * (self.layout.slots as u64) + 1;
        let mut i: usize = 0;
        while i < order.len()
            invariant
                self.wf(),
                nb == buckets@.len(),
                first + nb <= self.layout.buckets_total,
                forall|j: int| 0 <= j < order@.len() ==> #[trigger] order@[j] < nb,
                self.state_ok(pilots@, taken@, owner@),
            decreases order@.len() - i,
        {
            let new_b = order[i];
            let new_len = buckets[new_b].len();
            if new_len == 0 {
                pilots.set(first + new_b, 0);
                i = i + 1;
                continue;
            }
            let mut stack: Vec<(usize, usize)> = Vec::new();
            stack.push((new_len, new_b));
            let mut recent: Vec<usize> = filled_vec(RECENT, usize::MAX);
            recent.set(0, first + new_b);
            let mut recent_idx: usize = 0;
            let mut work: u64 = 0;
            while stack.len() > 0
                invariant
                    self.wf(),
                    nb == buckets@.len(),
                    first + nb <= self.layout.buckets_total,
                    forall|k: int| 0 <= k < stack@.len() ==> (#[trigger] stack@[k]).1 < nb,
                    self.state_ok(pilots@, taken@, owner@),
                    recent@.len() == RECENT,
                    recent_idx < RECENT,
                    work <= budget,
                decreases budget - work,
            {
                if work >= budget {
                    return Err(PartFailure::Unsolvable);
                }
                work = work + 1;
                let (_size, b) = Self::pop_largest(&mut stack, nb);
                let bucket = &buckets[b];
                if let Some((p, hp)) = self.find_pilot(bucket, taken) {
                    pilots.set(first + b, p as u8);
                    let mut k: usize = 0;
                    while k < bucket.len()
                        invariant
                            self.wf(),
                            first + b < self.layout.buckets_total,
                            self.state_ok(pilots@, taken@, owner@),
                            k <= bucket@.len(),
                        decreases bucket@.len() - k,
                    {
                        owner.set(self.slot_hp(bucket[k], hp), first + b + 1);
                        k = k + 1;
                    }
                    continue;
                }
                let len = bucket.len() as u64;
                let target = square_saturating(len);
                let p0 = next_u64(rng) % NUM_PILOTS;
                let mut best_score: u64 = u64::MAX;
                let mut best_p: u64 = NUM_PILOTS;
                let mut delta: u64 = 0;
                while delta < NUM_PILOTS
                    invariant
                        self.wf(),
                        owner@.len() == self.layout.slots_total,
                        best_p <= NUM_PILOTS,
                        p0 < NUM_PILOTS,
                    decreases NUM_PILOTS - delta,
                {
                    let p = (p0 + delta) % NUM_PILOTS;
                    let hp = hash_pilot(self.seed, p);
                    if let Some(score) = self.collision_score(buckets, first, bucket, hp, &recent, owner, best_score) {
                        if !self.duplicate_slots(bucket, hp) {
                            best_score = score;
                            best_p = p;
                            if score == target {
                                break;
                            }
                        }
                    }
                    delta = delta + 1;
                }
                if best_p == NUM_PILOTS {
                    return Err(PartFailure::Indistinguishable(bucket.len()));
                }
                pilots.set(first + b, best_p as u8);
                let hp = hash_pilot(self.seed, best_p);
                let mut k: usize = 0;
                while k < bucket.len()
                    invariant
                        self.wf(),
                        nb == buckets@.len(),
                        first + nb <= self.layout.buckets_total,
                        b < nb,
                        forall|j: int| 0 <= j < stack@.len() ==> (#[trigger] stack@[j]).1 < nb,
                        self.state_ok(pilots@, taken@, owner@),
                        k <= bucket@.len(),
                    decreases bucket@.len() - k,
                {
                    let s = self.slot_hp(bucket[k], hp);
                    let o = owner[s];
                    if o != 0 {
                        let b2 = o - 1;
                        if b2 < first || b2 - first >= nb {
                            return Err(PartFailure::Unsolvable);
                        }
                        stack.push((buckets[b2 - first].len(), b2 - first));
                        let pilot2 = pilots[b2];
                        self.release(&buckets[b2 - first], pilot2, pilots, taken, owner);
                    }
                    owner.set(s, first + b + 1);
                    taken.set(s, true);
                    k = k + 1;
                }
                recent_idx = (recent_idx + 1) % RECENT;
                recent.set(recent_idx, first + b);
            }
            i = i + 1;
        }
        Ok(())
    }

    /// The hashes of `hashes` whose global bucket lies in `first..first + count`,
    /// grouped by bucket: entry `k` holds those of bucket `first + k`.
    fn group_buckets(&self, hashes: &Vec<KeyHash>, first: usize, count: usize) -> (r: Vec<Vec<KeyHash>>)
        requires
            self.wf(),
        ensures
            r@.len() == count,
            forall|k: int, j: int|
                0 <= k < count && 0 <= j < r@[k]@.len() ==> self.bucket_spec(#[trigger] r@[k]@[j]) == first + k,
            forall|i: int| 0 <= i < hashes@.len() && first <= self.bucket_spec(#[trigger] hashes@[i]) < first + count
                ==> r@[self.bucket_spec(hashes@[i]) - first]@.contains(hashes@[i]),
    {
        let mut r: Vec<Vec<KeyHash>> = Vec::new();
        let mut k: usize = 0;
        while k < count
            invariant
                k <= count,
                r@.len() == k,
                forall|a: int| 0 <= a < k ==> r@[a]@.len() == 0,
            decreases count - k,
        {
            r.push(Vec::new());
            k = k + 1;
        }
        let mut i: usize = 0;
        while i < hashes.len()
            invariant
                self.wf(),
                i <= hashes@.len(),
                r@.len() == count,
                forall|a: int, j: int|
                    0 <= a < count && 0 <= j < r@[a]@.len() ==> self.bucket_spec(#[trigger] r@[a]@[j]) == first + a,
                forall|c: int| 0 <= c < i && first <= self.bucket_spec(#[trigger] hashes@[c]) < first + count
                    ==> r@[self.bucket_spec(hashes@[c]) - first]@.contains(hashes@[c]),
            decreases hashes@.len() - i,
        {
            let h = hashes[i];
            let b = self.bucket(h);
            let ghost old_r = r@;
            if first <= b && b - first < count {
                let ghost before = r@;
                r[b - first].push(h);
                assert(r@[b - first]@ == before[b - first]@.push(h));
                assert(r@[b - first]@[before[b - first]@.len() as int] == h);
                assert forall|c: int| 0 <= c < i + 1 && first <= self.bucket_spec(#[trigger] hashes@[c]) < first + count
                    implies r@[self.bucket_spec(hashes@[c]) - first]@.contains(hashes@[c]) by {
                    let bc = self.bucket_spec(hashes@[c]) - first;
                    if c < i {
                        let w = choose|w: int| 0 <= w < before[bc]@.len() && before[bc]@[w] == hashes@[c];
                        if bc == b - first {
                            assert(r@[bc]@[w] == hashes@[c]);
                        } else {
                            assert(r@[bc] == before[bc]);
                        }
                    }
                }
                assert forall|a: int, j: int|
                    0 <= a < count && 0 <= j < r@[a]@.len() implies self.bucket_spec(#[trigger] r@[a]@[j]) == first + a by {
                    if a != b - first {
                        assert(r@[a] == before[a]);
                    } else if j < before[a]@.len() {
                        assert(r@[a]@[j] == before[a]@[j]);
                    }
                }
            }
            i = i + 1;
        }
        r
    }

    /// The number of buckets in one shard.
    pub open spec fn buckets_per_shard(&self) -> int {
        self.layout.parts_per_shard * self.layout.buckets
    }

    /// The shard of a hash: the shard that holds its bucket.
    pub open spec fn shard_spec(&self, h: KeyHash) -> int {
        self.bucket_spec(h) / self.buckets_per_shard()
    }

    /// The shard of a hash, below the number of shards.
    pub fn shard_of(&self, h: KeyHash) -> (r: usize)
        requires
            self.wf(),
        ensures
            r == self.shard_spec(h),
            r < self.layout.shards,
    {
        let l = self.layout;
        proof {
            lemma_block_index(0, 0, l.parts as int, l.buckets as int);
            assert(l.parts_per_shard * l.buckets * l.shards == l.buckets_total) by (nonlinear_arith)
                requires l.parts == l.parts_per_shard * l.shards, l.buckets_total == l.parts * l.buckets;
            assert(l.parts_per_shard * l.buckets >= 1) by (nonlinear_arith)
                requires l.parts_per_shard * l.buckets * l.shards == l.buckets_total, l.parts_per_shard >= 0,
                    l.buckets >= 1, l.buckets_total >= 1, l.shards >= 1;
            assert(l.parts_per_shard * l.buckets <= l.buckets_total) by (nonlinear_arith)
                requires l.parts_per_shard * l.buckets * l.shards == l.buckets_total, l.shards >= 1,
                    l.parts_per_shard >= 0, l.buckets >= 0;
        }
        let per_shard = l.parts_per_shard * l.buckets;
        let b = self.bucket(h);
        proof {
            assert(b / per_shard < l.shards) by (nonlinear_arith)
                requires b < per_shard * l.shards, per_shard >= 1, b >= 0;
        }
        b / per_shard
    }

    /// The hashes of the first `k` keys, in order.
    pub open spec fn key_hashes(&self, keys: Seq<Key>, k: int) -> Seq<KeyHash> {
        Seq::new(k as nat, |i: int| self.key_hash(&keys[i]))
    }

    /// The hashes of the keys that fall into `shard`, in the order of the
    /// keys. The keys are walked once; only this shard's hashes are kept.
    pub fn shard_hashes(&self, keys: &Vec<Key>, shard: usize) -> (r: Vec<KeyHash>)
        requires
            self.wf(),
        ensures
            r@ == self.key_hashes(keys@, keys@.len() as int).filter(|h: KeyHash| self.shard_spec(h) == shard),
    {
        let ghost pred = |h: KeyHash| self.shard_spec(h) == shard;
        let mut r: Vec<KeyHash> = Vec::new();
        let mut i: usize = 0;
        assert(self.key_hashes(keys@, 0) =~= Seq::<KeyHash>::empty());
        while i < keys.len()
            invariant
                self.wf(),
                i <= keys@.len(),
                pred == (|h: KeyHash| self.shard_spec(h) == shard),
                r@ == self.key_hashes(keys@, i as int).filter(pred),
            decreases keys@.len() - i,
        {
            let h = self.hash_key(&keys[i]);
            proof {
                assert(self.key_hashes(keys@, i + 1) =~= self.key_hashes(keys@, i as int).push(h));
                self.key_hashes(keys@, i as int).lemma_filter_push(h, pred);
            }
            if self.shard_of(h) == shard {
                r.push(h);
            }
            i = i + 1;
        }
        r
    }

    /// Whether a placement fits this index.
    pub open spec fn placement_ok(&self, pl: &Placement) -> bool {
        self.state_ok(pl.pilots@, pl.taken@, pl.owner@)
    }

    /// An empty placement: pilots 0, no slot taken.
    pub fn start_placement(&self) -> (r: Placement)
        requires
            self.wf(),
        ensures
            self.placement_ok(&r),
            filled(r.pilots@, self.layout.buckets_total as nat, 0u8),
            filled(r.taken@, self.layout.slots_total as nat, false),
            filled(r.owner@, self.layout.slots_total as nat, 0usize),
    {
        Placement {
            pilots: filled_vec(self.layout.buckets_total, 0u8),
            taken: filled_vec(self.layout.slots_total, false),
            owner: filled_vec(self.layout.slots_total, 0usize),
        }
    }

    /// Place the buckets of one shard, part by part, from the hashes of the
    /// shard's keys; hashes of other shards are passed over. Each part draws
    /// its start pilots from a generator seeded by the global seed and the
    /// part, so that its pilots depend on nothing else.
    pub fn place_shard(&self, shard: usize, hashes: &Vec<KeyHash>, pl: &mut Placement) -> (r: Result<(), BuildError>)
        requires
            self.wf(),
            shard < self.layout.shards,
            self.placement_ok(old(pl)),
        ensures
            self.placement_ok(final(pl)),
            r matches Err(e) ==> e is IndistinguishableHashes || e == BuildError::UnsolvableAfterSeedBudget,
            r is Ok ==> forall|i: int| 0 <= i < hashes@.len() && self.shard_spec(#[trigger] hashes@[i]) == shard
                ==> final(pl).taken@[self.placed_slot(final(pl).pilots@, hashes@[i])],
            r is Ok ==> forall|i: int, j: int| 0 <= i < hashes@.len() && 0 <= j < hashes@.len() && i != j
                && self.shard_spec(hashes@[i]) == shard && self.shard_spec(hashes@[j]) == shard
                ==> self.placed_slot(final(pl).pilots@, hashes@[i]) != self.placed_slot(final(pl).pilots@, hashes@[j]),
    {
        let l = self.layout;
        proof {
            assert(l.parts_per_shard * l.buckets * l.shards == l.buckets_total) by (nonlinear_arith)
                requires l.parts == l.parts_per_shard * l.shards, l.buckets_total == l.parts * l.buckets;
            assert(l.parts_per_shard * l.buckets <= l.buckets_total) by (nonlinear_arith)
                requires l.parts_per_shard * l.buckets * l.shards == l.buckets_total, l.shards >= 1,
                    l.parts_per_shard >= 0, l.buckets >= 0;
        }
        let per_shard: usize = l.parts_per_shard * l.buckets;
        proof {
            assert(shard * per_shard + per_shard <= l.buckets_total) by (nonlinear_arith)
                requires shard < l.shards, per_shard * l.shards == l.buckets_total, per_shard >= 0;
        }
        let first = shard * per_shard;
        let buckets = self.group_buckets(hashes, first, per_shard);
        let mut q: usize = 0;
        while q < l.parts_per_shard
            invariant
                self.wf(),
                l == self.layout,
                per_shard == l.parts_per_shard * l.buckets,
                buckets@.len() == per_shard,
                first + per_shard <= l.buckets_total,
                shard < l.shards,
                q <= l.parts_per_shard,
                self.placement_ok(pl),
            decreases l.parts_per_shard - q,
        {
            proof {
                assert(q * l.buckets + l.buckets <= per_shard) by (nonlinear_arith)
                    requires q < l.parts_per_shard, per_shard == l.parts_per_shard * l.buckets, l.buckets >= 0;
                crate::ptr_hash::lemma_block_index(shard as int, q as int, l.shards as int, l.parts_per_shard as int);
                assert(l.shards * l.parts_per_shard == l.parts) by (nonlinear_arith)
                    requires l.parts == l.parts_per_shard * l.shards;
            }
            let part = shard * l.parts_per_shard + q;
            let mut rng = seeded_rng(self.seed ^ (part as u64));
            match self.build_part(&buckets, first, q * l.buckets, &mut pl.pilots, &mut pl.taken, &mut pl.owner, &mut rng) {
                Ok(()) => {},
                Err(PartFailure::Indistinguishable(bucket_size)) => {
                    return Err(BuildError::IndistinguishableHashes { part, bucket_size });
                },
                Err(PartFailure::Unsolvable) => {
                    return Err(BuildError::UnsolvableAfterSeedBudget);
                },
            }
            q = q + 1;
        }
        self.check_shard(shard, hashes, pl)
    }

    /// Whether every hash of `shard` lies in a taken slot under its bucket's
    /// pilot, with no two in one slot: `Ok` exactly then.
    fn check_shard(&self, shard: usize, hashes: &Vec<KeyHash>, pl: &Placement) -> (r: Result<(), BuildError>)
        requires
            self.wf(),
            self.placement_ok(pl),
        ensures
            r matches Err(e) ==> e == BuildError::UnsolvableAfterSeedBudget,
            r is Ok ==> forall|i: int| 0 <= i < hashes@.len() && self.shard_spec(#[trigger] hashes@[i]) == shard
                ==> pl.taken@[self.placed_slot(pl.pilots@, hashes@[i])],
            r is Ok ==> forall|i: int, j: int| 0 <= i < hashes@.len() && 0 <= j < hashes@.len() && i != j
                && self.shard_spec(hashes@[i]) == shard && self.shard_spec(hashes@[j]) == shard
                ==> self.placed_slot(pl.pilots@, hashes@[i]) != self.placed_slot(pl.pilots@, hashes@[j]),
    {
        let mut seen: Vec<bool> = filled_vec(self.layout.slots_total, false);
        // For each slot seen, the hash that was found there.
        let ghost mut who: Map<int, int> = Map::empty();
        let mut i: usize = 0;
        while i < hashes.len()
            invariant
                self.wf(),
                self.placement_ok(pl),
                i <= hashes@.len(),
                seen@.len() == self.layout.slots_total,
                forall|a: int| 0 <= a < i && self.shard_spec(#[trigger] hashes@[a]) == shard
                    ==> pl.taken@[self.placed_slot(pl.pilots@, hashes@[a])],
                forall|a: int| 0 <= a < i && self.shard_spec(#[trigger] hashes@[a]) == shard
                    ==> 0 <= self.placed_slot(pl.pilots@, hashes@[a]) < self.layout.slots_total
                    && seen@[self.placed_slot(pl.pilots@, hashes@[a])]
                    && who.contains_key(self.placed_slot(pl.pilots@, hashes@[a]))
                    && who[self.placed_slot(pl.pilots@, hashes@[a])] == a,
                forall|y: int| 0 <= y < seen@.len() && #[trigger] seen@[y] ==> who.contains_key(y)
                    && 0 <= who[y] < i && self.shard_spec(hashes@[who[y]]) == shard
                    && self.placed_slot(pl.pilots@, hashes@[who[y]]) == y,
            decreases hashes@.len() - i,
        {
            let h = hashes[i];
            if self.shard_of(h) == shard {
                let b = self.bucket(h);
                let x = self.slot(h, pl.pilots[b] as u64);
                if !pl.taken[x] || seen[x] {
                    return Err(BuildError::UnsolvableAfterSeedBudget);
                }
                seen.set(x, true);
                proof {
                    who = who.insert(x as int, i as int);
                }
            }
            i = i + 1;
        }
        proof {
            assert forall|a: int, c: int| 0 <= a < hashes@.len() && 0 <= c < hashes@.len() && a != c
                && self.shard_spec(hashes@[a]) == shard && self.shard_spec(hashes@[c]) == shard
                implies self.placed_slot(pl.pilots@, hashes@[a]) != self.placed_slot(pl.pilots@, hashes@[c]) by {
                assert(self.shard_spec(hashes@[a]) == shard);
                assert(self.shard_spec(hashes@[c]) == shard);
            }
        }
        Ok(())
    }

    /// The slot of a hash under its bucket's pilot in `pilots`.
    pub open spec fn placed_slot(&self, pilots: Seq<u8>, h: KeyHash) -> int {
        self.slot_spec(h, pilots[self.bucket_spec(h)] as u64)
    }

    /// Whether a placement puts every key into a taken slot of its own, and
    /// exactly `n` slots are taken.
    pub open spec fn placement_covers(&self, pl: &Placement, keys: Seq<Key>) -> bool {
        &&& forall|i: int| 0 <= i < keys.len() ==> 0 <= #[trigger] self.placed_slot(pl.pilots@, self.key_hash(&keys[i]))
            < self.layout.slots_total
        &&& forall|i: int| 0 <= i < keys.len() ==> pl.taken@[#[trigger] self.placed_slot(pl.pilots@, self.key_hash(&keys[i]))]
        &&& forall|i: int, j: int| 0 <= i < keys.len() && 0 <= j < keys.len() && i != j
            ==> self.placed_slot(pl.pilots@, self.key_hash(&keys[i])) != self.placed_slot(pl.pilots@, self.key_hash(&keys[j]))
        &&& taken_count(pl.taken@, 0, self.layout.slots_total as int) == self.n
    }

    proof fn lemma_covered_indices(&self, pre: Self, t: Seq<bool>, keys: Seq<Key>, bound: int)
        requires
            self.wf(),
            pre.wf(),
            self.n == pre.n == keys.len(),
            self.layout == pre.layout,
            self.seed == pre.seed,
            self.params == pre.params,
            t.len() == self.layout.slots_total,
            forall|i: int| 0 <= i < keys.len() ==> 0 <= #[trigger] self.index_no_remap_hash(self.key_hash(&keys[i]))
                < self.layout.slots_total,
            forall|i: int| 0 <= i < keys.len() ==> t[#[trigger] self.index_no_remap_hash(self.key_hash(&keys[i]))],
            forall|i: int, j: int| 0 <= i < keys.len() && 0 <= j < keys.len() && i != j
                ==> self.index_no_remap_hash(self.key_hash(&keys[i])) != self.index_no_remap_hash(self.key_hash(&keys[j])),
            taken_count(t, 0, self.layout.slots_total as int) == self.n,
            self.remap@.len() == 0 ==> bound == self.layout.slots_total,
            self.remap@.len() > 0 ==> bound == self.n && self.remap@.len() == self.layout.slots_total - self.n,
            forall|j: int| 0 <= j < self.remap@.len() ==> self.remap@[j] as int == remap_target(t, self.n as int, self.n + j),
        ensures
            forall|i: int| 0 <= i < keys.len() ==> #[trigger] self.index_of(&keys[i]) < bound,
            forall|i: int, j: int| 0 <= i < keys.len() && 0 <= j < keys.len() && i != j
                ==> self.index_of(&keys[i]) != self.index_of(&keys[j]),
    {
        let n = self.n as int;
        let total = self.layout.slots_total as int;
        assert forall|i: int| 0 <= i < keys.len() implies #[trigger] self.index_of(&keys[i]) < bound by {
            let si = self.index_no_remap_hash(self.key_hash(&keys[i]));
            if self.remap@.len() > 0 && si >= n {
                lemma_remap_targets(t, n, total, si, si);
            }
        }
        assert forall|i: int, j: int| 0 <= i < keys.len() && 0 <= j < keys.len() && i != j
            implies self.index_of(&keys[i]) != self.index_of(&keys[j]) by {
            let si = self.index_no_remap_hash(self.key_hash(&keys[i]));
            let sj = self.index_no_remap_hash(self.key_hash(&keys[j]));
            if self.remap@.len() > 0 {
                if si >= n && sj >= n {
                    lemma_remap_targets(t, n, total, si, sj);
                } else if si >= n {
                    lemma_remap_targets(t, n, total, si, si);
                } else if sj >= n {
                    lemma_remap_targets(t, n, total, sj, sj);
                }
            }
        }
    }

    /// End an attempt: take the placement's pilots, build the remap table,
    /// and accept the attempt only where the keys' indices are distinct (and
    /// below `n` where slots are remapped).
    pub fn finish_placement(&mut self, pl: Placement, keys: &Vec<Key>) -> (r: Result<(), BuildError>)
        requires
            old(self).wf(),
            old(self).placement_ok(&pl),
            old(self).n == keys@.len(),
        ensures
            final(self).wf(),
            final(self).n == old(self).n,
            final(self).params == old(self).params,
            final(self).seed == old(self).seed,
            r is Ok ==> final(self).built_on(keys@)
                && (final(self).params.remap ==> final(self).is_minimal())
                && (!final(self).params.remap ==> final(self).remap@.len() == 0)
                && (final(self).params.remap && final(self).layout.slots_total > final(self).n
                    ==> final(self).remap@.len() == final(self).layout.slots_total - final(self).n),
            r matches Err(e) ==> (e == BuildError::RemapTooLarge && keys@.len() > 0x1_0000_0000)
                || e == BuildError::UnsolvableAfterSeedBudget,
            old(self).placement_covers(&pl, keys@) && keys@.len() <= 0x1_0000_0000 ==> r is Ok,
    {
        let ghost pre = *self;
        let ghost t = pl.taken@;
        let ghost pp = pl.pilots@;
        let ghost covered = old(self).placement_covers(&pl, keys@);
        self.pilots = pl.pilots;
        self.remap = Vec::new();
        match self.remap_free_slots(&pl.taken) {
            Err(true) => Err(BuildError::RemapTooLarge),
            Err(false) => Err(BuildError::UnsolvableAfterSeedBudget),
            Ok(remap) => {
                self.remap = remap;
                let bound = if self.remap.len() > 0 {
                    self.n
                } else {
                    self.layout.slots_total
                };
                proof {
                    if covered && keys@.len() <= 0x1_0000_0000 {
                        assert forall|i: int| 0 <= i < keys@.len() implies #[trigger] self.index_no_remap_hash(self.key_hash(&keys@[i]))
                            == pre.placed_slot(pp, pre.key_hash(&keys@[i])) by {
                        }
                        self.lemma_covered_indices(pre, t, keys@, bound as int);
                    }
                }
                if self.all_distinct(keys, bound) {
                    Ok(())
                } else {
                    Err(BuildError::UnsolvableAfterSeedBudget)
                }
            },
        }
    }

    /// The global seeds of the attempts, drawn from a generator with a fixed seed.
    pub fn attempt_seeds() -> (r: Vec<u64>)
        ensures
            r@.len() == MAX_TRIES,
            forall|i: int| 0 <= i < MAX_TRIES ==> r@[i] == chacha8_word(SEED_STREAM, i),
    {
        chacha8_words(SEED_STREAM, MAX_TRIES)
    }

    /// The remap table, packed as `u32`s: the `j`-th taken slot at or past `n`
    /// goes to the `j`-th free slot below `n`, and a free slot past `n` to the
    /// free slot that the next taken one goes to (or the last free slot), so
    /// that the table never decreases. Empty where remapping is off or there
    /// are no slots past `n`. `Err(false)` exactly where there are more taken
    /// slots past `n` than free ones below it; `Err(true)` where a free slot
    /// does not fit in a `u32`.
    fn remap_free_slots(&self, taken: &Vec<bool>) -> (r: Result<Vec<u32>, bool>)
        requires
            self.wf(),
            taken@.len() == self.layout.slots_total,
        ensures
            !self.params.remap || self.layout.slots_total == self.n ==> (r matches Ok(v) && v@.len() == 0),
            self.params.remap && self.layout.slots_total > self.n ==> ({
                let over = taken_count(taken@, self.n as int, self.layout.slots_total as int);
                let holes = free_below(taken@, self.n as int).len();
                &&& r == Err::<Vec<u32>, bool>(false) <==> over > holes
                &&& over <= holes && self.n <= 0x1_0000_0000 ==> r is Ok
            }),
            r matches Ok(remap) ==> (remap@.len() == 0 || remap@.len() == self.layout.slots_total - self.n)
                && (forall|j: int| 0 <= j < remap@.len() ==> (#[trigger] remap@[j]) < self.n)
                && (self.params.remap ==> remap@.len() > 0 || self.layout.slots_total <= self.n)
                && (!self.params.remap ==> remap@.len() == 0)
                && (self.params.remap && self.layout.slots_total > self.n ==> remap@.len() == self.layout.slots_total - self.n)
                && (forall|j: int| 0 <= j < remap@.len() ==> remap@[j] as int
                    == remap_target(taken@, self.n as int, self.n + j))
                && (forall|a: int, b: int| 0 <= a <= b < remap@.len() ==> remap@[a] <= remap@[b]),
            r matches Err(too_large) ==> (too_large ==> self.n > 0x1_0000_0000),
            taken_count(taken@, 0, self.layout.slots_total as int) == self.n && self.n <= 0x1_0000_0000 ==> r is Ok,
    {
        let n = self.n;
        let total = self.layout.slots_total;
        proof {
            lemma_free_plus_taken(taken@, n as int);
            lemma_count_split(taken@, 0, n as int, total as int);
        }
        if !self.params.remap || total <= n {
            return Ok(Vec::new());
        }
        let mut free: Vec<u64> = Vec::new();
        let mut i: usize = 0;
        while i < n
            invariant
                i <= n,
                n < total,
                taken@.len() == total,
                free@ == free_below(taken@, i as int),
            decreases n - i,
        {
            if !taken[i] {
                free.push(i as u64);
            }
            i = i + 1;
        }
        proof {
            lemma_free_below_sorted(taken@, n as int);
        }
        let ghost holes = free@.len();
        let mut targets: Vec<u64> = Vec::new();
        let mut next: usize = 0;
        let mut s: usize = n;
        while s < total
            invariant
                self.wf(),
                self.params.remap,
                n == self.n,
                total == self.layout.slots_total,
                n < total,
                free_below(taken@, n as int).len() + taken_count(taken@, 0, n as int) == n,
                taken_count(taken@, 0, total as int) == taken_count(taken@, 0, n as int) + taken_count(
                    taken@,
                    n as int,
                    total as int,
                ),
                n <= s <= total,
                taken@.len() == total,
                targets@.len() == s - n,
                n >= 1,
                free@ == free_below(taken@, n as int),
                holes == free@.len(),
                forall|a: int, b: int| 0 <= a < b < free@.len() ==> free@[a] < free@[b],
                forall|k: int| 0 <= k < free@.len() ==> (#[trigger] free@[k]) < n,
                next == taken_count(taken@, n as int, s as int),
                next <= holes,
                forall|k: int| 0 <= k < targets@.len() ==> (#[trigger] targets@[k]) as int
                    == remap_target(taken@, n as int, n + k),
                forall|k: int| 0 <= k < targets@.len() ==> (#[trigger] targets@[k]) < n,
                forall|a: int, b: int| 0 <= a <= b < targets@.len() ==> targets@[a] <= targets@[b],
                targets@.len() > 0 ==> targets@.last() as int == remap_target(taken@, n as int, s - 1),
                targets@.len() > 0 && next < holes ==> targets@.last() <= free@[next as int],
                targets@.len() > 0 && next == holes && holes > 0 ==> targets@.last() <= free@[holes - 1],
                targets@.len() > 0 && holes == 0 ==> targets@.last() == 0,
            decreases total - s,
        {
            let v: u64 = if next < free.len() {
                free[next]
            } else if free.len() > 0 {
                free[free.len() - 1]
            } else {
                0
            };
            if taken[s] {
                if next >= free.len() {
                    proof {
                        lemma_count_split(taken@, n as int, s + 1, total as int);
                        assert(taken_count(taken@, n as int, s + 1) == next + 1);
                        assert(taken_count(taken@, n as int, total as int) > holes);
                        assert(taken_count(taken@, 0, total as int) > n);
                        assert(self.params.remap && total > n);
                    }
                    return Err(false);
                }
            }
            let ghost before = targets@;
            targets.push(v);
            proof {
                assert(v as int == remap_target(taken@, n as int, s as int));
                assert forall|a: int, b: int| 0 <= a <= b < targets@.len() implies targets@[a] <= targets@[b] by {
                    if b == targets@.len() - 1 && a < b {
                        assert(before[a] <= before.last());
                    }
                }
            }
            if taken[s] {
                next = next + 1;
            }
            s = s + 1;
        }
        let ghost t = targets@;
        match <Vec<u32> as MutPacked>::try_new(targets) {
            Some(remap) => {
                assert forall|j: int| 0 <= j < remap@.len() implies (#[trigger] remap@[j]) < self.n
                    && remap@[j] as int == remap_target(taken@, n as int, n + j) by {
                    assert(remap.values()[j] == t[j]);
                }
                assert forall|a: int, b: int| 0 <= a <= b < remap@.len() implies remap@[a] <= remap@[b] by {
                    assert(remap.values()[a] == t[a]);
                    assert(remap.values()[b] == t[b]);
                }
                Ok(remap)
            },
            None => {
                proof {
                    let j = choose|j: int| 0 <= j < t.len() && !(t[j] <= u32::MAX);
                    assert(t[j] < n);
                }
                Err(true)
            },
        }
    }

    /// Whether the indices of `keys` all lie below `bound` and are pairwise distinct.
    fn all_distinct(&self, keys: &Vec<Key>, bound: usize) -> (r: bool)
        requires
            self.wf(),
            bound <= self.layout.slots_total,
        ensures
            r ==> forall|i: int| 0 <= i < keys@.len() ==> #[trigger] self.index_of(&keys@[i]) < bound,
            r ==> forall|i: int, j: int|
                0 <= i < keys@.len() && 0 <= j < keys@.len() && i != j
                    ==> self.index_of(&keys@[i]) != self.index_of(&keys@[j]),
            (forall|i: int| 0 <= i < keys@.len() ==> #[trigger] self.index_of(&keys@[i]) < bound)
                && (forall|i: int, j: int|
                0 <= i < keys@.len() && 0 <= j < keys@.len() && i != j
                    ==> self.index_of(&keys@[i]) != self.index_of(&keys@[j])) ==> r,
    {
        let mut seen: Vec<bool> = filled_vec(bound, false);
        let mut i: usize = 0;
        while i < keys.len()
            invariant
                self.wf(),
                i <= keys@.len(),
                seen@.len() == bound,
                forall|a: int| 0 <= a < i ==> #[trigger] self.index_of(&keys@[a]) < bound,
                forall|a: int| 0 <= a < i ==> seen@[#[trigger] self.index_of(&keys@[a])],
                forall|a: int, b: int|
                    0 <= a < i && 0 <= b < i && a != b
                        ==> self.index_of(&keys@[a]) != self.index_of(&keys@[b]),
                forall|y: int| 0 <= y < bound && #[trigger] seen@[y] ==> exists|a: int| 0 <= a < i && self.index_of(&keys@[a]) == y,
            decreases keys@.len() - i,
        {
            let x = self.index(&keys[i]);
            if x >= bound || seen[x] {
                proof {
                    if x < bound {
                        let a = choose|a: int| 0 <= a < i && self.index_of(&keys@[a]) == x;
                        assert(self.index_of(&keys@[a]) == self.index_of(&keys@[i as int]));
                    }
                }
                return false;
            }
            let ghost before = seen@;
            seen.set(x, true);
            assert forall|y: int| 0 <= y < bound && #[trigger] seen@[y] implies exists|a: int| 0 <= a < i + 1 && self.index_of(&keys@[a]) == y by {
                if y != x {
                    assert(before[y]);
                    let a = choose|a: int| 0 <= a < i && self.index_of(&keys@[a]) == y;
                    assert(0 <= a < i + 1 && self.index_of(&keys@[a]) == y);
                } else {
                    assert(self.index_of(&keys@[i as int]) == y);
                }
            }
            i = i + 1;
        }
        true
    }

    /// What a finished construction over `keys` guarantees: every key has an
    /// index below `n` (below `max_index()` where slots are not remapped), and
    /// no two keys share one.
    pub open spec fn built_on(&self, keys: Seq<Key>) -> bool {
        &&& self.wf()
        &&& self.n == keys.len()
        &&& forall|i: int| 0 <= i < keys.len() ==> #[trigger] self.index_of(&keys[i]) < (if self.is_minimal() {
            self.n as int
        } else {
            self.layout.slots_total as int
        })
        &&& forall|i: int, j: int|
            0 <= i < keys.len() && 0 <= j < keys.len() && i != j
                ==> self.index_of(&keys[i]) != self.index_of(&keys[j])
    }

    /// Build an index over `keys`. Up to ten global seeds are tried; each
    /// attempt places every bucket, builds the remap table, and checks that the
    /// keys' indices are distinct before it is accepted. Keys that occur twice
    /// can never be told apart, so they always end in an error. When no seed
    /// succeeds the error is `IndistinguishableHashes` (with the part and
    /// bucket size of the last attempt) where every attempt met a bucket whose
    /// keys no pilot tells apart, and `UnsolvableAfterSeedBudget` otherwise.
    pub fn new(keys: &Vec<Key>, params: PtrHashParams<BF>) -> (r: Result<Self, BuildError>)
        requires
            key_count_ok(keys.len()),
            params.valid(),
        ensures
            r == Err::<Self, BuildError>(BuildError::EmptyKeySet) <==> keys@.len() == 0,
            r matches Ok(ph) ==> ph.built_on(keys@) && ph.params == Self::configured_params(keys@.len() as usize, params)
                && (params.remap ==> ph.is_minimal())
                && (!params.remap ==> ph.remap@.len() == 0)
                && (params.remap && ph.layout.slots_total > ph.n ==> ph.remap@.len() == ph.layout.slots_total - ph.n),
            r == Err::<Self, BuildError>(BuildError::RemapTooLarge) ==> keys@.len() > 0x1_0000_0000,
            (exists|i: int, j: int| 0 <= i < j < keys@.len() && keys@[i] == keys@[j]) ==> r is Err,
            r matches Ok(ph) ==> exists|i: int| 0 <= i < MAX_TRIES && ph.seed == chacha8_word(SEED_STREAM, i),
    {
        let r = Self::build(keys, params);
        proof {
            if r is Ok {
                let ph = r->Ok_0;
                if exists|i: int, j: int| 0 <= i < j < keys@.len() && keys@[i] == keys@[j] {
                    let (i, j) = choose|i: int, j: int| 0 <= i < j < keys@.len() && keys@[i] == keys@[j];
                    assert(ph.index_of(&keys@[i]) != ph.index_of(&keys@[j]));
                }
            }
        }
        r
    }

    fn build(keys: &Vec<Key>, params: PtrHashParams<BF>) -> (r: Result<Self, BuildError>)
        requires
            key_count_ok(keys.len()),
            params.valid(),
        ensures
            r == Err::<Self, BuildError>(BuildError::EmptyKeySet) <==> keys@.len() == 0,
            r matches Ok(ph) ==> ph.built_on(keys@) && ph.params == Self::configured_params(keys@.len() as usize, params)
                && (params.remap ==> ph.is_minimal())
                && (!params.remap ==> ph.remap@.len() == 0)
                && (params.remap && ph.layout.slots_total > ph.n ==> ph.remap@.len() == ph.layout.slots_total - ph.n),
            r == Err::<Self, BuildError>(BuildError::RemapTooLarge) ==> keys@.len() > 0x1_0000_0000,
            r matches Ok(ph) ==> exists|i: int| 0 <= i < MAX_TRIES && ph.seed == chacha8_word(SEED_STREAM, i),
    {
        let n = keys.len();
        if n == 0 {
            return Err(BuildError::EmptyKeySet);
        }
        let mut ph = Self::init(n, params);
        let seeds = Self::attempt_seeds();
        // The error of the last attempt, and whether every attempt so far found
        // keys that no pilot tells apart.
        let mut failure = BuildError::UnsolvableAfterSeedBudget;
        let mut always_indistinguishable = true;
        let mut tries: usize = 0;
        while tries < MAX_TRIES
            invariant
                ph.wf(),
                ph.n == n,
                n == keys@.len(),
                seeds@.len() == MAX_TRIES,
                forall|i: int| 0 <= i < MAX_TRIES ==> seeds@[i] == chacha8_word(SEED_STREAM, i),
                tries <= MAX_TRIES,
                ph.params == Self::configured_params(n, params),
                failure != BuildError::EmptyKeySet,
                failure != BuildError::RemapTooLarge,
            decreases MAX_TRIES - tries,
        {
            ph.seed = seeds[tries];
            let ghost t = tries as int;
            assert(ph.seed == chacha8_word(SEED_STREAM, t));
            tries = tries + 1;
            let mut pl = ph.start_placement();
            let mut outcome: Result<(), BuildError> = Ok(());
            let mut shard: usize = 0;
            while shard < ph.layout.shards && outcome.is_ok()
                invariant
                    ph.wf(),
                    ph.placement_ok(&pl),
                    outcome matches Err(e) ==> e is IndistinguishableHashes || e == BuildError::UnsolvableAfterSeedBudget,
                decreases ph.layout.shards - shard,
            {
                let hashes = ph.shard_hashes(keys, shard);
                outcome = ph.place_shard(shard, &hashes, &mut pl);
                shard = shard + 1;
            }
            match outcome {
                Err(BuildError::IndistinguishableHashes { part, bucket_size }) => {
                    failure = BuildError::IndistinguishableHashes { part, bucket_size };
                },
                Err(_) => {
                    always_indistinguishable = false;
                },
                Ok(()) => {
                    match ph.finish_placement(pl, keys) {
                        Ok(()) => {
                            assert(ph.seed == chacha8_word(SEED_STREAM, t));
                            return Ok(ph);
                        },
                        Err(BuildError::RemapTooLarge) => {
                            return Err(BuildError::RemapTooLarge);
                        },
                        Err(_) => {
                            always_indistinguishable = false;
                        },
                    }
                },
            }
        }
        if always_indistinguishable {
            Err(failure)
        } else {
            Err(BuildError::UnsolvableAfterSeedBudget)
        }
    }

    /// As `new`, with any failure given as `None`.
    pub fn try_new(keys: &Vec<Key>, params: PtrHashParams<BF>) -> (r: Option<Self>)
        requires
            key_count_ok(keys.len()),
            params.valid(),
        ensures
            keys@.len() == 0 ==> r is None,
            r matches Some(ph) ==> ph.built_on(keys@) && ph.params == Self::configured_params(keys@.len() as usize, params)
                && (params.remap ==> ph.is_minimal())
                && (!params.remap ==> ph.remap@.len() == 0)
                && (params.remap && ph.layout.slots_total > ph.n ==> ph.remap@.len() == ph.layout.slots_total - ph.n),
            (exists|i: int, j: int| 0 <= i < j < keys@.len() && keys@[i] == keys@[j]) ==> r is None,
            r matches Some(ph) ==> exists|i: int| 0 <= i < MAX_TRIES && ph.seed == chacha8_word(SEED_STREAM, i),
    {
        match Self::new(keys, params) {
            Ok(ph) => Some(ph),
            Err(_) => None,
        }
    }
}

} // verus!
