use ptr_hash::bucket_fn::{BucketFn, Cubic, CubicEps, Linear, Skewed, Square, SquareEps};
use ptr_hash::PtrHash;
use ptr_hash::hash::{
    FastIntHash, KeyHash, KeyHasher, NoHash, StrongerIntHash, Xxh3, Xxh3Int, Xxh3_128, C,
};
use ptr_hash::pack::{MutPacked, Packed};
use ptr_hash::ptr_hash::layout;
use ptr_hash::reduce::{mul_high, FastReduce, MulReduce, Reduce, SlotReduce};
use ptr_hash::{PtrHashParams, Sharding};

fn mh(a: u64, b: u64) -> u64 {
    ((a as u128 * b as u128) >> 64) as u64
}

#[test]
fn hash_words() {
    assert_eq!(ptr_hash::hash::Hash::low(&5u64), 5);
    assert_eq!(ptr_hash::hash::Hash::high(&5u64), 5);
    let x: u128 = (7u128 << 64) | 9;
    assert_eq!(ptr_hash::hash::Hash::low(&x), 9);
    assert_eq!(ptr_hash::hash::Hash::high(&x), 7);
}

#[test]
fn no_hash_is_xor_seed() {
    assert_eq!(NoHash::hash(&0xF0u64, 0x0F), KeyHash { low: 0xFF, high: 0xFF });
}

#[test]
fn fast_int_hash_is_one_multiplication() {
    let x = 0x1234_5678_9abc_def0u64;
    let seed = 77;
    let h = FastIntHash::hash(&x, seed);
    assert_eq!(h.low, x.wrapping_mul(C) ^ seed);
    assert_eq!(h.high, h.low);
    assert_ne!(h.low, x ^ seed);
}

#[test]
fn stronger_int_hash_folds_the_product() {
    let x = 1u64 << 40;
    let seed = 3;
    let r = ((x ^ seed) as u128) * (C as u128);
    let expected = ((r as u64) ^ ((r >> 64) as u64)).wrapping_mul(C);
    assert_eq!(StrongerIntHash::hash(&x, seed), KeyHash { low: expected, high: expected });
}

#[test]
fn xxh3_hashers_match_the_library() {
    let x = 42u64;
    assert_eq!(Xxh3Int::hash(&x, 9).low, xxhash_rust::xxh3::xxh3_64_with_seed(&x.to_le_bytes(), 9));
    assert_eq!(Xxh3::hash(&"abc", 5).low, xxhash_rust::xxh3::xxh3_64_with_seed(b"abc", 5));
    let h128 = xxhash_rust::xxh3::xxh3_128_with_seed(b"abc", 5);
    let h = Xxh3_128::hash(&"abc", 5);
    assert_eq!(h.low, h128 as u64);
    assert_eq!(h.high, (h128 >> 64) as u64);
    assert_ne!(h.low, h.high);
}

#[test]
fn mul_high_is_the_high_word() {
    assert_eq!(mul_high(u64::MAX, u64::MAX), u64::MAX - 1);
    assert_eq!(mul_high(1 << 32, 1 << 32), 1);
    assert_eq!(mul_high(3, 1 << 63), 1);
}

#[test]
fn fast_reduce_lands_in_range() {
    let r = FastReduce::new(10);
    assert_eq!(r.reduce(0), 0);
    assert_eq!(r.reduce(u64::MAX), 9);
    assert_eq!(r.reduce(1 << 63), 5);
    let (q, rest) = r.reduce_with_remainder((1 << 63) + 1);
    assert_eq!(q, 5);
    assert_eq!(rest, 10);
}

#[test]
fn mul_reduce_masks() {
    let r = MulReduce::new(16);
    assert_eq!(r.mask, 15);
    let h = 0xdead_beef_u64;
    assert_eq!(r.reduce(h), (mh(C, h) & 15) as usize);
}

#[test]
fn slot_reduce_is_remainder() {
    let r = SlotReduce::new(7);
    assert_eq!(r.reduce(100), 2);
    assert_eq!(r.reduce(u64::MAX), (u64::MAX % 7) as usize);
}

#[test]
fn bucket_functions() {
    let x = 1u64 << 63;
    assert!(Linear::linear());
    assert!(!Square::linear());
    assert_eq!(Linear.call(x), x);
    assert_eq!(Square.call(x), 1 << 62);
    assert_eq!(SquareEps.call(x), (1u64 << 62) / 256 * 255 + x / 256);
    let half_up = (x >> 1) | (1 << 63);
    assert_eq!(Cubic.call(x), mh(1 << 62, half_up));
    assert_eq!(CubicEps.call(x), mh(1 << 62, half_up) / 256 * 255 + x / 256);
    assert_eq!(CubicEps.call(u64::MAX), mh(mh(u64::MAX, u64::MAX), u64::MAX) / 256 * 255 + u64::MAX / 256);
    let mut last = 0;
    for i in 0..100u64 {
        let y = CubicEps.call(u64::MAX / 100 * i);
        assert!(y >= last);
        last = y;
    }
}

#[test]
fn layout_of_small_sets() {
    let l = layout(5, &PtrHashParams::default_fast());
    assert_eq!(l.shards, 1);
    assert_eq!(l.parts, 1);
    assert_eq!(l.slots, 6);
    assert_eq!(l.buckets, 5);
    assert_eq!(l.slots_total, 6);
    assert_eq!(l.buckets_total, 5);
    // One key: 4 buckets, so at least 5 slots.
    let l1 = layout(1, &PtrHashParams::default_fast());
    assert_eq!(l1.buckets, 4);
    assert_eq!(l1.slots, 5);
    // Keys per part are rounded up, so that there are at least n slots.
    let mut exact = PtrHashParams::default_fast();
    exact.alpha = 1000;
    let l = layout(100_001, &exact);
    assert_eq!(l.parts, 2);
    assert!(l.slots_total >= 100_001);
    assert!(l.slots > l.buckets);
}

#[test]
fn layout_of_large_sets() {
    let l = layout(1_000_000, &PtrHashParams::default_fast());
    assert_eq!(l.parts, 5);
    assert_eq!(l.slots, 202_021);
    assert_eq!(l.buckets, 66_670);
    let mut p = PtrHashParams::default_fast();
    p.sharding = Sharding::Memory;
    p.keys_per_shard = 300_000;
    let l = layout(1_000_000, &p);
    assert_eq!(l.shards, 4);
    assert_eq!(l.parts, 4);
    assert_eq!(l.parts % l.shards, 0);
}

#[test]
fn packed_tables() {
    let v = <Vec<u32> as MutPacked>::try_new(vec![1, 2, 3]).unwrap();
    assert_eq!(Packed::index(&v, 2), 3);
    assert_eq!(v.size_in_bytes(), 12);
    assert!(<Vec<u32> as MutPacked>::try_new(vec![1 << 40]).is_none());
    let w = <Vec<u64> as MutPacked>::try_new(vec![1 << 40]).unwrap();
    assert_eq!(Packed::index(&w, 0), 1 << 40);
}

#[test]
fn test_skewed() {
    let mut skewed = Skewed::new(600, 300);
    skewed.set_buckets_per_part(1000000000);

    let mut last_y = 0;
    let n = 100;
    for i in 0..100 {
        let x = u64::MAX / n * i;
        let y = skewed.call(x);
        assert!(y >= last_y);
        last_y = y;
    }
}

#[test]
fn skewed_splits_hashes_and_buckets() {
    let mut skewed = Skewed::default_skew();
    skewed.set_buckets_per_part(1000);
    // 60% of the hashes land in the first 30% of the buckets.
    let at_beta = skewed.call(u64::MAX / 10 * 6 - 1);
    assert!((295..=300).contains(&at_beta), "{at_beta}");
    assert!(skewed.call(u64::MAX) <= 1000);
    assert_eq!(skewed.call(0), 0);
}

#[test]
fn build_with_skewed_buckets() {
    let keys: Vec<u64> = (0..50_000u64).collect();
    let base = PtrHashParams::default_fast();
    let params = PtrHashParams {
        bucket_fn: Skewed::default_skew(),
        remap: base.remap,
        alpha: base.alpha,
        lambda: base.lambda,
        keys_per_shard: base.keys_per_shard,
        sharding: base.sharding,
        single_part: base.single_part,
    };
    let ph = PtrHash::<u64, Skewed, StrongerIntHash>::new(&keys, params).unwrap();
    let mut idx: Vec<usize> = keys.iter().map(|k| ph.index(k)).collect();
    idx.sort();
    assert_eq!(idx, (0..50_000).collect::<Vec<_>>());
}

#[test]
fn shards_per_pass() {
    assert_eq!(Sharding::Hybrid(1 << 20).shards_per_pass(1000, 1 << 10, 8), 128);
    assert_eq!(Sharding::Hybrid(1 << 20).shards_per_pass(16, 1 << 10, 8), 16);
    assert_eq!(Sharding::Hybrid(10).shards_per_pass(16, 1 << 10, 8), 1);
    assert_eq!(Sharding::Disk.shards_per_pass(4, 1 << 10, 8), 4);
}
