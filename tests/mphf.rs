use ptr_hash::bucket_fn::{CubicEps, Linear};
use ptr_hash::hash::{FastIntHash, KeyHasher, StringHash, StrongerIntHash};
use ptr_hash::{BuildError, PtrHash, PtrHashParams, Sharding};
use std::collections::HashSet;

type IntHash = ptr_hash::DefaultPtrHash;

fn generate_keys(n: usize) -> Vec<u64> {
    let mut seen = HashSet::new();
    let mut keys = Vec::with_capacity(n);
    while keys.len() < n {
        let k: u64 = rand::random();
        if seen.insert(k) {
            keys.push(k);
        }
    }
    keys
}

fn assert_distinct_below<K, BF: ptr_hash::bucket_fn::BucketFn, Hx: KeyHasher<K>>(
    ptr_hash: &PtrHash<K, BF, Hx>,
    keys: &[K],
) {
    let n = keys.len();
    let mut done = vec![false; n];
    for key in keys {
        let idx = ptr_hash.index(key);
        assert!(idx < n);
        assert!(!done[idx]);
        done[idx] = true;
    }
}

#[test]
fn construct_random() {
    for n in (0..10).chain([10, 30, 100, 300, 1000, 3000, 10_000, 30_000, 100_000, 300_000, 1_000_000]) {
        let keys = generate_keys(n);
        let built = IntHash::new(&keys, PtrHashParams::default_fast());
        if n == 0 {
            assert!(matches!(built, Err(BuildError::EmptyKeySet)));
            continue;
        }
        let ptr_hash = built.unwrap();
        assert_distinct_below(&ptr_hash, &keys);
    }
}

#[test]
fn construct_multiples() {
    for m in [1u64, 1 << 40, 1_000_000_000_000, 3u64.pow(23)] {
        for n in (0..10).chain([10, 30, 100, 300, 1000, 3000, 10_000, 30_000, 100_000]) {
            let keys: Vec<u64> = (0..n as u64).map(|i| m.wrapping_mul(i)).collect();
            if n == 0 {
                let built = PtrHash::<u64, Linear, StrongerIntHash>::new(&keys, PtrHashParams::default_fast());
                assert!(matches!(built, Err(BuildError::EmptyKeySet)));
                continue;
            }
            let ptr_hash = PtrHash::<u64, Linear, StrongerIntHash>::new(&keys, PtrHashParams::default_fast()).unwrap();
            assert_distinct_below(&ptr_hash, &keys);
        }
    }
}

#[test]
fn index_stream() {
    for n in [2usize, 10, 100, 1000, 10_000, 100_000, 1_000_000] {
        let keys = generate_keys(n);
        let ptr_hash = IntHash::new(&keys, PtrHashParams::default()).unwrap();
        let sum: usize = ptr_hash.index_stream::<32, true>(&keys).iter().sum();
        assert_eq!(sum, (n * (n - 1)) / 2, "Failure for n = {n}");
    }
}

#[test]
fn index_batch() {
    for n in [10usize, 100, 1000, 10_000, 100_000] {
        let n = n.next_multiple_of(32);
        let keys = generate_keys(n);
        let ptr_hash = IntHash::new(&keys, PtrHashParams::default()).unwrap();
        let mut sum = 0usize;
        for chunk in keys.chunks_exact(32) {
            let batch: [u64; 32] = chunk.try_into().unwrap();
            sum += ptr_hash.index_batch::<32, true>(&batch).iter().sum::<usize>();
        }
        assert_eq!(sum, (n * (n - 1)) / 2);
    }
}

#[test]
fn in_memory_sharding() {
    let n = 1 << 20;
    let keys: Vec<u64> = (0..n as u64).collect();
    let mut params = PtrHashParams::default_fast();
    params.keys_per_shard = 1 << 17;
    params.sharding = Sharding::Memory;
    let ptr_hash = PtrHash::<u64, Linear, StrongerIntHash>::new(&keys, params).unwrap();
    assert!(ptr_hash.layout.shards > 1);
    assert_distinct_below(&ptr_hash, &keys);
}

#[test]
fn on_disk_sharding() {
    let n = 1 << 20;
    let keys: Vec<u64> = (0..n as u64).collect();
    let mut params = PtrHashParams::default_fast();
    params.keys_per_shard = 1 << 17;
    params.sharding = Sharding::Disk;
    let ptr_hash = PtrHash::<u64, Linear, StrongerIntHash>::new(&keys, params).unwrap();
    assert_distinct_below(&ptr_hash, &keys);
}

#[test]
fn string_key_types() {
    let h = PtrHash::<&str, Linear, StringHash>::new(&vec!["a"], PtrHashParams::default()).unwrap();
    assert_eq!(h.index(&"a"), 0);
    assert_eq!(h.index(&"a".to_string().as_str()), 0);
}

#[test]
fn single_part() {
    let n = 1_000_000;
    let keys = generate_keys(n);
    let mut params = PtrHashParams::default();
    params.single_part = true;
    let mphf = IntHash::new(&keys, params).unwrap();
    assert_eq!(mphf.layout.parts, 1);
    for key in keys.iter().take(1000) {
        assert_eq!(mphf.index_single_part(key), mphf.index(key));
    }
    mphf.index_single_part(&0);
}

#[test]
fn integer_key_types() {
    let h = PtrHash::<u8, Linear, FastIntHash>::new(&vec![0u8], PtrHashParams::default()).unwrap();
    h.index(&0u8);
    let h = PtrHash::<u16, Linear, FastIntHash>::new(&vec![0u16], PtrHashParams::default()).unwrap();
    h.index(&0u16);
    let h = PtrHash::<u32, Linear, FastIntHash>::new(&vec![0u32], PtrHashParams::default()).unwrap();
    h.index(&0u32);
    let h = PtrHash::<u64, Linear, FastIntHash>::new(&vec![0u64], PtrHashParams::default()).unwrap();
    h.index(&0u64);
    let h = PtrHash::<usize, Linear, FastIntHash>::new(&vec![0usize], PtrHashParams::default()).unwrap();
    h.index(&0usize);
    let h = PtrHash::<i8, Linear, FastIntHash>::new(&vec![0i8], PtrHashParams::default()).unwrap();
    h.index(&0i8);
    let h = PtrHash::<i16, Linear, FastIntHash>::new(&vec![0i16], PtrHashParams::default()).unwrap();
    h.index(&0i16);
    let h = PtrHash::<i32, Linear, FastIntHash>::new(&vec![0i32], PtrHashParams::default()).unwrap();
    h.index(&0i32);
    let h = PtrHash::<i64, Linear, FastIntHash>::new(&vec![0i64], PtrHashParams::default()).unwrap();
    h.index(&0i64);
    let h = PtrHash::<isize, Linear, FastIntHash>::new(&vec![0isize], PtrHashParams::default()).unwrap();
    h.index(&0isize);
}

#[test]
fn fast_int_hash_matches_fx_hasher_for_every_width() {
    let seed = 0x55u64;
    assert_eq!(FastIntHash::hash(&0xABu8, seed).low, fxhash::hash64(&0xABu8) ^ seed);
    assert_eq!(FastIntHash::hash(&0xABCDu16, seed).low, fxhash::hash64(&0xABCDu16) ^ seed);
    assert_eq!(FastIntHash::hash(&0xDEAD_BEEFu32, seed).low, fxhash::hash64(&0xDEAD_BEEFu32) ^ seed);
    assert_eq!(FastIntHash::hash(&12345usize, seed).low, fxhash::hash64(&12345usize) ^ seed);
    assert_eq!(FastIntHash::hash(&-3i8, seed).low, fxhash::hash64(&-3i8) ^ seed);
    assert_eq!(FastIntHash::hash(&-300i16, seed).low, fxhash::hash64(&-300i16) ^ seed);
    assert_eq!(FastIntHash::hash(&-70000i32, seed).low, fxhash::hash64(&-70000i32) ^ seed);
    assert_eq!(FastIntHash::hash(&-5i64, seed).low, fxhash::hash64(&-5i64) ^ seed);
    assert_eq!(FastIntHash::hash(&-5isize, seed).low, fxhash::hash64(&-5isize) ^ seed);
    assert_eq!(FastIntHash::hash(&7u64, seed).low, fxhash::hash64(&7u64) ^ seed);
}

#[test]
fn shard_by_shard_construction() {
    let n = 1 << 18;
    let keys: Vec<u64> = (0..n as u64).collect();
    let mut params = PtrHashParams::default_fast();
    params.sharding = Sharding::Disk;
    params.keys_per_shard = 1 << 15;
    let mut ph = PtrHash::<u64, Linear, StrongerIntHash>::init(n, params);
    assert_eq!(ph.layout.shards, 8);
    let mut done = false;
    for seed in PtrHash::<u64, Linear, StrongerIntHash>::attempt_seeds() {
        ph.seed = seed;
        let mut routed: Vec<Vec<ptr_hash::hash::KeyHash>> = vec![Vec::new(); ph.layout.shards];
        for k in &keys {
            let h = ph.hash_key(k);
            routed[ph.shard_of(h)].push(h);
        }
        assert_eq!(routed.iter().map(|r| r.len()).sum::<usize>(), n);
        let mut pl = ph.start_placement();
        let mut ok = true;
        // Shards are independent: place them last to first.
        for s in (0..ph.layout.shards).rev() {
            if ph.place_shard(s, &routed[s], &mut pl).is_err() {
                ok = false;
                break;
            }
        }
        if ok && ph.finish_placement(pl, &keys).is_ok() {
            done = true;
            break;
        }
    }
    assert!(done);
    assert_distinct_below(&ph, &keys);
}

#[test]
fn attempt_seeds_are_fixed() {
    let a = IntHash::attempt_seeds();
    let b = IntHash::attempt_seeds();
    assert_eq!(a.len(), 10);
    assert_eq!(a, b);
}
