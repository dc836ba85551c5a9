use ptr_hash::bucket_fn::Linear;
use ptr_hash::hash::{FastIntHash, NoHash, StringHash, StringHash128, StrongerIntHash};
use ptr_hash::{BuildError, PtrHash, PtrHashParams, Sharding};

type IntHash = PtrHash<u64, Linear, FastIntHash>;

// Sequential keys under the one-multiplication hash fall into buckets of
// almost equal size, which leaves no small buckets for the last free slots;
// the mixing hash spreads them as random keys are spread.
type SeqHash = PtrHash<u64, Linear, StrongerIntHash>;

#[test]
fn tiny_integer_build() {
    let keys = vec![7u64, 42, 100, 255, 1000];
    let params = PtrHashParams::default_fast();
    assert_eq!(params.alpha, 990);
    assert_eq!(params.lambda, 30);
    let ph = IntHash::new(&keys, params).unwrap();
    let mut idx: Vec<usize> = keys.iter().map(|k| ph.index(k)).collect();
    idx.sort();
    assert_eq!(idx, vec![0, 1, 2, 3, 4]);
    assert!(ph.max_index() <= 7);
    assert_eq!(ph.n(), 5);
}

#[test]
fn string_keys() {
    let keys = vec!["alpha", "beta", "gamma", "delta"];
    let ph = PtrHash::<&str, Linear, StringHash>::new(&keys, PtrHashParams::default()).unwrap();
    let mut idx: Vec<usize> = keys.iter().map(|k| ph.index(k)).collect();
    idx.sort();
    assert_eq!(idx, vec![0, 1, 2, 3]);
}

#[test]
fn string_keys_128_bit_hash() {
    let keys = vec!["alpha", "beta", "gamma", "delta", "epsilon"];
    let ph = PtrHash::<&str, Linear, StringHash128>::new(&keys, PtrHashParams::default()).unwrap();
    let mut idx: Vec<usize> = keys.iter().map(|k| ph.index(k)).collect();
    idx.sort();
    assert_eq!(idx, vec![0, 1, 2, 3, 4]);
}

#[test]
fn streaming_sum() {
    let keys: Vec<u64> = (0..1_000_000u64).collect();
    let ph = SeqHash::new(&keys, PtrHashParams::default()).unwrap();
    let sum: usize = ph.index_stream::<32, true>(&keys).iter().sum();
    assert_eq!(sum, 499_999_500_000);
}

#[test]
fn duplicate_slot_triangle() {
    let keys: Vec<u64> = (0..100u64).collect();
    let ph = IntHash::new(&keys, PtrHashParams::default()).unwrap();
    let mut taken = vec![false; 100];
    for k in &keys {
        let i = ph.index(k);
        assert!(!taken[i]);
        taken[i] = true;
    }
    assert!(taken.iter().all(|&t| t));
}

#[test]
fn unsolvable_retry_on_colliding_keys() {
    // Two equal keys have the same hash under every seed.
    let keys = vec![11u64, 11u64];
    match IntHash::new(&keys, PtrHashParams::default()) {
        Err(BuildError::IndistinguishableHashes { part, bucket_size }) => {
            assert_eq!(part, 0);
            assert_eq!(bucket_size, 2);
        },
        Err(e) => panic!("unexpected error {e:?}"),
        Ok(_) => panic!("colliding keys cannot be built"),
    }
    assert!(IntHash::try_new(&keys, PtrHashParams::default()).is_none());
}

#[test]
fn hybrid_sharding() {
    let n: usize = 1 << 21;
    let keys: Vec<u64> = (0..n as u64).collect();
    let mut params = PtrHashParams::default_fast();
    params.keys_per_shard = 1 << 18;
    params.sharding = Sharding::Hybrid(1 << 22);
    let ph = PtrHash::<u64, Linear, StrongerIntHash>::new(&keys, params).unwrap();
    assert_eq!(ph.layout.shards, 8);
    let mut seen = std::collections::HashSet::new();
    for _ in 0..1024 {
        let k = rand::random::<u64>() % (n as u64);
        seen.insert((k, ph.index(&k)));
    }
    let keys_seen: std::collections::HashSet<u64> = seen.iter().map(|p| p.0).collect();
    let idx_seen: std::collections::HashSet<usize> = seen.iter().map(|p| p.1).collect();
    assert_eq!(keys_seen.len(), idx_seen.len());
    assert!(idx_seen.iter().all(|&i| i < n));
}

#[test]
fn single_key_goes_to_zero() {
    let ph = IntHash::new(&vec![123456789u64], PtrHashParams::default()).unwrap();
    assert_eq!(ph.index(&123456789), 0);
}

#[test]
fn two_keys_go_to_zero_and_one() {
    let ph = IntHash::new(&vec![5u64, 6u64], PtrHashParams::default()).unwrap();
    let mut idx = vec![ph.index(&5), ph.index(&6)];
    idx.sort();
    assert_eq!(idx, vec![0, 1]);
}

#[test]
fn empty_key_set_is_rejected() {
    let keys: Vec<u64> = vec![];
    assert!(matches!(IntHash::new(&keys, PtrHashParams::default()), Err(BuildError::EmptyKeySet)));
}

#[test]
fn large_stride_multiples() {
    let keys: Vec<u64> = (0..100_000u64).map(|k| k << 40).collect();
    let ph = PtrHash::<u64, Linear, StrongerIntHash>::new(&keys, PtrHashParams::default()).unwrap();
    let mut done = vec![false; keys.len()];
    for k in &keys {
        let i = ph.index(k);
        assert!(!done[i]);
        done[i] = true;
    }
}

#[test]
fn no_hash_on_random_keys() {
    let keys: Vec<u64> = (0..1000u64).map(|k| k.wrapping_mul(0x9E37_79B9_7F4A_7C15)).collect();
    let ph = PtrHash::<u64, Linear, NoHash>::new(&keys, PtrHashParams::default()).unwrap();
    let mut idx: Vec<usize> = keys.iter().map(|k| ph.index(k)).collect();
    idx.sort();
    assert_eq!(idx, (0..1000).collect::<Vec<_>>());
}

#[test]
fn no_remap_below_max_index() {
    let keys: Vec<u64> = (0..10_000u64).collect();
    let ph = SeqHash::new(&keys, PtrHashParams::default()).unwrap();
    assert!(ph.max_index() > ph.n());
    let mut seen = vec![false; ph.max_index()];
    for k in &keys {
        let s = ph.index_no_remap(k);
        assert!(s < ph.max_index());
        assert!(!seen[s]);
        seen[s] = true;
    }
}

#[test]
fn stream_of_one_key_is_its_index() {
    let keys: Vec<u64> = (0..500u64).collect();
    let ph = SeqHash::new(&keys, PtrHashParams::default()).unwrap();
    for k in keys.iter().take(50) {
        assert_eq!(ph.index_stream::<32, true>(&vec![*k]), vec![ph.index(k)]);
        assert_eq!(ph.index_stream::<1, false>(&vec![*k]), vec![ph.index_no_remap(k)]);
    }
}

#[test]
fn stream_matches_index_for_every_window() {
    let keys: Vec<u64> = (0..3000u64).collect();
    let ph = SeqHash::new(&keys, PtrHashParams::default()).unwrap();
    let expected: Vec<usize> = keys.iter().map(|k| ph.index(k)).collect();
    assert_eq!(ph.index_stream::<1, true>(&keys), expected);
    assert_eq!(ph.index_stream::<7, true>(&keys), expected);
    assert_eq!(ph.index_stream::<4096, true>(&keys), expected);
}

#[test]
fn single_part_queries_agree() {
    let keys: Vec<u64> = (0..50_000u64).collect();
    let mut params = PtrHashParams::default();
    params.single_part = true;
    let ph = SeqHash::new(&keys, params).unwrap();
    for k in &keys {
        assert_eq!(ph.index_single_part(k), ph.index(k));
        assert_eq!(ph.index_single_part_no_remap(k), ph.index_no_remap(k));
    }
}

#[test]
fn round_trip_from_parts() {
    let keys: Vec<u64> = (0..20_000u64).map(|k| k * 7 + 3).collect();
    let params = PtrHashParams::default_balanced();
    let ph = PtrHash::<u64, _, FastIntHash>::new(&keys, params).unwrap();
    let copy = PtrHash::<u64, _, FastIntHash>::from_parts(
        ph.n(),
        params,
        ph.seed,
        ph.pilots.clone(),
        ph.remap.clone(),
    )
    .unwrap();
    for k in keys.iter().chain([1u64, 2, 99_999_999].iter()) {
        assert_eq!(copy.index(k), ph.index(k));
        assert_eq!(copy.index_no_remap(k), ph.index_no_remap(k));
    }
    let short = ph.pilots[1..].to_vec();
    assert!(PtrHash::<u64, _, FastIntHash>::from_parts(ph.n(), params, ph.seed, short, ph.remap.clone()).is_none());
}

#[test]
fn compact_and_square_parameters_build() {
    let keys: Vec<u64> = (0..30_000u64).collect();
    let ph = PtrHash::<u64, _, StrongerIntHash>::new(&keys, PtrHashParams::default_square()).unwrap();
    let mut idx: Vec<usize> = keys.iter().map(|k| ph.index(k)).collect();
    idx.sort();
    assert_eq!(idx, (0..30_000).collect::<Vec<_>>());
    let ph = PtrHash::<u64, _, StrongerIntHash>::new(&keys, PtrHashParams::default_compact()).unwrap();
    let mut idx: Vec<usize> = keys.iter().map(|k| ph.index(k)).collect();
    idx.sort();
    assert_eq!(idx, (0..30_000).collect::<Vec<_>>());
}

#[test]
fn without_remap_indices_are_slots() {
    let keys: Vec<u64> = (0..5000u64).collect();
    let mut params = PtrHashParams::default();
    params.remap = false;
    let ph = SeqHash::new(&keys, params).unwrap();
    assert!(ph.remap.is_empty());
    for k in &keys {
        assert_eq!(ph.index(k), ph.index_no_remap(k));
    }
}

#[test]
fn bits_per_element_counts_tables() {
    let keys: Vec<u64> = (0..10_000u64).collect();
    let ph = SeqHash::new(&keys, PtrHashParams::default()).unwrap();
    let (p, r) = ph.bits_per_element();
    assert_eq!(p as usize, 8000 * ph.pilots.len() / 10_000);
    assert_eq!(r as usize, 32000 * ph.remap.len() / 10_000);
    assert_eq!(ph.remap.len(), ph.max_index() - ph.n());
}

#[test]
fn remap_table_never_decreases() {
    let keys: Vec<u64> = (0..20_000u64).collect();
    let ph = SeqHash::new(&keys, PtrHashParams::default()).unwrap();
    assert_eq!(ph.remap.len(), ph.max_index() - ph.n());
    assert!(ph.remap.windows(2).all(|w| w[0] <= w[1]));
    assert!(ph.remap.iter().all(|&v| (v as usize) < ph.n()));
}

#[test]
fn exact_load_factor_has_enough_slots() {
    let keys: Vec<u64> = (0..100_001u64).collect();
    let mut params = PtrHashParams::default();
    params.alpha = 1000;
    assert!(ptr_hash::ptr_hash::layout(keys.len(), &params).slots_total >= keys.len());
}
