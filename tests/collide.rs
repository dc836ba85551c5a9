use ptr_hash::bucket_fn::Linear;
use ptr_hash::hash::{KeyHash, KeyHasher};
use ptr_hash::{BuildError, PtrHash, PtrHashParams};

/// Sends the keys 1 and 2 to the same hash, every other key to its own.
struct Colliding;

impl KeyHasher<u64> for Colliding {
    fn hash_spec(x: &u64, seed: u64) -> KeyHash {
        Self::hash(x, seed)
    }

    fn hash(x: &u64, seed: u64) -> KeyHash {
        let k = if *x == 2 { 1 } else { *x };
        let h = k.wrapping_mul(0x9E37_79B9_7F4A_7C15) ^ seed;
        KeyHash { low: h, high: h }
    }
}

#[test]
fn unsolvable_retry_with_hash_stub() {
    let keys: Vec<u64> = (0..50).collect();
    match PtrHash::<u64, Linear, Colliding>::new(&keys, PtrHashParams::default()) {
        Err(BuildError::IndistinguishableHashes { bucket_size, .. }) => assert!(bucket_size >= 2),
        other => panic!("expected indistinguishable hashes, got {:?}", other.err()),
    }
}
