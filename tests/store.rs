use ptr_hash::store::{KvError, VerifiedKvStore};
use ptr_hash::BuildError;

fn store_of(pairs: &[(u64, &str)]) -> Result<VerifiedKvStore<String>, KvError> {
    let keys: Vec<u64> = pairs.iter().map(|p| p.0).collect();
    let values: Vec<String> = pairs.iter().map(|p| p.1.to_string()).collect();
    VerifiedKvStore::new(keys, values)
}

#[test]
fn test_empty_data_rejected() {
    let result = VerifiedKvStore::<String>::new(vec![], vec![]);
    assert!(matches!(result, Err(KvError::EmptyKeySet)));
}

#[test]
fn test_integer_keys() {
    let keys: Vec<u64> = (0..100).collect();
    let values: Vec<String> = (0..100).map(|i| format!("value_{}", i)).collect();
    let verified = VerifiedKvStore::new(keys, values).unwrap();
    assert_eq!(verified.get(&42).unwrap(), &"value_42");
}

#[test]
fn test_u64_keys() {
    let store = store_of(&[(u64::MAX, "max"), (u64::MIN, "min"), (12345, "middle")]).unwrap();
    assert_eq!(store.get(&u64::MAX).unwrap(), "max");
    assert_eq!(store.get(&u64::MIN).unwrap(), "min");
    assert_eq!(store.get(&12345u64).unwrap(), "middle");
}

#[test]
fn missing_keys_are_reported() {
    let keys: Vec<u64> = (0..1000).map(|i| i * 3).collect();
    let values: Vec<u64> = (0..1000).collect();
    let store = VerifiedKvStore::new(keys, values).unwrap();
    for k in 0..3000u64 {
        if k % 3 == 0 {
            assert_eq!(store.get(&k), Ok(&(k / 3)));
            assert!(store.contains_key(&k));
        } else {
            assert_eq!(store.get(&k), Err(KvError::KeyNotFound { key: k }));
            assert!(!store.contains_key(&k));
        }
    }
}

#[test]
fn single_entry_store() {
    let store = store_of(&[(42, "only_value")]).unwrap();
    assert_eq!(store.len(), 1);
    assert!(!store.is_empty());
    assert_eq!(store.get(&42).unwrap(), "only_value");
    assert!(store.get(&43).is_err());
}

#[test]
fn keys_and_values_kept_in_order() {
    let store = store_of(&[(5, "five"), (1, "one"), (9, "nine")]).unwrap();
    assert_eq!(store.keys(), &vec![5, 1, 9]);
    assert_eq!(store.values(), &vec!["five".to_string(), "one".to_string(), "nine".to_string()]);
}

#[test]
fn length_mismatch_rejected() {
    let r = VerifiedKvStore::new(vec![1u64, 2], vec![1u8]);
    assert_eq!(r.err(), Some(KvError::LengthMismatch { keys: 2, values: 1 }));
}

#[test]
fn duplicate_keys_rejected() {
    let r = store_of(&[(7, "a"), (8, "b"), (7, "c")]);
    assert!(matches!(r, Err(KvError::Build(BuildError::IndistinguishableHashes { .. }))));
}
