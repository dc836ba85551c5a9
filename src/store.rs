use vstd::prelude::*;
use crate::bucket_fn::Linear;
use crate::error::BuildError;
use crate::hash::StrongerIntHash;
use crate::ptr_hash::{key_count_ok, PtrHash, PtrHashParams};

verus! {

/// Why a store could not be built, or a key was not found.
#[derive(Clone, Copy, Debug, PartialEq, Eq, Structural)]
pub enum KvError {
    /// The key is not in the store.
    KeyNotFound { key: u64 },
    /// There are no entries.
    EmptyKeySet,
    /// There are not as many values as keys.
    LengthMismatch { keys: usize, values: usize },
    /// The index over the keys could not be built; keys that occur twice
    /// always end here.
    Build(BuildError),
}

/// The index a store uses: integer keys under the mixing hash, which copes
/// with regular keys such as consecutive integers.
pub type StoreIndex = PtrHash<u64, Linear, StrongerIntHash>;

/// An immutable map from `u64` keys to values. A lookup finds the one
/// candidate entry through the index and compares its key, so keys that were
/// never stored are reported missing.
pub struct VerifiedKvStore<V> {
    pub mphf: StoreIndex,
    /// The keys, in the order they were given.
    pub keys: Vec<u64>,
    /// The values, beside their keys.
    pub values: Vec<V>,
    /// For each index, the position of the key that the index sends there.
    pub slots: Vec<usize>,
}

impl<V> VerifiedKvStore<V> {
    /// The invariant: the index was built on the keys and sends each key to a
    /// distinct position below `n`, and `slots` leads from that position back
    /// to the key.
    pub open spec fn wf(&self) -> bool {
        &&& self.mphf.built_on(self.keys@)
        &&& self.mphf.is_minimal()
        &&& self.values@.len() == self.keys@.len()
        &&& self.slots@.len() == self.keys@.len()
        &&& forall|i: int| 0 <= i < self.keys@.len() ==> self.slots@[#[trigger] self.mphf.index_of(&self.keys@[i])] == i
        &&& forall|j: int| 0 <= j < self.slots@.len() ==> #[trigger] self.slots@[j] < self.keys@.len()
    }

    /// Whether `key` is one of the stored keys.
    pub open spec fn has_key(&self, key: u64) -> bool {
        exists|i: int| 0 <= i < self.keys@.len() && self.keys@[i] == key
    }

    /// Build a store of `keys[i] -> values[i]`.
    pub fn new(keys: Vec<u64>, values: Vec<V>) -> (r: Result<Self, KvError>)
        requires
            key_count_ok(keys.len()),
        ensures
            keys@.len() != values@.len() ==> r == Err::<Self, KvError>(
                KvError::LengthMismatch { keys: keys@.len() as usize, values: values@.len() as usize },
            ),
            keys@.len() == values@.len() ==> (r == Err::<Self, KvError>(KvError::EmptyKeySet) <==> keys@.len() == 0),
            (exists|i: int, j: int| 0 <= i < j < keys@.len() && keys@[i] == keys@[j]) ==> r is Err,
            r matches Ok(s) ==> s.wf() && s.keys@ == keys@ && s.values@ == values@,
            r matches Err(KvError::Build(_)) ==> keys@.len() == values@.len() && keys@.len() > 0,
    {
        if keys.len() != values.len() {
            return Err(KvError::LengthMismatch { keys: keys.len(), values: values.len() });
        }
        if keys.len() == 0 {
            return Err(KvError::EmptyKeySet);
        }
        let mphf = match StoreIndex::new(&keys, PtrHashParams::default_fast()) {
            Ok(m) => m,
            Err(e) => {
                return Err(KvError::Build(e));
            },
        };
        Ok(Self::from_index(mphf, keys, values))
    }

    /// A store over an index built on `keys`: always succeeds. Each position
    /// below `n` is written once, since the index gives distinct keys distinct
    /// positions.
    pub fn from_index(mphf: StoreIndex, keys: Vec<u64>, values: Vec<V>) -> (r: Self)
        requires
            mphf.built_on(keys@),
            mphf.is_minimal(),
            keys@.len() == values@.len(),
        ensures
            r.wf(),
            r.keys@ == keys@,
            r.values@ == values@,
            r.mphf.seed == mphf.seed && r.mphf.pilots@ == mphf.pilots@ && r.mphf.remap@ == mphf.remap@,
    {
        let n = keys.len();
        let mut slots: Vec<usize> = Vec::new();
        let mut j: usize = 0;
        while j < n
            invariant
                j <= n,
                slots@.len() == j,
                forall|k: int| 0 <= k < j ==> #[trigger] slots@[k] < n,
            decreases n - j,
        {
            slots.push(0);
            j = j + 1;
        }
        // Each position is written once: the index gives distinct keys distinct positions.
        let mut i: usize = 0;
        while i < n
            invariant
                n == keys@.len(),
                i <= n,
                mphf.built_on(keys@),
                mphf.is_minimal(),
                slots@.len() == n,
                forall|k: int| 0 <= k < n ==> #[trigger] slots@[k] < n,
                forall|a: int| 0 <= a < i ==> slots@[#[trigger] mphf.index_of(&keys@[a])] == a,
            decreases n - i,
        {
            let x = mphf.index(&keys[i]);
            proof {
                assert(x == mphf.index_of(&keys@[i as int]));
            }
            let ghost before = slots@;
            slots.set(x, i);
            assert forall|a: int| 0 <= a < i + 1 implies slots@[#[trigger] mphf.index_of(&keys@[a])] == a by {
                if a < i {
                    assert(mphf.index_of(&keys@[a]) != mphf.index_of(&keys@[i as int]));
                    assert(slots@[mphf.index_of(&keys@[a])] == before[mphf.index_of(&keys@[a])]);
                }
            }
            i = i + 1;
        }
        VerifiedKvStore { mphf, keys, values, slots }
    }

    /// The value stored for `key`.
    pub fn get(&self, key: &u64) -> (r: Result<&V, KvError>)
        requires
            self.wf(),
        ensures
            r is Ok <==> self.has_key(*key),
            r matches Ok(v) ==> exists|i: int| 0 <= i < self.keys@.len() && self.keys@[i] == *key && *v == self.values@[i],
            r is Err ==> r == Err::<&V, KvError>(KvError::KeyNotFound { key: *key }),
    {
        let j = self.mphf.index(key);
        let i = self.slots[j];
        proof {
            if self.has_key(*key) {
                let i0 = choose|i0: int| 0 <= i0 < self.keys@.len() && self.keys@[i0] == *key;
                assert(self.mphf.index_of(&self.keys@[i0]) == self.mphf.index_of(key));
                assert(self.slots@[j as int] == i0);
            }
        }
        if self.keys[i] == *key {
            Ok(&self.values[i])
        } else {
            Err(KvError::KeyNotFound { key: *key })
        }
    }

    /// Whether `key` is stored.
    pub fn contains_key(&self, key: &u64) -> (r: bool)
        requires
            self.wf(),
        ensures
            r == self.has_key(*key),
    {
        self.get(key).is_ok()
    }

    /// The number of entries.
    pub fn len(&self) -> (r: usize)
        ensures
            r == self.keys@.len(),
    {
        self.keys.len()
    }

    /// Whether there are no entries; a built store has at least one.
    pub fn is_empty(&self) -> (r: bool)
        ensures
            r == (self.keys@.len() == 0),
    {
        self.keys.len() == 0
    }

    /// The stored keys, in the order they were given.
    pub fn keys(&self) -> (r: &Vec<u64>)
        ensures
            r@ == self.keys@,
    {
        &self.keys
    }

    /// The stored values, beside their keys.
    pub fn values(&self) -> (r: &Vec<V>)
        ensures
            r@ == self.values@,
    {
        &self.values
    }
}

} // verus!
