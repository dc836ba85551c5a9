use vstd::prelude::*;
use crate::bucket_fn::BucketFn;
use crate::hash::{KeyHash, KeyHasher};
use crate::ptr_hash::PtrHash;

verus! {

proof fn lemma_window_residues(i: int, j: int, b: int)
    requires
        b > 0,
        0 <= i < j < i + b,
    ensures
        j % b != i % b,
        (i + b) % b == i % b,
{
    vstd::arithmetic::div_mod::lemma_fundamental_div_mod(i, b);
    vstd::arithmetic::div_mod::lemma_fundamental_div_mod(j, b);
    vstd::arithmetic::div_mod::lemma_mod_add_multiples_vanish(i, b);
    let qi = i / b;
    let qj = j / b;
    if j % b == i % b {
        let d = qj - qi;
        assert(j - i == b * d) by (nonlinear_arith)
            requires i == b * qi + i % b, j == b * qj + j % b, j % b == i % b, d == qj - qi;
        if d <= 0 {
            assert(b * d <= 0) by (nonlinear_arith)
                requires b > 0, d <= 0;
        } else {
            assert(b * d >= b) by (nonlinear_arith)
                requires b > 0, d >= 1;
        }
    }
}

impl<Key, BF: BucketFn, Hx: KeyHasher<Key>> PtrHash<Key, BF, Hx> {
    /// The index (with `MINIMAL`) or the slot of each key, in order.
    pub open spec fn stream_spec(&self, keys: Seq<Key>, minimal: bool) -> Seq<int> {
        Seq::new(keys.len(), |i: int| if minimal { self.index_of(&keys[i]) } else { self.index_no_remap_of(&keys[i]) })
    }

    /// The indices of `keys`, in order, with a window of `B` keys hashed
    /// ahead: the pilot of a key is read `B` keys after its bucket is known,
    /// so that its cache line has arrived. With `MINIMAL` slots past `n` are
    /// remapped, as `index` does; without, the slots are those of `index_no_remap`.
    pub fn index_stream<const B: usize, const MINIMAL: bool>(&self, keys: &Vec<Key>) -> (r: Vec<usize>)
        requires
            self.wf(),
            B > 0,
        ensures
            r@.len() == keys@.len(),
            forall|i: int| 0 <= i < keys@.len() ==> r@[i] as int == #[trigger] self.stream_spec(keys@, MINIMAL)[i],
    {
        let len = keys.len();
        let mut hs: Vec<KeyHash> = Vec::new();
        let mut bs: Vec<usize> = Vec::new();
        let mut j: usize = 0;
        while j < B
            invariant
                self.wf(),
                len == keys@.len(),
                j <= B,
                hs@.len() == j,
                bs@.len() == j,
                forall|k: int| 0 <= k < j && k < len ==> hs@[k] == #[trigger] self.key_hash(&keys@[k]),
                forall|k: int| 0 <= k < j ==> bs@[k] == self.bucket_spec(#[trigger] hs@[k]),
                forall|k: int| 0 <= k < j ==> #[trigger] bs@[k] < self.layout.buckets_total,
            decreases B - j,
        {
            let h = if j < len {
                self.hash_key(&keys[j])
            } else {
                KeyHash { low: 0, high: 0 }
            };
            hs.push(h);
            bs.push(self.bucket(h));
            j = j + 1;
        }
        assert forall|k: int| 0 <= k < B && k < len implies hs@[k % (B as int)] == #[trigger] self.key_hash(&keys@[k]) by {
            vstd::arithmetic::div_mod::lemma_small_mod(k as nat, B as nat);
        }
        let mut out: Vec<usize> = Vec::new();
        let mut i: usize = 0;
        while i < len
            invariant
                self.wf(),
                B > 0,
                forall|k: int| 0 <= k < B ==> #[trigger] bs@[k] < self.layout.buckets_total,
                len == keys@.len(),
                i <= len,
                hs@.len() == B,
                bs@.len() == B,
                out@.len() == i,
                forall|k: int| i <= k < i + B && k < len ==> hs@[k % (B as int)] == #[trigger] self.key_hash(&keys@[k]),
                forall|k: int| 0 <= k < B ==> bs@[k] == self.bucket_spec(#[trigger] hs@[k]),
                forall|k: int| 0 <= k < i ==> out@[k] as int == #[trigger] self.stream_spec(keys@, MINIMAL)[k],
            decreases len - i,
        {
            let idx = i % B;
            let h = hs[idx];
            let b = bs[idx];
            assert(h == self.key_hash(&keys@[i as int]));
            let slot = self.slot(h, self.pilots[b] as u64);
            if B < len - i {
                let nh = self.hash_key(&keys[i + B]);
                let ghost old_hs = hs@;
                hs.set(idx, nh);
                bs.set(idx, self.bucket(nh));
                assert forall|k: int| i + 1 <= k < i + 1 + B && k < len implies hs@[k % (B as int)] == #[trigger] self.key_hash(&keys@[k]) by {
                    if k < i + B {
                        lemma_window_residues(i as int, k, B as int);
                        assert(hs@[k % (B as int)] == old_hs[k % (B as int)]);
                    } else {
                        vstd::arithmetic::div_mod::lemma_mod_add_multiples_vanish(i as int, B as int);
                        assert(k == i + B);
                    }
                }
            } else {
                assert forall|k: int| i + 1 <= k < i + 1 + B && k < len implies hs@[k % (B as int)] == #[trigger] self.key_hash(&keys@[k]) by {
                    assert(k < i + B);
                }
            }
            let v = if MINIMAL {
                self.remap_slot(slot)
            } else {
                slot
            };
            out.push(v);
            i = i + 1;
        }
        out
    }

    /// The indices of a batch of `K` keys: all hashes and buckets first, then
    /// all pilots and slots.
    pub fn index_batch<const K: usize, const MINIMAL: bool>(&self, xs: &[Key; K]) -> (r: Vec<usize>)
        requires
            self.wf(),
        ensures
            r@.len() == K,
            forall|i: int| 0 <= i < K ==> r@[i] as int == #[trigger] self.stream_spec(xs@, MINIMAL)[i],
    {
        let mut hs: Vec<KeyHash> = Vec::new();
        let mut bs: Vec<usize> = Vec::new();
        let mut j: usize = 0;
        while j < K
            invariant
                self.wf(),
                xs@.len() == K,
                j <= K,
                hs@.len() == j,
                bs@.len() == j,
                forall|k: int| 0 <= k < j ==> hs@[k] == #[trigger] self.key_hash(&xs@[k]),
                forall|k: int| 0 <= k < j ==> bs@[k] == self.bucket_spec(#[trigger] hs@[k]),
                forall|k: int| 0 <= k < j ==> #[trigger] bs@[k] < self.layout.buckets_total,
            decreases K - j,
        {
            let h = self.hash_key(&xs[j]);
            hs.push(h);
            bs.push(self.bucket(h));
            j = j + 1;
        }
        let mut out: Vec<usize> = Vec::new();
        let mut i: usize = 0;
        while i < K
            invariant
                self.wf(),
                xs@.len() == K,
                i <= K,
                hs@.len() == K,
                bs@.len() == K,
                out@.len() == i,
                forall|k: int| 0 <= k < K ==> #[trigger] bs@[k] < self.layout.buckets_total,
                forall|k: int| 0 <= k < K ==> hs@[k] == #[trigger] self.key_hash(&xs@[k]),
                forall|k: int| 0 <= k < K ==> bs@[k] == self.bucket_spec(#[trigger] hs@[k]),
                forall|k: int| 0 <= k < i ==> out@[k] as int == #[trigger] self.stream_spec(xs@, MINIMAL)[k],
            decreases K - i,
        {
            let slot = self.slot(hs[i], self.pilots[bs[i]] as u64);
            let v = if MINIMAL {
                self.remap_slot(slot)
            } else {
                slot
            };
            out.push(v);
            i = i + 1;
        }
        out
    }
}

} // verus!
