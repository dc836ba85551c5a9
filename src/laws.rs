use vstd::prelude::*;
use vstd::set_lib::{lemma_int_range, lemma_subset_equality, set_int_range};
use crate::bucket_fn::BucketFn;
use crate::hash::KeyHasher;
use crate::ptr_hash::{lemma_block_index, PtrHash};
use crate::reduce::lemma_product_bounds;
use crate::hash::KeyHash;

verus! {

/// The sum of a sequence of integers.
pub open spec fn seq_sum(s: Seq<int>) -> int
    decreases s.len(),
{
    if s.len() == 0 {
        0
    } else {
        seq_sum(s.drop_last()) + s.last()
    }
}

proof fn lemma_sum_remove(s: Seq<int>, i: int)
    requires
        0 <= i < s.len(),
    ensures
        seq_sum(s) == seq_sum(s.remove(i)) + s[i],
    decreases s.len(),
{
    if i == s.len() - 1 {
        assert(s.remove(i) =~= s.drop_last());
    } else {
        lemma_sum_remove(s.drop_last(), i);
        assert(s.remove(i).drop_last() =~= s.drop_last().remove(i));
        assert(s.remove(i).last() == s.last());
    }
}

/// A sequence of distinct values in `0..n`, `n` of them, holds every value of `0..n`.
proof fn lemma_distinct_range_covers(s: Seq<int>, n: int)
    requires
        s.len() == n,
        s.no_duplicates(),
        forall|i: int| 0 <= i < s.len() ==> 0 <= #[trigger] s[i] < n,
    ensures
        s.to_set() =~= set_int_range(0, n),
{
    s.unique_seq_to_set();
    lemma_int_range(0, n);
    assert(s.to_set().subset_of(set_int_range(0, n)));
    lemma_subset_equality(s.to_set(), set_int_range(0, n));
}

/// The values of a sequence of distinct values in `0..n`, `n` of them, add
/// up to `n (n - 1) / 2`.
pub proof fn lemma_permutation_sum(s: Seq<int>, n: int)
    requires
        s.len() == n,
        s.no_duplicates(),
        forall|i: int| 0 <= i < s.len() ==> 0 <= #[trigger] s[i] < n,
    ensures
        seq_sum(s) == n * (n - 1) / 2,
    decreases n,
{
    if n == 0 {
    } else {
        lemma_distinct_range_covers(s, n);
        assert(set_int_range(0, n).contains(n - 1));
        assert(s.to_set().contains(n - 1));
        let i = choose|i: int| 0 <= i < s.len() && s[i] == n - 1;
        let t = s.remove(i);
        assert forall|a: int, b: int| 0 <= a < t.len() && 0 <= b < t.len() && a != b implies t[a] != t[b] by {
            let a2 = if a < i { a } else { a + 1 };
            let b2 = if b < i { b } else { b + 1 };
            assert(t[a] == s[a2]);
            assert(t[b] == s[b2]);
        }
        assert forall|a: int| 0 <= a < t.len() implies 0 <= #[trigger] t[a] < n - 1 by {
            let a2 = if a < i { a } else { a + 1 };
            assert(t[a] == s[a2]);
            assert(a2 != i);
        }
        lemma_permutation_sum(t, n - 1);
        lemma_sum_remove(s, i);
        assert((n - 1) * (n - 2) / 2 + (n - 1) == n * (n - 1) / 2) by (nonlinear_arith)
            requires n >= 1;
    }
}

impl<Key, BF: BucketFn, Hx: KeyHasher<Key>> PtrHash<Key, BF, Hx> {
    /// The index of every key of a key set, in order.
    pub open spec fn indices_of(&self, keys: Seq<Key>) -> Seq<int> {
        self.stream_spec(keys, true)
    }

    /// An index built on a key set, whose slots past `n` are remapped, maps the
    /// keys one to one onto `0..n`: the indices are distinct and form exactly
    /// the set `{0, 1, ..., n - 1}`.
    pub proof fn lemma_bijection(&self, keys: Seq<Key>)
        requires
            self.built_on(keys),
            self.is_minimal(),
        ensures
            self.indices_of(keys).no_duplicates(),
            self.indices_of(keys).to_set() =~= set_int_range(0, self.n as int),
    {
        let s = self.indices_of(keys);
        assert forall|a: int, b: int| 0 <= a < s.len() && 0 <= b < s.len() && a != b implies s[a] != s[b] by {
            assert(s[a] == self.index_of(&keys[a]));
            assert(s[b] == self.index_of(&keys[b]));
        }
        assert forall|a: int| 0 <= a < s.len() implies 0 <= #[trigger] s[a] < self.n by {
            assert(s[a] == self.index_of(&keys[a]));
        }
        lemma_distinct_range_covers(s, self.n as int);
    }

    /// The indices that a stream over the key set hands out add up to the
    /// triangle number `n (n - 1) / 2`.
    pub proof fn lemma_stream_sum(&self, keys: Seq<Key>)
        requires
            self.built_on(keys),
            self.is_minimal(),
        ensures
            seq_sum(self.stream_spec(keys, true)) == self.n * (self.n - 1) / 2,
    {
        self.lemma_bijection(keys);
        let s = self.indices_of(keys);
        assert forall|a: int| 0 <= a < s.len() implies 0 <= #[trigger] s[a] < self.n by {
            assert(s[a] == self.index_of(&keys[a]));
        }
        lemma_permutation_sum(s, self.n as int);
    }

    /// Every hash has a bucket of the table.
    pub proof fn lemma_bucket_in_range(&self, h: KeyHash)
        requires
            self.wf(),
        ensures
            0 <= self.bucket_spec(h) < self.layout.buckets_total,
    {
        let l = self.layout;
        lemma_block_index(0, 0, l.parts as int, l.buckets as int);
        lemma_product_bounds(l.buckets_total as u64, h.high);
        lemma_product_bounds(l.parts as u64, h.high);
        let x = crate::reduce::mul_low_spec(l.parts as u64, h.high) as u64;
        let y = if BF::is_linear() { x } else { self.params.bucket_fn.call_spec(x) };
        lemma_product_bounds(l.buckets as u64, y);
        if !(BF::is_linear() && !BF::outputs_bucket()) {
            lemma_block_index(self.part_spec(h), self.bucket_in_part_spec(x), l.parts as int, l.buckets as int);
        }
    }

    /// Whether the bucket of `h` lies among the buckets of shard `s`.
    pub open spec fn in_shard(&self, s: int, h: KeyHash) -> bool {
        s * self.buckets_per_shard() <= self.bucket_spec(h) < (s + 1) * self.buckets_per_shard()
    }

    /// Every hash falls into exactly one shard, and the shards are numbered
    /// below the number of shards: the shards split the hashes.
    pub proof fn lemma_shard_in_range(&self, h: KeyHash)
        requires
            self.wf(),
        ensures
            0 <= self.shard_spec(h) < self.layout.shards,
            forall|s: int| #[trigger] self.in_shard(s, h) <==> s == self.shard_spec(h),
    {
        let l = self.layout;
        self.lemma_bucket_in_range(h);
        let b = self.bucket_spec(h);
        let per = self.buckets_per_shard();
        assert(per * l.shards == l.buckets_total) by (nonlinear_arith)
            requires l.parts == l.parts_per_shard * l.shards, l.buckets_total == l.parts * l.buckets,
                per == l.parts_per_shard * l.buckets;
        assert(per >= 1) by (nonlinear_arith)
            requires per * l.shards == l.buckets_total, l.buckets_total >= 1, l.shards >= 1, per >= 0 || per < 0;
        assert(0 <= b / per < l.shards) by (nonlinear_arith)
            requires 0 <= b < per * l.shards, per >= 1;
        assert forall|s: int| #[trigger] self.in_shard(s, h) <==> s == b / per by {
            if s * per <= b && b < (s + 1) * per {
                assert(b / per == s) by (nonlinear_arith)
                    requires s * per <= b < (s + 1) * per, per >= 1;
            }
            if s == b / per {
                assert(s * per <= b < (s + 1) * per) by (nonlinear_arith)
                    requires s == b / per, per >= 1, b >= 0;
            }
        }
    }

    /// A stream over a single key hands out that key's index.
    pub proof fn lemma_stream_single(&self, key: Key)
        ensures
            self.stream_spec(seq![key], true) =~= seq![self.index_of(&key)],
    {
    }

    /// An index built on one key sends it to 0.
    pub proof fn lemma_single_key(&self, key: Key)
        requires
            self.built_on(seq![key]),
            self.is_minimal(),
        ensures
            self.index_of(&key) == 0,
    {
        assert(seq![key][0] == key);
    }

    /// An index built on two keys sends them to 0 and 1, in some order.
    pub proof fn lemma_two_keys(&self, a: Key, b: Key)
        requires
            self.built_on(seq![a, b]),
            self.is_minimal(),
        ensures
            set![self.index_of(&a), self.index_of(&b)] =~= set![0int, 1int],
    {
        let keys = seq![a, b];
        assert(keys[0] == a && keys[1] == b);
        assert(self.index_of(&keys[0]) != self.index_of(&keys[1]));
    }
}

} // verus!
