use vstd::prelude::*;

verus! {

/// How the hashes are split into shards during construction, to bound the
/// memory that holds them at once.
#[derive(Clone, Copy, Debug, PartialEq, Eq, Structural)]
pub enum Sharding {
    /// All hashes are held at once, as one shard.
    Off,
    /// The keys are walked once per shard, each time keeping the hashes of
    /// that shard.
    Memory,
    /// One pass writes each shard's hashes out of memory, to be read back
    /// when the shard is built. `PtrHash::new` builds such shards from the
    /// keys in memory, one shard at a time; a caller that spills the hashes
    /// routes them with `shard_of` and hands each shard to `place_shard`.
    Disk,
    /// As `Disk`, with a memory budget in bytes for the shards of one pass.
    Hybrid(usize),
}

impl Sharding {
    /// The shards whose hashes one pass over the keys spills: in the hybrid
    /// mode, the budget over the bytes of a shard of `keys_per_shard` hashes
    /// of `hash_bytes` bytes, at least one; all `shards` otherwise.
    pub fn shards_per_pass(self, shards: usize, keys_per_shard: usize, hash_bytes: usize) -> (r: usize)
        requires
            shards >= 1,
        ensures
            1 <= r <= shards,
            (self is Hybrid && keys_per_shard > 0 && hash_bytes > 0) ==> r == vstd::math::min(
                shards as int,
                vstd::math::max(1, self->Hybrid_0 as int / hash_bytes as int / keys_per_shard as int),
            ),
            !(self is Hybrid && keys_per_shard > 0 && hash_bytes > 0) ==> r == shards,
    {
        match self {
            Sharding::Hybrid(mem) => {
                if keys_per_shard == 0 || hash_bytes == 0 {
                    shards
                } else {
                    let k = mem / hash_bytes / keys_per_shard;
                    if k == 0 {
                        1
                    } else if k > shards {
                        shards
                    } else {
                        k
                    }
                }
            },
            _ => shards,
        }
    }
}

} // verus!
