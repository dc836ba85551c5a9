use vstd::prelude::*;
use vstd::string::StringSliceAdditionalSpecFns;

verus! {

/// The odd 64-bit mixing constant used by the integer hashers and the pilot hash.
pub const C: u64 = 0x517cc1b727220a95;

/// A hash value with a low and a high 64-bit word.
pub trait Hash: Copy {
    spec fn low_spec(&self) -> u64;

    spec fn high_spec(&self) -> u64;

    fn low(&self) -> (r: u64)
        ensures
            r == self.low_spec(),
    ;

    fn high(&self) -> (r: u64)
        ensures
            r == self.high_spec(),
    ;
}

/// For a 64-bit hash both words are the hash itself.
impl Hash for u64 {
    open spec fn low_spec(&self) -> u64 {
        *self
    }

    open spec fn high_spec(&self) -> u64 {
        *self
    }

    fn low(&self) -> (r: u64) {
        *self
    }

    fn high(&self) -> (r: u64) {
        *self
    }
}

/// For a 128-bit hash the words are its two halves.
impl Hash for u128 {
    open spec fn low_spec(&self) -> u64 {
        (*self % 0x1_0000_0000_0000_0000) as u64
    }

    open spec fn high_spec(&self) -> u64 {
        (*self / 0x1_0000_0000_0000_0000) as u64
    }

    fn low(&self) -> (r: u64) {
        (*self % 0x1_0000_0000_0000_0000) as u64
    }

    fn high(&self) -> (r: u64) {
        (*self / 0x1_0000_0000_0000_0000) as u64
    }
}

/// The two words of a key's hash, as the construction and the queries read them.
#[derive(Clone, Copy, Debug, PartialEq, Eq, Structural)]
pub struct KeyHash {
    pub low: u64,
    pub high: u64,
}

impl KeyHash {
    pub open spec fn of<H: Hash>(h: H) -> KeyHash {
        KeyHash { low: h.low_spec(), high: h.high_spec() }
    }

    pub fn from_hash<H: Hash>(h: H) -> (r: KeyHash)
        ensures
            r == Self::of(h),
    {
        KeyHash { low: h.low(), high: h.high() }
    }
}

/// A seeded hash function on keys of type `Key`.
pub trait KeyHasher<Key> {
    /// The hash of `x` under `seed`.
    spec fn hash_spec(x: &Key, seed: u64) -> KeyHash;

    fn hash(x: &Key, seed: u64) -> (r: KeyHash)
        ensures
            r == Self::hash_spec(x, seed),
    ;
}

/// The key itself, xor the seed. Only fit for keys that are random already.
#[derive(Clone, Copy, Debug)]
pub struct NoHash;

/// One wrapping multiplication by `C` (the Fx hash), xor the seed.
#[derive(Clone, Copy, Debug)]
pub struct FastIntHash;

/// The full 128-bit product of `key ^ seed` and `C`, its halves folded by
/// xor and multiplied by `C` once more. For regular keys, such as multiples
/// of a large stride.
#[derive(Clone, Copy, Debug)]
pub struct StrongerIntHash;

/// The 64-bit xxh3 hash of the key's little-endian bytes.
#[derive(Clone, Copy, Debug)]
pub struct Xxh3Int;

/// The 64-bit xxh3 hash of a string's bytes.
#[derive(Clone, Copy, Debug)]
pub struct Xxh3;

/// The 128-bit xxh3 hash of a string's bytes, for very large key sets where
/// 64-bit hashes would collide.
#[derive(Clone, Copy, Debug)]
pub struct Xxh3_128;

/// The hasher for strings of up to about a billion keys. It is xxh3: the
/// AES-based gxhash would need AES instructions enabled at compile time.
pub type StringHash = Xxh3;

/// The hasher for strings beyond a billion keys.
pub type StringHash128 = Xxh3_128;

/// The 64-bit xxh3 hash of `bytes` under `seed`.
pub uninterp spec fn xxh3_64(bytes: Seq<u8>, seed: u64) -> u64;

/// The 128-bit xxh3 hash of `bytes` under `seed`.
pub uninterp spec fn xxh3_128(bytes: Seq<u8>, seed: u64) -> u128;

/// The Fx hash of a `u64`: one wrapping multiplication by `C`.
pub open spec fn fx_hash_spec(x: u64) -> u64 {
    ((x as int * C as int) % 0x1_0000_0000_0000_0000) as u64
}

/// Relies on fxhash::hash64: a `u64` is written as one word into a zero
/// state, `(0.rotate_left(5) ^ x).wrapping_mul(0x517cc1b727220a95)`.
#[verifier::external_body]
fn fx_hash64(x: u64) -> (r: u64)
    ensures
        r == (x as int * C as int) % 0x1_0000_0000_0000_0000,
{
    fxhash::hash64(&x)
}

/// Relies on xxhash_rust::xxh3::xxh3_64_with_seed: a function of the bytes and the seed.
#[verifier::external_body]
fn xxh3_64_with_seed(bytes: &[u8], seed: u64) -> (r: u64)
    ensures
        r == xxh3_64(bytes@, seed),
{
    xxhash_rust::xxh3::xxh3_64_with_seed(bytes, seed)
}

/// Relies on xxhash_rust::xxh3::xxh3_128_with_seed: a function of the bytes and the seed.
#[verifier::external_body]
fn xxh3_128_with_seed(bytes: &[u8], seed: u64) -> (r: u128)
    ensures
        r == xxh3_128(bytes@, seed),
{
    xxhash_rust::xxh3::xxh3_128_with_seed(bytes, seed)
}

/// The little-endian bytes of `x`, lowest first, `k` of them.
pub open spec fn le_bytes(x: u64, k: nat) -> Seq<u8>
    decreases k,
{
    if k == 0 {
        Seq::empty()
    } else {
        seq![(x % 256) as u8] + le_bytes(x / 256, (k - 1) as nat)
    }
}

/// The eight little-endian bytes of `x`.
pub fn u64_le_bytes(x: u64) -> (r: Vec<u8>)
    ensures
        r@ == le_bytes(x, 8),
{
    let mut r: Vec<u8> = Vec::new();
    let mut v: u64 = x;
    let mut i: usize = 0;
    while i < 8
        invariant
            i <= 8,
            r@ + le_bytes(v, (8 - i) as nat) == le_bytes(x, 8),
        decreases 8 - i,
    {
        let ghost before = r@;
        assert(le_bytes(v, (8 - i) as nat) == seq![(v % 256) as u8] + le_bytes(v / 256, (8 - i - 1) as nat));
        r.push((v % 256) as u8);
        assert(r@ == before + seq![(v % 256) as u8]);
        assert(r@ + le_bytes(v / 256, (8 - i - 1) as nat) == before + (seq![(v % 256) as u8] + le_bytes(v / 256, (8 - i - 1) as nat)));
        v = v / 256;
        i = i + 1;
    }
    assert(le_bytes(v, 0) == Seq::<u8>::empty());
    assert(r@ + Seq::<u8>::empty() == r@);
    r
}

/// The stronger integer hash of `x` under `seed`.
pub open spec fn stronger_int_hash(x: u64, seed: u64) -> u64 {
    let r = (x ^ seed) as int * C as int;
    let folded = ((r % 0x1_0000_0000_0000_0000) as u64) ^ ((r / 0x1_0000_0000_0000_0000) as u64);
    ((folded as int * C as int) % 0x1_0000_0000_0000_0000) as u64
}

impl KeyHasher<u64> for NoHash {
    open spec fn hash_spec(x: &u64, seed: u64) -> KeyHash {
        KeyHash::of(*x ^ seed)
    }

    fn hash(x: &u64, seed: u64) -> (r: KeyHash) {
        KeyHash::from_hash(*x ^ seed)
    }
}

impl KeyHasher<u64> for FastIntHash {
    open spec fn hash_spec(x: &u64, seed: u64) -> KeyHash {
        KeyHash::of(fx_hash_spec(*x) ^ seed)
    }

    fn hash(x: &u64, seed: u64) -> (r: KeyHash) {
        KeyHash::from_hash(fx_hash64(*x) ^ seed)
    }
}

// Smaller and signed integers are hashed as the word the Fx hasher writes
// for them: zero-extended, signed ones first taken as unsigned of their width.

impl KeyHasher<u8> for FastIntHash {
    open spec fn hash_spec(x: &u8, seed: u64) -> KeyHash {
        KeyHash::of(fx_hash_spec(*x as u64) ^ seed)
    }

    fn hash(x: &u8, seed: u64) -> (r: KeyHash) {
        KeyHash::from_hash(fx_hash64(*x as u64) ^ seed)
    }
}

impl KeyHasher<u16> for FastIntHash {
    open spec fn hash_spec(x: &u16, seed: u64) -> KeyHash {
        KeyHash::of(fx_hash_spec(*x as u64) ^ seed)
    }

    fn hash(x: &u16, seed: u64) -> (r: KeyHash) {
        KeyHash::from_hash(fx_hash64(*x as u64) ^ seed)
    }
}

impl KeyHasher<u32> for FastIntHash {
    open spec fn hash_spec(x: &u32, seed: u64) -> KeyHash {
        KeyHash::of(fx_hash_spec(*x as u64) ^ seed)
    }

    fn hash(x: &u32, seed: u64) -> (r: KeyHash) {
        KeyHash::from_hash(fx_hash64(*x as u64) ^ seed)
    }
}

impl KeyHasher<usize> for FastIntHash {
    open spec fn hash_spec(x: &usize, seed: u64) -> KeyHash {
        KeyHash::of(fx_hash_spec(*x as u64) ^ seed)
    }

    fn hash(x: &usize, seed: u64) -> (r: KeyHash) {
        KeyHash::from_hash(fx_hash64(*x as u64) ^ seed)
    }
}

impl KeyHasher<i8> for FastIntHash {
    open spec fn hash_spec(x: &i8, seed: u64) -> KeyHash {
        KeyHash::of(fx_hash_spec((*x as u8) as u64) ^ seed)
    }

    fn hash(x: &i8, seed: u64) -> (r: KeyHash) {
        KeyHash::from_hash(fx_hash64((*x as u8) as u64) ^ seed)
    }
}

impl KeyHasher<i16> for FastIntHash {
    open spec fn hash_spec(x: &i16, seed: u64) -> KeyHash {
        KeyHash::of(fx_hash_spec((*x as u16) as u64) ^ seed)
    }

    fn hash(x: &i16, seed: u64) -> (r: KeyHash) {
        KeyHash::from_hash(fx_hash64((*x as u16) as u64) ^ seed)
    }
}

impl KeyHasher<i32> for FastIntHash {
    open spec fn hash_spec(x: &i32, seed: u64) -> KeyHash {
        KeyHash::of(fx_hash_spec((*x as u32) as u64) ^ seed)
    }

    fn hash(x: &i32, seed: u64) -> (r: KeyHash) {
        KeyHash::from_hash(fx_hash64((*x as u32) as u64) ^ seed)
    }
}

impl KeyHasher<i64> for FastIntHash {
    open spec fn hash_spec(x: &i64, seed: u64) -> KeyHash {
        KeyHash::of(fx_hash_spec(*x as u64) ^ seed)
    }

    fn hash(x: &i64, seed: u64) -> (r: KeyHash) {
        KeyHash::from_hash(fx_hash64(*x as u64) ^ seed)
    }
}

impl KeyHasher<isize> for FastIntHash {
    open spec fn hash_spec(x: &isize, seed: u64) -> KeyHash {
        KeyHash::of(fx_hash_spec(*x as u64) ^ seed)
    }

    fn hash(x: &isize, seed: u64) -> (r: KeyHash) {
        KeyHash::from_hash(fx_hash64(*x as u64) ^ seed)
    }
}

impl KeyHasher<u64> for StrongerIntHash {
    open spec fn hash_spec(x: &u64, seed: u64) -> KeyHash {
        KeyHash::of(stronger_int_hash(*x, seed))
    }

    fn hash(x: &u64, seed: u64) -> (r: KeyHash) {
        let k: u64 = *x ^ seed;
        proof {
            crate::reduce::lemma_product_bounds(k, C);
        }
        let r: u128 = (k as u128) * (C as u128);
        let low = (r % 0x1_0000_0000_0000_0000) as u64;
        let high = (r / 0x1_0000_0000_0000_0000) as u64;
        let h = (low ^ high).wrapping_mul(C);
        KeyHash::from_hash(h)
    }
}

impl KeyHasher<u64> for Xxh3Int {
    open spec fn hash_spec(x: &u64, seed: u64) -> KeyHash {
        KeyHash::of(xxh3_64(le_bytes(*x, 8), seed))
    }

    fn hash(x: &u64, seed: u64) -> (r: KeyHash) {
        let bytes = u64_le_bytes(*x);
        KeyHash::from_hash(xxh3_64_with_seed(bytes.as_slice(), seed))
    }
}

impl<'a> KeyHasher<&'a str> for Xxh3 {
    open spec fn hash_spec(x: &&'a str, seed: u64) -> KeyHash {
        KeyHash::of(xxh3_64((*x).spec_bytes(), seed))
    }

    fn hash(x: &&'a str, seed: u64) -> (r: KeyHash) {
        KeyHash::from_hash(xxh3_64_with_seed((*x).as_bytes(), seed))
    }
}

impl<'a> KeyHasher<&'a str> for Xxh3_128 {
    open spec fn hash_spec(x: &&'a str, seed: u64) -> KeyHash {
        KeyHash::of(xxh3_128((*x).spec_bytes(), seed))
    }

    fn hash(x: &&'a str, seed: u64) -> (r: KeyHash) {
        KeyHash::from_hash(xxh3_128_with_seed((*x).as_bytes(), seed))
    }
}

} // verus!
