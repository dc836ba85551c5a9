use vstd::prelude::*;

verus! {

/// The format version written into headers.
pub const FORMAT_VERSION: u32 = 1;

/// The strategy code of `RebuildOnLoad` in a header.
pub const STRATEGY_REBUILD: u8 = 1;

/// The eight bytes that open a store file: `LEARNKV1`.
pub open spec fn magic_spec() -> Seq<u8> {
    seq![0x4cu8, 0x45u8, 0x41u8, 0x52u8, 0x4eu8, 0x4bu8, 0x56u8, 0x31u8]
}

pub fn magic() -> (r: [u8; 8])
    ensures
        r@ == magic_spec(),
{
    let r = [0x4cu8, 0x45u8, 0x41u8, 0x52u8, 0x4eu8, 0x4bu8, 0x56u8, 0x31u8];
    assert(r@ =~= magic_spec());
    r
}

/// How a stored index comes back: it is rebuilt from the stored keys.
#[derive(Clone, Copy, Debug, PartialEq, Eq, Structural)]
pub enum PersistenceStrategy {
    RebuildOnLoad,
}

/// Why a stored header or payload is refused.
#[derive(Clone, Copy, Debug, PartialEq, Eq, Structural)]
pub enum HeaderError {
    /// The file does not open with the magic bytes.
    BadMagic,
    /// The format version is not the current one.
    BadVersion(u32),
    /// The strategy code is unknown.
    UnknownStrategy(u8),
    /// The payload's checksum differs from the header's.
    ChecksumMismatch { expected: u32, found: u32 },
    /// The payload holds another number of keys than the header says.
    KeyCountMismatch { recorded: usize, counted: usize },
}

/// The header of a store file.
#[derive(Clone, Copy, Debug)]
pub struct FileHeader {
    pub magic: [u8; 8],
    pub version: u32,
    /// The size of the payload in bytes.
    pub file_size: u64,
    /// The CRC-32 of the payload.
    pub checksum: u32,
    pub key_count: usize,
    pub strategy: u8,
}

/// What a store file holds: keys, values, and room for a serialized index,
/// which is not used (the index is rebuilt on load).
pub struct PersistedData<K, V> {
    pub keys: Vec<K>,
    pub values: Vec<V>,
    pub mphf_data: Option<Vec<u8>>,
}

/// The CRC-32 (IEEE) checksum of `bytes`.
pub uninterp spec fn crc32(bytes: Seq<u8>) -> u32;

/// Relies on crc32fast::hash: the CRC-32 of the bytes.
#[verifier::external_body]
fn crc32_hash(data: &[u8]) -> (r: u32)
    ensures
        r == crc32(data@),
{
    crc32fast::hash(data)
}

/// The checksum of a payload.
pub fn calculate_checksum(data: &[u8]) -> (r: u32)
    ensures
        r == crc32(data@),
{
    crc32_hash(data)
}

/// The strategy a header's code stands for: 1, and 0 of older files, mean
/// `RebuildOnLoad`.
pub open spec fn strategy_of(code: u8) -> Option<PersistenceStrategy> {
    if code == 0 || code == 1 {
        Some(PersistenceStrategy::RebuildOnLoad)
    } else {
        None
    }
}

impl FileHeader {
    pub fn new(file_size: u64, checksum: u32, key_count: usize, strategy: PersistenceStrategy) -> (r: Self)
        ensures
            r.magic@ == magic_spec(),
            r.version == FORMAT_VERSION,
            r.file_size == file_size,
            r.checksum == checksum,
            r.key_count == key_count,
            r.strategy == STRATEGY_REBUILD,
    {
        FileHeader {
            magic: magic(),
            version: FORMAT_VERSION,
            file_size,
            checksum,
            key_count,
            strategy: match strategy {
                PersistenceStrategy::RebuildOnLoad => STRATEGY_REBUILD,
            },
        }
    }

    /// Check the magic bytes, then the version, then the strategy code.
    pub fn validate(&self) -> (r: Result<PersistenceStrategy, HeaderError>)
        ensures
            self.magic@ != magic_spec() ==> r == Err::<PersistenceStrategy, HeaderError>(HeaderError::BadMagic),
            self.magic@ == magic_spec() && self.version != FORMAT_VERSION ==> r == Err::<PersistenceStrategy, HeaderError>(
                HeaderError::BadVersion(self.version),
            ),
            self.magic@ == magic_spec() && self.version == FORMAT_VERSION ==> (match strategy_of(self.strategy) {
                Some(s) => r == Ok::<PersistenceStrategy, HeaderError>(s),
                None => r == Err::<PersistenceStrategy, HeaderError>(HeaderError::UnknownStrategy(self.strategy)),
            }),
    {
        let m = magic();
        let mut i: usize = 0;
        while i < 8
            invariant
                i <= 8,
                m@ == magic_spec(),
                forall|k: int| 0 <= k < i ==> self.magic@[k] == m@[k],
            decreases 8 - i,
        {
            if self.magic[i] != m[i] {
                return Err(HeaderError::BadMagic);
            }
            i = i + 1;
        }
        assert(self.magic@ =~= magic_spec());
        if self.version != FORMAT_VERSION {
            return Err(HeaderError::BadVersion(self.version));
        }
        if self.strategy == 0 || self.strategy == 1 {
            Ok(PersistenceStrategy::RebuildOnLoad)
        } else {
            Err(HeaderError::UnknownStrategy(self.strategy))
        }
    }

    /// Check the header, then that `found`, the checksum of the payload read
    /// back, is the one the header records.
    pub fn check_payload_checksum(&self, found: u32) -> (r: Result<PersistenceStrategy, HeaderError>)
        ensures
            self.validate_spec() is Err ==> r == self.validate_spec(),
            self.validate_spec() is Ok && found != self.checksum ==> r == Err::<PersistenceStrategy, HeaderError>(
                HeaderError::ChecksumMismatch { expected: self.checksum, found },
            ),
            self.validate_spec() is Ok && found == self.checksum ==> r == self.validate_spec(),
    {
        match self.validate() {
            Err(e) => Err(e),
            Ok(s) => {
                if found != self.checksum {
                    Err(HeaderError::ChecksumMismatch { expected: self.checksum, found })
                } else {
                    Ok(s)
                }
            },
        }
    }

    /// Check a header against the payload that follows it.
    pub fn check_payload(&self, data: &[u8]) -> (r: Result<PersistenceStrategy, HeaderError>)
        ensures
            self.validate_spec() is Err ==> r == self.validate_spec(),
            self.validate_spec() is Ok && crc32(data@) != self.checksum ==> r == Err::<PersistenceStrategy, HeaderError>(
                HeaderError::ChecksumMismatch { expected: self.checksum, found: crc32(data@) },
            ),
            self.validate_spec() is Ok && crc32(data@) == self.checksum ==> r == self.validate_spec(),
    {
        let found = calculate_checksum(data);
        self.check_payload_checksum(found)
    }

    /// Check that the payload, once decoded, holds the number of keys the
    /// header records.
    pub fn check_key_count(&self, found: usize) -> (r: Result<(), HeaderError>)
        ensures
            found == self.key_count ==> r is Ok,
            found != self.key_count ==> r == Err::<(), HeaderError>(
                HeaderError::KeyCountMismatch { recorded: self.key_count, counted: found },
            ),
    {
        if found != self.key_count {
            Err(HeaderError::KeyCountMismatch { recorded: self.key_count, counted: found })
        } else {
            Ok(())
        }
    }

    /// What `validate` returns.
    pub open spec fn validate_spec(&self) -> Result<PersistenceStrategy, HeaderError> {
        if self.magic@ != magic_spec() {
            Err(HeaderError::BadMagic)
        } else if self.version != FORMAT_VERSION {
            Err(HeaderError::BadVersion(self.version))
        } else {
            match strategy_of(self.strategy) {
                Some(s) => Ok(s),
                None => Err(HeaderError::UnknownStrategy(self.strategy)),
            }
        }
    }
}

/// A header for a payload: its size, its checksum and the number of keys.
pub fn header_for(data: &[u8], key_count: usize) -> (r: FileHeader)
    ensures
        r.magic@ == magic_spec(),
        r.version == FORMAT_VERSION,
        r.file_size == data@.len(),
        r.checksum == crc32(data@),
        r.key_count == key_count,
        r.strategy == STRATEGY_REBUILD,
{
    FileHeader::new(data.len() as u64, calculate_checksum(data), key_count, PersistenceStrategy::RebuildOnLoad)
}

} // verus!
