use vstd::prelude::*;

verus! {

/// Every way a pack or unpack unit of work can fail.
#[derive(Debug, Clone, PartialEq, Eq)]
pub enum CokacencError {
    /// A chunk header with a wrong magic constant, wrong version, or too few bytes.
    Format,
    /// Decryption failed: wrong key or corrupted ciphertext.
    Crypto,
    /// A chunk index beyond the addressable range of sequence labels.
    SeqOverflow(usize),
    /// A gap in a group's sequence; holds the label of the first absent chunk.
    MissingChunk(Vec<u8>),
    /// The embedded metadata record is truncated or malformed.
    IncompleteMetadata,
    /// Metadata records of one group disagree with each other.
    MetadataInconsistency,
    /// The merged content does not match the declared hash: expected, then actual.
    HashMismatch(Vec<u8>, Vec<u8>),
    /// The merged content does not have the declared size: expected, then actual.
    SizeMismatch(u64, u64),
    /// A group without any chunk.
    NoEncFiles,
    /// A filesystem failure, with its description.
    Io(Vec<u8>),
    /// A configuration that cannot be honoured.
    Config(Vec<u8>),
}

} // verus!
