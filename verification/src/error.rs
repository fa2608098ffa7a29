use vstd::prelude::*;

verus! {

/// Every way in which reading an RDR archive, or deciding on a mount session,
/// can be refused.
#[derive(Clone, Copy, Debug, PartialEq, Eq)]
pub enum RdrError {
    /// The file does not start with the record magic.
    BadMagic,
    /// The outer header declares a header size other than 52 bytes.
    UnsupportedHeaderSize(u32),
    /// The header declares another size than the file has.
    FileSizeMismatch { declared: u64, actual: u64 },
    /// No directory-pointer record was found in the footer window.
    DirectoryPointerNotFound,
    /// The directory offset does not fit in 64 bits.
    DirectoryOffsetOverflow,
    /// The directory record is shorter than its 12-byte prefix.
    InvalidDirectoryLength,
    /// The directory record ends past the end of the file.
    DirectoryPastEof,
    /// The directory record does not start with the magic.
    BadDirectoryMagic,
    /// The directory record declares another length than the pointer.
    DirectoryLengthMismatch,
    /// The directory record has other flags than an archive directory.
    UnsupportedDirectoryRecord,
    /// The directory payload is not a whole number of 20-byte entries.
    MalformedDirectory,
    /// A directory entry offset does not fit in 64 bits.
    DirectoryEntryOffsetOverflow,
    /// A directory entry is too short or ends past the end of the file.
    DirectoryEntryOutside,
    /// The directory holds no compact chunk index.
    NoCompactIndexes,
    /// The directory holds no compact chunk index for this object.
    MissingCompactIndex(u32),
    /// A chunk-index frame is shorter than its 20-byte header.
    ChunkIndexFrameTooShort,
    /// A chunk-index frame does not start with the magic.
    BadChunkIndexMagic,
    /// A chunk-index frame declares another length than its directory entry.
    ChunkIndexLengthMismatch,
    /// A chunk-index frame belongs to another object.
    ChunkIndexObjectMismatch,
    /// A compressed chunk-index frame is shorter than its 24-byte header.
    CompressedChunkIndexTooShort,
    /// The compressed chunk index could not be inflated.
    ChunkIndexInflateFailed,
    /// The inflated chunk index has another length than declared.
    ChunkIndexDecodedLengthMismatch,
    /// The chunk-index frame has unknown flags.
    UnsupportedChunkIndexEncoding(u32),
    /// The chunk-index payload is shorter than its 28-byte header.
    ChunkIndexPayloadTooShort,
    /// The chunk size does not fit in 32 bits.
    UnsupportedChunkSize,
    /// The logical size or the chunk size is zero.
    InvalidChunkIndexGeometry,
    /// The payload length does not match the chunk count.
    MalformedChunkIndex,
    /// The chunk count does not cover the logical object.
    ChunkCountMismatch,
    /// A chunk record offset does not fit in 64 bits.
    ChunkRecordOffsetOverflow,
    /// A chunk record is too short or ends past the end of the file.
    ChunkEntryOutside,
    /// Chunk record offsets are not strictly increasing.
    ChunkOffsetsNotIncreasing,
    /// The chunk index points at a metadata record at this offset.
    ChunkPointsToMetadata(u64),
    /// The sampled record of this chunk does not match the index.
    ChunkVerificationFailed(usize),
    /// A record does not start with the magic (record offset).
    BadRecordMagic(u64),
    /// A record declares a length below 12 bytes (record offset).
    InvalidRecordLength(u64),
    /// A record ends past the end of the file (record offset).
    RecordPastEof(u64),
    /// A raw data record is shorter than its 36-byte header.
    ShortRawRecord,
    /// A zlib data record is shorter than its 40-byte header.
    ShortZlibRecord,
    /// A zlib data record declares two different logical sizes (record offset).
    ConflictingLogicalSizes(u64),
    /// A raw record's payload has another length than its logical length.
    RawLengthMismatch { record_offset: u64, payload: u32, logical: u32 },
    /// A zlib record's payload could not be inflated (record offset).
    RecordInflateFailed(u64),
    /// A zlib record inflated to another length than its logical length.
    ZlibLengthMismatch { record_offset: u64, decoded: usize, logical: u32 },
    /// A record reached through the chunk index does not match it (record offset).
    ChunkIndexMismatch(u64),
    /// A record's logical end does not fit in 64 bits.
    LogicalEndOverflow,
    /// More objects than an object index can number.
    TooManyObjects,
    /// The requested object was not found in the archive.
    ObjectNotFound(u32),
    /// The image lists no indexed object.
    NoIndexedObjects,
    /// Several objects and no choice: an object must be named.
    SeveralObjects,
    /// The typed object number is not a number.
    InvalidObjectNumber,
    /// The ready file does not hold a port number.
    InvalidServerPort,
    /// The server reported port zero.
    ZeroServerPort,
    /// Mount sessions are supported only on macOS and Linux.
    UnsupportedHost,
    /// Several sessions use the image: a session id must be named.
    AmbiguousSession,
    /// No session matches the target.
    SessionNotFound,
    /// The loop device tool reported no device.
    NoLoopDevice,
    /// The attached disk holds no filesystem that can be mounted.
    NoFilesystems,
    /// The disk tool reported no whole disk.
    NoWholeDisk,
    /// The home directory is not set, so the session state has no place.
    HomeNotSet,
}

} // verus!
