use vstd::prelude::*;

use crate::bytes::{le_u32, le_u32_at, le_u64, le_u64_at};
use crate::error::RdrError;

verus! {

/// Magic number that starts every RDR record.
pub const MAGIC: u32 = 0xd754_da33;
/// Size of the outer file header; stored offsets are relative to its end.
pub const FILE_HEADER_SIZE: u64 = 52;
/// Flags of a raw data record.
pub const RAW_DATA_FLAGS: u32 = 0x1800_0020;
/// Flags of a zlib data record.
pub const ZLIB_DATA_FLAGS: u32 = 0x1804_0220;
/// Flags of an uncompressed compact chunk index.
pub const RAW_CHUNK_INDEX_FLAGS: u32 = 0x0800_0090;
/// Flags of a zlib-compressed compact chunk index.
pub const ZLIB_CHUNK_INDEX_FLAGS: u32 = 0x0804_0290;
/// Flags of the archive directory record.
pub const ARCHIVE_DIRECTORY_FLAGS: u32 = 0x0000_0008;
/// Flags of the directory-pointer record in the footer.
pub const DIRECTORY_POINTER_FLAGS: u32 = 0x0000_0003;
/// Frame type of a compact chunk index in the archive directory.
pub const COMPACT_INDEX_FRAME: u32 = 0x90;
/// Length of the prefix that every record starts with.
pub const RECORD_PREFIX_SIZE: u32 = 12;
/// Header length of a raw data record.
pub const RAW_DATA_HEADER_SIZE: u32 = 36;
/// Header length of a zlib data record.
pub const ZLIB_DATA_HEADER_SIZE: u32 = 40;

/// The part of the outer file header that the reader uses.
#[derive(Clone, Copy, Debug, PartialEq, Eq)]
pub struct FileHeader {
    pub declared_file_size: u64,
}

/// What the 52 header bytes `b` declare, or why they are refused.
pub open spec fn spec_file_header(b: Seq<u8>) -> Result<FileHeader, RdrError> {
    if le_u32_at(b, 0) != MAGIC {
        Err(RdrError::BadMagic)
    } else if le_u32_at(b, 4) != FILE_HEADER_SIZE {
        Err(RdrError::UnsupportedHeaderSize(le_u32_at(b, 4) as u32))
    } else {
        Ok(FileHeader { declared_file_size: le_u64_at(b, 44) as u64 })
    }
}

/// Validates the outer file header.
pub fn parse_file_header(bytes: &[u8]) -> (r: Result<FileHeader, RdrError>)
    requires
        bytes@.len() == FILE_HEADER_SIZE,
    ensures
        r == spec_file_header(bytes@),
{
    if le_u32(bytes, 0) != MAGIC {
        return Err(RdrError::BadMagic);
    }
    let header_size = le_u32(bytes, 4);
    if header_size != 52 {
        return Err(RdrError::UnsupportedHeaderSize(header_size));
    }
    Ok(FileHeader { declared_file_size: le_u64(bytes, 44) })
}

/// The header must declare exactly the size that the file has.
pub fn check_declared_size(header: &FileHeader, actual_size: u64) -> (r: Result<(), RdrError>)
    ensures
        r is Ok <==> header.declared_file_size == actual_size,
        r is Err ==> r == Err::<(), RdrError>(
            RdrError::FileSizeMismatch { declared: header.declared_file_size, actual: actual_size },
        ),
{
    if header.declared_file_size == actual_size {
        Ok(())
    } else {
        Err(RdrError::FileSizeMismatch { declared: header.declared_file_size, actual: actual_size })
    }
}

/// How a data record stores its payload.
#[derive(Clone, Copy, Debug, PartialEq, Eq)]
pub enum Encoding {
    Raw,
    Zlib,
}

/// A record that holds logical bytes of an object.
#[derive(Clone, Copy, Debug, PartialEq, Eq)]
pub struct DataRecord {
    pub record_offset: u64,
    pub total_length: u32,
    pub payload_offset: u64,
    pub payload_length: u32,
    pub logical_offset: u64,
    pub logical_length: u32,
    pub encoding: Encoding,
}

/// A record found at some file offset.
#[derive(Clone, Copy, Debug, PartialEq, Eq)]
pub enum Record {
    Data(DataRecord),
    Metadata { record_offset: u64, total_length: u32, flags: u32 },
}

/// The 12-byte prefix of a record, once checked.
#[derive(Clone, Copy, Debug, PartialEq, Eq)]
pub struct RecordPrefix {
    pub total_length: u32,
    pub flags: u32,
}

impl RecordPrefix {
    /// How many header bytes, prefix included, a record with these flags has.
    pub open spec fn spec_header_size(self) -> nat {
        if self.flags == RAW_DATA_FLAGS {
            RAW_DATA_HEADER_SIZE as nat
        } else if self.flags == ZLIB_DATA_FLAGS {
            ZLIB_DATA_HEADER_SIZE as nat
        } else {
            RECORD_PREFIX_SIZE as nat
        }
    }

    /// How many header bytes, prefix included, must be read for this record.
    pub fn header_size(&self) -> (n: usize)
        ensures
            n == self.spec_header_size(),
    {
        if self.flags == RAW_DATA_FLAGS {
            36
        } else if self.flags == ZLIB_DATA_FLAGS {
            40
        } else {
            12
        }
    }
}

/// What the 12 prefix bytes `c` of the record at `offset` declare, or why
/// they are refused, in a file of `file_size` bytes.
pub open spec fn spec_record_prefix(c: Seq<u8>, offset: u64, file_size: u64) -> Result<
    RecordPrefix,
    RdrError,
> {
    let total = le_u32_at(c, 4);
    let flags = le_u32_at(c, 8);
    if le_u32_at(c, 0) != MAGIC {
        Err(RdrError::BadRecordMagic(offset))
    } else if total < RECORD_PREFIX_SIZE {
        Err(RdrError::InvalidRecordLength(offset))
    } else if offset + total > file_size {
        Err(RdrError::RecordPastEof(offset))
    } else if flags == RAW_DATA_FLAGS && total < RAW_DATA_HEADER_SIZE {
        Err(RdrError::ShortRawRecord)
    } else if flags == ZLIB_DATA_FLAGS && total < ZLIB_DATA_HEADER_SIZE {
        Err(RdrError::ShortZlibRecord)
    } else {
        Ok(RecordPrefix { total_length: total as u32, flags: flags as u32 })
    }
}

/// Checks the 12-byte prefix of the record at `offset`.
pub fn parse_record_prefix(common: &[u8], offset: u64, file_size: u64) -> (r: Result<
    RecordPrefix,
    RdrError,
>)
    requires
        common@.len() == RECORD_PREFIX_SIZE,
    ensures
        r == spec_record_prefix(common@, offset, file_size),
{
    if le_u32(common, 0) != MAGIC {
        return Err(RdrError::BadRecordMagic(offset));
    }
    let total_length = le_u32(common, 4);
    let flags = le_u32(common, 8);
    if total_length < 12 {
        return Err(RdrError::InvalidRecordLength(offset));
    }
    if file_size < offset || file_size - offset < total_length as u64 {
        return Err(RdrError::RecordPastEof(offset));
    }
    if flags == RAW_DATA_FLAGS && total_length < 36 {
        return Err(RdrError::ShortRawRecord);
    }
    if flags == ZLIB_DATA_FLAGS && total_length < 40 {
        return Err(RdrError::ShortZlibRecord);
    }
    Ok(RecordPrefix { total_length, flags })
}

/// What the header bytes `h` of the record at `offset` describe, or why they
/// are refused: the prefix checks, then the data-record fields.
pub open spec fn spec_record(h: Seq<u8>, offset: u64, file_size: u64) -> Result<Record, RdrError> {
    match spec_record_prefix(h.take(12), offset, file_size) {
        Err(e) => Err(e),
        Ok(p) => if p.flags == RAW_DATA_FLAGS {
            Ok(
                Record::Data(
                    DataRecord {
                        record_offset: offset,
                        total_length: p.total_length,
                        payload_offset: (offset + RAW_DATA_HEADER_SIZE) as u64,
                        payload_length: (p.total_length - RAW_DATA_HEADER_SIZE) as u32,
                        logical_offset: le_u64_at(h, 20) as u64,
                        logical_length: le_u32_at(h, 28) as u32,
                        encoding: Encoding::Raw,
                    },
                ),
            )
        } else if p.flags == ZLIB_DATA_FLAGS {
            if le_u32_at(h, 12) != le_u32_at(h, 32) {
                Err(RdrError::ConflictingLogicalSizes(offset))
            } else {
                Ok(
                    Record::Data(
                        DataRecord {
                            record_offset: offset,
                            total_length: p.total_length,
                            payload_offset: (offset + ZLIB_DATA_HEADER_SIZE) as u64,
                            payload_length: (p.total_length - ZLIB_DATA_HEADER_SIZE) as u32,
                            logical_offset: le_u64_at(h, 24) as u64,
                            logical_length: le_u32_at(h, 32) as u32,
                            encoding: Encoding::Zlib,
                        },
                    ),
                )
            }
        } else {
            Ok(Record::Metadata { record_offset: offset, total_length: p.total_length, flags: p.flags })
        },
    }
}

/// Parses the header of the record at `offset`: `header` holds the prefix
/// and, for a data record, the rest of its header.
pub fn parse_record(header: &[u8], offset: u64, file_size: u64) -> (r: Result<Record, RdrError>)
    requires
        header@.len() >= RECORD_PREFIX_SIZE,
        spec_record_prefix(header@.take(12), offset, file_size) matches Ok(p)
            ==> header@.len() == p.spec_header_size(),
    ensures
        r == spec_record(header@, offset, file_size),
{
    let prefix = parse_record_prefix(&header[0..12], offset, file_size);
    proof {
        assert(header@.subrange(0, 12) =~= header@.take(12));
    }
    let prefix = match prefix {
        Err(e) => return Err(e),
        Ok(p) => p,
    };
    if prefix.flags == RAW_DATA_FLAGS {
        Ok(
            Record::Data(
                DataRecord {
                    record_offset: offset,
                    total_length: prefix.total_length,
                    payload_offset: offset + 36,
                    payload_length: prefix.total_length - 36,
                    logical_offset: le_u64(header, 20),
                    logical_length: le_u32(header, 28),
                    encoding: Encoding::Raw,
                },
            ),
        )
    } else if prefix.flags == ZLIB_DATA_FLAGS {
        let declared_length = le_u32(header, 12);
        let logical_length = le_u32(header, 32);
        if declared_length != logical_length {
            return Err(RdrError::ConflictingLogicalSizes(offset));
        }
        Ok(
            Record::Data(
                DataRecord {
                    record_offset: offset,
                    total_length: prefix.total_length,
                    payload_offset: offset + 40,
                    payload_length: prefix.total_length - 40,
                    logical_offset: le_u64(header, 24),
                    logical_length,
                    encoding: Encoding::Zlib,
                },
            ),
        )
    } else {
        Ok(
            Record::Metadata {
                record_offset: offset,
                total_length: prefix.total_length,
                flags: prefix.flags,
            },
        )
    }
}

/// Every record that is accepted lies inside the file, and a data record's
/// payload fills the rest of the record after its header.
pub proof fn lemma_record_inside_file(h: Seq<u8>, offset: u64, file_size: u64)
    requires
        h.len() >= RECORD_PREFIX_SIZE,
        spec_record(h, offset, file_size) is Ok,
    ensures
        match spec_record(h, offset, file_size)->Ok_0 {
            Record::Data(d) => {
                &&& d.record_offset == offset
                &&& d.total_length >= RAW_DATA_HEADER_SIZE
                &&& offset + d.total_length <= file_size
                &&& d.payload_offset + d.payload_length == offset + d.total_length
                &&& d.payload_offset >= offset + RAW_DATA_HEADER_SIZE
            },
            Record::Metadata { record_offset, total_length, .. } => {
                &&& record_offset == offset
                &&& total_length >= RECORD_PREFIX_SIZE
                &&& offset + total_length <= file_size
            },
        },
{
}

/// How the outer file header is read: the magic at byte 0, the header's own
/// size (52) at byte 4, and the file's declared size at byte 44.
pub proof fn lemma_file_header_layout(b: Seq<u8>)
    ensures
        spec_file_header(b) is Ok <==> le_u32_at(b, 0) == 0xd754_da33 && le_u32_at(b, 4) == 52,
        le_u32_at(b, 0) != 0xd754_da33 ==> spec_file_header(b) == Err::<FileHeader, RdrError>(
            RdrError::BadMagic,
        ),
        le_u32_at(b, 0) == 0xd754_da33 && le_u32_at(b, 4) != 52 ==> spec_file_header(b) == Err::<
            FileHeader,
            RdrError,
        >(RdrError::UnsupportedHeaderSize(le_u32_at(b, 4) as u32)),
        spec_file_header(b) matches Ok(h) ==> h.declared_file_size == le_u64_at(b, 44),
{
}

/// How a record header is read. The prefix holds the magic, the record's
/// total length (at least 12, ending inside the file) and its flags. A raw
/// data record (flags 0x18000020, at least 36 bytes) has its logical offset
/// at byte 20 and logical length at byte 28, its payload after byte 36; a
/// zlib data record (flags 0x18040220, at least 40 bytes) has a declared
/// length at byte 12 that must equal the logical length at byte 32, its
/// logical offset at byte 24, its payload after byte 40; any other record is
/// metadata.
pub proof fn lemma_record_layout(h: Seq<u8>, offset: u64, file_size: u64)
    requires
        h.len() >= 12,
    ensures
        ({
            let total = le_u32_at(h, 4);
            let flags = le_u32_at(h, 8);
            let r = spec_record(h, offset, file_size);
            &&& le_u32_at(h, 0) != 0xd754_da33 ==> r == Err::<Record, RdrError>(
                RdrError::BadRecordMagic(offset),
            )
            &&& le_u32_at(h, 0) == 0xd754_da33 && total < 12 ==> r == Err::<Record, RdrError>(
                RdrError::InvalidRecordLength(offset),
            )
            &&& le_u32_at(h, 0) == 0xd754_da33 && total >= 12 && offset + total > file_size ==> r
                == Err::<Record, RdrError>(RdrError::RecordPastEof(offset))
            &&& le_u32_at(h, 0) == 0xd754_da33 && total >= 12 && offset + total <= file_size ==> {
                &&& flags == 0x1800_0020 && total < 36 ==> r == Err::<Record, RdrError>(
                    RdrError::ShortRawRecord,
                )
                &&& flags == 0x1800_0020 && total >= 36 ==> r == Ok::<Record, RdrError>(
                    Record::Data(
                        DataRecord {
                            record_offset: offset,
                            total_length: total as u32,
                            payload_offset: (offset + 36) as u64,
                            payload_length: (total - 36) as u32,
                            logical_offset: le_u64_at(h, 20) as u64,
                            logical_length: le_u32_at(h, 28) as u32,
                            encoding: Encoding::Raw,
                        },
                    ),
                )
                &&& flags == 0x1804_0220 && total < 40 ==> r == Err::<Record, RdrError>(
                    RdrError::ShortZlibRecord,
                )
                &&& flags == 0x1804_0220 && total >= 40 && le_u32_at(h, 12) != le_u32_at(h, 32)
                    ==> r == Err::<Record, RdrError>(RdrError::ConflictingLogicalSizes(offset))
                &&& flags == 0x1804_0220 && total >= 40 && le_u32_at(h, 12) == le_u32_at(h, 32)
                    ==> r == Ok::<Record, RdrError>(
                    Record::Data(
                        DataRecord {
                            record_offset: offset,
                            total_length: total as u32,
                            payload_offset: (offset + 40) as u64,
                            payload_length: (total - 40) as u32,
                            logical_offset: le_u64_at(h, 24) as u64,
                            logical_length: le_u32_at(h, 32) as u32,
                            encoding: Encoding::Zlib,
                        },
                    ),
                )
                &&& flags != 0x1800_0020 && flags != 0x1804_0220 ==> r == Ok::<Record, RdrError>(
                    Record::Metadata {
                        record_offset: offset,
                        total_length: total as u32,
                        flags: flags as u32,
                    },
                )
            }
        }),
{
    let c = h.take(12);
    assert(le_u32_at(c, 0) == le_u32_at(h, 0));
    assert(le_u32_at(c, 4) == le_u32_at(h, 4));
    assert(le_u32_at(c, 8) == le_u32_at(h, 8));
}

} // verus!
