use vstd::prelude::*;

use crate::bytes::{le_u32, le_u32_at, le_u64, le_u64_at, opt_bytes};
use crate::directory::ArchiveDirectoryEntry;
use crate::error::RdrError;
use crate::format::{
    Record, FILE_HEADER_SIZE, MAGIC, RAW_CHUNK_INDEX_FLAGS, ZLIB_CHUNK_INDEX_FLAGS,
};
use crate::inflate::{inflate, zlib_inflate};

verus! {

/// Length of the header of an uncompressed chunk-index frame.
pub const RAW_INDEX_HEADER_SIZE: u32 = 20;
/// Length of the header of a compressed chunk-index frame.
pub const ZLIB_INDEX_HEADER_SIZE: u32 = 24;
/// Length of the header of a decoded chunk-index payload.
pub const INDEX_PAYLOAD_HEADER_SIZE: u32 = 28;
/// Length of one decoded chunk-index entry.
pub const INDEX_ENTRY_SIZE: u32 = 12;

/// Where the record that holds one chunk lies.
#[derive(Clone, Copy, Debug, PartialEq, Eq)]
pub struct ChunkIndexEntry {
    pub record_offset: u64,
    pub total_length: u32,
}

/// A decoded and checked compact chunk index.
#[derive(Clone, Debug, PartialEq, Eq)]
pub struct ChunkIndex {
    pub logical_size: u64,
    pub chunk_size: u32,
    pub records: Vec<ChunkIndexEntry>,
}

/// The mathematical content of a chunk index.
pub struct ChunkIndexView {
    pub logical_size: u64,
    pub chunk_size: u32,
    pub records: Seq<ChunkIndexEntry>,
}

impl View for ChunkIndex {
    type V = ChunkIndexView;

    open spec fn view(&self) -> ChunkIndexView {
        ChunkIndexView {
            logical_size: self.logical_size,
            chunk_size: self.chunk_size,
            records: self.records@,
        }
    }
}

/// `a` divided by `b`, rounded up.
pub open spec fn ceil_div(a: int, b: int) -> int {
    (a + b - 1) / b
}

/// The geometry that a chunk index promises: a positive size cut into
/// `ceil(size / chunk_size)` chunks of `chunk_size` bytes (the last one
/// possibly shorter), each stored in a record of the file, the records at
/// strictly increasing offsets.
pub open spec fn index_wf(v: ChunkIndexView, file_size: u64) -> bool {
    &&& v.logical_size > 0
    &&& v.chunk_size > 0
    &&& v.records.len() == ceil_div(v.logical_size as int, v.chunk_size as int)
    &&& forall|i: int|
        0 <= i < v.records.len() ==> {
            &&& #[trigger] v.records[i].total_length >= 12
            &&& v.records[i].record_offset + v.records[i].total_length <= file_size
        }
    &&& forall|i: int, j: int|
        0 <= i < j < v.records.len() ==> #[trigger] v.records[i].record_offset
            < #[trigger] v.records[j].record_offset
}

/// The logical offset at which chunk `i` starts.
pub open spec fn chunk_offset(v: ChunkIndexView, i: int) -> int {
    i * v.chunk_size
}

/// The logical length of chunk `i`: a whole chunk, or what is left of the object.
pub open spec fn chunk_length(v: ChunkIndexView, i: int) -> int {
    let rest = v.logical_size - chunk_offset(v, i);
    if rest < v.chunk_size {
        rest
    } else {
        v.chunk_size as int
    }
}

/// What the decoded payload of a compressed frame yields, given what it
/// inflated to and the length the frame declares.
pub open spec fn spec_inflated_index(declared: int, inflated: Option<Seq<u8>>) -> Result<
    Seq<u8>,
    RdrError,
> {
    match inflated {
        None => Err(RdrError::ChunkIndexInflateFailed),
        Some(d) => if d.len() == declared {
            Ok(d)
        } else {
            Err(RdrError::ChunkIndexDecodedLengthMismatch)
        },
    }
}

/// The decoded chunk-index payload that the frame bytes `b` of `frame` hold
/// for object `object`, or why they are refused.
pub open spec fn spec_index_payload(frame: ArchiveDirectoryEntry, b: Seq<u8>, object: u32) -> Result<
    Seq<u8>,
    RdrError,
> {
    let flags = le_u32_at(b, 8);
    if frame.total_length < RAW_INDEX_HEADER_SIZE {
        Err(RdrError::ChunkIndexFrameTooShort)
    } else if le_u32_at(b, 0) != MAGIC {
        Err(RdrError::BadChunkIndexMagic)
    } else if le_u32_at(b, 4) != frame.total_length {
        Err(RdrError::ChunkIndexLengthMismatch)
    } else if flags == RAW_CHUNK_INDEX_FLAGS {
        if le_u32_at(b, 12) != object {
            Err(RdrError::ChunkIndexObjectMismatch)
        } else {
            Ok(b.skip(RAW_INDEX_HEADER_SIZE as int))
        }
    } else if flags == ZLIB_CHUNK_INDEX_FLAGS {
        if b.len() < ZLIB_INDEX_HEADER_SIZE {
            Err(RdrError::CompressedChunkIndexTooShort)
        } else if le_u32_at(b, 16) != object {
            Err(RdrError::ChunkIndexObjectMismatch)
        } else {
            spec_inflated_index(le_u32_at(b, 12), zlib_inflate(b.skip(ZLIB_INDEX_HEADER_SIZE as int)))
        }
    } else {
        Err(RdrError::UnsupportedChunkIndexEncoding(flags as u32))
    }
}

/// Accepts what a compressed chunk index inflated to: it must have the length
/// that its frame declares.
pub fn inflated_index(declared: u32, inflated: Option<Vec<u8>>) -> (r: Result<Vec<u8>, RdrError>)
    ensures
        match r {
            Ok(v) => spec_inflated_index(declared as int, opt_bytes(inflated)) == Ok::<
                Seq<u8>,
                RdrError,
            >(v@),
            Err(e) => spec_inflated_index(declared as int, opt_bytes(inflated)) == Err::<
                Seq<u8>,
                RdrError,
            >(e),
        },
{
    match inflated {
        None => Err(RdrError::ChunkIndexInflateFailed),
        Some(decoded) => {
            if decoded.len() == declared as usize {
                Ok(decoded)
            } else {
                Err(RdrError::ChunkIndexDecodedLengthMismatch)
            }
        },
    }
}

/// Checks a chunk-index frame (all `frame.total_length` bytes of it) of
/// object `object` and returns its decoded payload, inflating it when the
/// frame is compressed.
pub fn decode_index_frame(frame: &ArchiveDirectoryEntry, bytes: &[u8], object: u32) -> (r: Result<
    Vec<u8>,
    RdrError,
>)
    requires
        bytes@.len() == frame.total_length,
    ensures
        match r {
            Ok(v) => spec_index_payload(*frame, bytes@, object) == Ok::<Seq<u8>, RdrError>(v@),
            Err(e) => spec_index_payload(*frame, bytes@, object) == Err::<Seq<u8>, RdrError>(e),
        },
{
    if frame.total_length < 20 {
        return Err(RdrError::ChunkIndexFrameTooShort);
    }
    if le_u32(bytes, 0) != MAGIC {
        return Err(RdrError::BadChunkIndexMagic);
    }
    if le_u32(bytes, 4) != frame.total_length {
        return Err(RdrError::ChunkIndexLengthMismatch);
    }
    let flags = le_u32(bytes, 8);
    if flags == RAW_CHUNK_INDEX_FLAGS {
        if le_u32(bytes, 12) != object {
            return Err(RdrError::ChunkIndexObjectMismatch);
        }
        let mut out: Vec<u8> = Vec::new();
        let mut k: usize = 20;
        while k < bytes.len()
            invariant
                20 <= k <= bytes@.len(),
                out@ == bytes@.subrange(20, k as int),
            decreases bytes@.len() - k,
        {
            out.push(bytes[k]);
            k = k + 1;
        }
        assert(out@ =~= bytes@.skip(20));
        Ok(out)
    } else if flags == ZLIB_CHUNK_INDEX_FLAGS {
        if bytes.len() < 24 {
            return Err(RdrError::CompressedChunkIndexTooShort);
        }
        if le_u32(bytes, 16) != object {
            return Err(RdrError::ChunkIndexObjectMismatch);
        }
        let declared = le_u32(bytes, 12);
        let compressed = &bytes[24..bytes.len()];
        assert(compressed@ =~= bytes@.skip(24));
        let inflated = inflate(compressed);
        inflated_index(declared, inflated)
    } else {
        Err(RdrError::UnsupportedChunkIndexEncoding(flags))
    }
}

/// How a chunk-index frame is read. Its first twelve bytes must hold the
/// magic, the frame's own length and the flags of a raw or a zlib index.
/// A raw frame names its object at byte 12 and its payload is everything
/// after byte 20; a zlib frame names the payload's length at byte 12 and its
/// object at byte 16, and its payload is what the bytes after byte 24 inflate
/// to, when that has the named length.
pub proof fn lemma_index_frame_layout(frame: ArchiveDirectoryEntry, b: Seq<u8>, object: u32)
    requires
        b.len() == frame.total_length,
    ensures
        spec_index_payload(frame, b, object) is Ok ==> frame.total_length >= 20 && le_u32_at(b, 0)
            == 0xd754_da33 && le_u32_at(b, 4) == frame.total_length,
        spec_index_payload(frame, b, object) is Ok ==> le_u32_at(b, 8) == 0x0800_0090
            || le_u32_at(b, 8) == 0x0804_0290,
        ({
            let good = frame.total_length >= 20 && le_u32_at(b, 0) == 0xd754_da33 && le_u32_at(b, 4)
                == frame.total_length;
            &&& good && le_u32_at(b, 8) == 0x0800_0090 ==> {
                &&& le_u32_at(b, 12) != object ==> spec_index_payload(frame, b, object) == Err::<
                    Seq<u8>,
                    RdrError,
                >(RdrError::ChunkIndexObjectMismatch)
                &&& le_u32_at(b, 12) == object ==> spec_index_payload(frame, b, object) == Ok::<
                    Seq<u8>,
                    RdrError,
                >(b.subrange(20, b.len() as int))
            }
            &&& good && le_u32_at(b, 8) == 0x0804_0290 && b.len() >= 24 ==> {
                &&& le_u32_at(b, 16) != object ==> spec_index_payload(frame, b, object) == Err::<
                    Seq<u8>,
                    RdrError,
                >(RdrError::ChunkIndexObjectMismatch)
                &&& le_u32_at(b, 16) == object ==> spec_index_payload(frame, b, object) == match zlib_inflate(
                    b.subrange(24, b.len() as int),
                ) {
                    None => Err::<Seq<u8>, RdrError>(RdrError::ChunkIndexInflateFailed),
                    Some(p) => if p.len() == le_u32_at(b, 12) {
                        Ok::<Seq<u8>, RdrError>(p)
                    } else {
                        Err::<Seq<u8>, RdrError>(RdrError::ChunkIndexDecodedLengthMismatch)
                    },
                }
            }
        }),
{
    assert(b.skip(20) =~= b.subrange(20, b.len() as int));
    assert(b.skip(24) =~= b.subrange(24, b.len() as int));
}

/// The `k`-th entry of the decoded payload `d`, or why it is refused, in a
/// file of `file_size` bytes.
pub open spec fn spec_index_entry(d: Seq<u8>, k: int, file_size: u64) -> Result<
    ChunkIndexEntry,
    RdrError,
> {
    let base = INDEX_PAYLOAD_HEADER_SIZE + k * INDEX_ENTRY_SIZE;
    let offset = FILE_HEADER_SIZE + le_u64_at(d, base);
    let total = le_u32_at(d, base + 8);
    if offset > u64::MAX {
        Err(RdrError::ChunkRecordOffsetOverflow)
    } else if total < 12 || offset + total > file_size {
        Err(RdrError::ChunkEntryOutside)
    } else {
        Ok(ChunkIndexEntry { record_offset: offset as u64, total_length: total as u32 })
    }
}

/// The first `n` entries of the decoded payload `d`, or the first refusal
/// among them (an entry that does not lie after the one before it included).
pub open spec fn spec_index_entries(d: Seq<u8>, n: nat, file_size: u64) -> Result<
    Seq<ChunkIndexEntry>,
    RdrError,
>
    decreases n,
{
    if n == 0 {
        Ok(Seq::empty())
    } else {
        match spec_index_entries(d, (n - 1) as nat, file_size) {
            Err(e) => Err(e),
            Ok(s) => match spec_index_entry(d, n - 1, file_size) {
                Err(e) => Err(e),
                Ok(entry) => if s.len() > 0 && entry.record_offset <= s.last().record_offset {
                    Err(RdrError::ChunkOffsetsNotIncreasing)
                } else {
                    Ok(s.push(entry))
                },
            },
        }
    }
}

proof fn lemma_index_entries_error_persists(d: Seq<u8>, k: nat, n: nat, file_size: u64)
    requires
        k <= n,
        spec_index_entries(d, k, file_size) is Err,
    ensures
        spec_index_entries(d, n, file_size) == spec_index_entries(d, k, file_size),
    decreases n - k,
{
    if n > k {
        lemma_index_entries_error_persists(d, k, (n - 1) as nat, file_size);
    }
}

proof fn lemma_index_entries_shape(d: Seq<u8>, n: nat, file_size: u64)
    requires
        spec_index_entries(d, n, file_size) is Ok,
    ensures
        ({
            let s = spec_index_entries(d, n, file_size)->Ok_0;
            &&& s.len() == n
            &&& forall|i: int|
                0 <= i < s.len() ==> {
                    &&& #[trigger] s[i].total_length >= 12
                    &&& s[i].record_offset + s[i].total_length <= file_size
                }
            &&& forall|i: int, j: int|
                0 <= i < j < s.len() ==> #[trigger] s[i].record_offset
                    < #[trigger] s[j].record_offset
        }),
    decreases n,
{
    if n > 0 {
        lemma_index_entries_shape(d, (n - 1) as nat, file_size);
    }
}

spec fn entries_fit(d: Seq<u8>, n: int, file_size: u64) -> bool {
    forall|k: int|
        0 <= k < n ==> #[trigger] le_u32_at(d, 36 + 12 * k) >= 12 && 52 + le_u64_at(d, 28 + 12 * k)
            + le_u32_at(d, 36 + 12 * k) <= file_size
}

spec fn offsets_increase(d: Seq<u8>, n: int) -> bool {
    forall|k: int| 0 < k < n ==> le_u64_at(d, 16 + 12 * k) < #[trigger] le_u64_at(d, 28 + 12 * k)
}

proof fn lemma_index_entries_layout(d: Seq<u8>, n: nat, file_size: u64)
    ensures
        spec_index_entries(d, n, file_size) is Ok <==> entries_fit(d, n as int, file_size)
            && offsets_increase(d, n as int),
        spec_index_entries(d, n, file_size) matches Ok(s) ==> s.len() == n && forall|k: int|
            0 <= k < n ==> #[trigger] s[k] == (ChunkIndexEntry {
                record_offset: (52 + le_u64_at(d, 28 + 12 * k)) as u64,
                total_length: le_u32_at(d, 36 + 12 * k) as u32,
            }),
    decreases n,
{
    if n > 0 {
        let m = (n - 1) as int;
        lemma_index_entries_layout(d, (n - 1) as nat, file_size);
        assert(28 + m * 12 == 28 + 12 * m);
        assert(28 + m * 12 + 8 == 36 + 12 * m);
        assert(m > 0 ==> 28 + 12 * (m - 1) == 16 + 12 * m);
        if entries_fit(d, n as int, file_size) {
            assert(entries_fit(d, m, file_size));
            assert(le_u32_at(d, 36 + 12 * m) >= 12);
        }
        if offsets_increase(d, n as int) {
            assert(offsets_increase(d, m));
            if m > 0 {
                assert(le_u64_at(d, 28 + 12 * m) > le_u64_at(d, 16 + 12 * m));
            }
        }
        if spec_index_entries(d, n, file_size) is Ok {
            assert forall|k: int|
                0 <= k < n implies #[trigger] le_u32_at(d, 36 + 12 * k) >= 12 && 52 + le_u64_at(
                d,
                28 + 12 * k,
            ) + le_u32_at(d, 36 + 12 * k) <= file_size by {
                if k < m {
                    assert(le_u32_at(d, 36 + 12 * k) >= 12);
                }
            }
            assert forall|k: int| 0 < k < n implies le_u64_at(d, 16 + 12 * k) < #[trigger] le_u64_at(
                d,
                28 + 12 * k,
            ) by {
                if k < m {
                    assert(le_u64_at(d, 28 + 12 * k) > le_u64_at(d, 16 + 12 * k));
                }
            }
        } else if spec_index_entries(d, (n - 1) as nat, file_size) is Ok {
            let s = spec_index_entries(d, (n - 1) as nat, file_size)->Ok_0;
            if m > 0 {
                assert(s[m - 1] == s.last());
            }
        }
    }
}

/// How a decoded chunk-index payload is read: the object's logical size at
/// byte 0, the chunk size at byte 16 and the chunk count at byte 24, then one
/// 12-byte entry per chunk from byte 28, each a record offset relative to the
/// end of the file header and a record length. It is accepted exactly when
/// the sizes are positive, the chunk size fits 32 bits, the payload holds
/// exactly the entries, the count is the size divided by the chunk size
/// rounded up, every record is at least a prefix long and ends inside the
/// file, and the records' offsets strictly increase; it then lists them all.
pub proof fn lemma_chunk_index_layout(d: Seq<u8>, file_size: u64)
    ensures
        ({
            let logical = le_u64_at(d, 0);
            let chunk = le_u64_at(d, 16);
            let count = le_u32_at(d, 24);
            &&& spec_chunk_index(d, file_size) is Ok <==> {
                &&& d.len() >= 28
                &&& 0 < chunk <= u32::MAX
                &&& logical > 0
                &&& d.len() == 28 + 12 * count
                &&& (logical + chunk - 1) / chunk == count
                &&& forall|k: int|
                    0 <= k < count ==> #[trigger] le_u32_at(d, 36 + 12 * k) >= 12 && 52 + le_u64_at(
                        d,
                        28 + 12 * k,
                    ) + le_u32_at(d, 36 + 12 * k) <= file_size
                &&& forall|k: int|
                    0 < k < count ==> le_u64_at(d, 16 + 12 * k) < #[trigger] le_u64_at(
                        d,
                        28 + 12 * k,
                    )
            }
            &&& spec_chunk_index(d, file_size) matches Ok(v) ==> {
                &&& v.logical_size == logical
                &&& v.chunk_size == chunk
                &&& v.records.len() == count
                &&& forall|k: int|
                    0 <= k < count ==> #[trigger] v.records[k] == (ChunkIndexEntry {
                        record_offset: (52 + le_u64_at(d, 28 + 12 * k)) as u64,
                        total_length: le_u32_at(d, 36 + 12 * k) as u32,
                    })
            }
        }),
{
    lemma_index_entries_layout(d, le_u32_at(d, 24) as nat, file_size);
}

/// What the decoded chunk-index payload `d` describes, or why it is refused,
/// in a file of `file_size` bytes.
pub open spec fn spec_chunk_index(d: Seq<u8>, file_size: u64) -> Result<ChunkIndexView, RdrError> {
    let logical = le_u64_at(d, 0);
    let chunk = le_u64_at(d, 16);
    let count = le_u32_at(d, 24);
    if d.len() < INDEX_PAYLOAD_HEADER_SIZE {
        Err(RdrError::ChunkIndexPayloadTooShort)
    } else if chunk > u32::MAX {
        Err(RdrError::UnsupportedChunkSize)
    } else if logical == 0 || chunk == 0 {
        Err(RdrError::InvalidChunkIndexGeometry)
    } else if d.len() != INDEX_PAYLOAD_HEADER_SIZE + count * INDEX_ENTRY_SIZE {
        Err(RdrError::MalformedChunkIndex)
    } else if ceil_div(logical, chunk) != count {
        Err(RdrError::ChunkCountMismatch)
    } else {
        match spec_index_entries(d, count as nat, file_size) {
            Err(e) => Err(e),
            Ok(s) => Ok(
                ChunkIndexView { logical_size: logical as u64, chunk_size: chunk as u32, records: s },
            ),
        }
    }
}

/// Parses and checks a decoded chunk-index payload: its geometry, and that
/// every entry lies in the file after the one before it.
pub fn parse_chunk_index(decoded: &[u8], file_size: u64) -> (r: Result<ChunkIndex, RdrError>)
    ensures
        match r {
            Ok(index) => spec_chunk_index(decoded@, file_size) == Ok::<ChunkIndexView, RdrError>(
                index@,
            ) && index_wf(index@, file_size),
            Err(e) => spec_chunk_index(decoded@, file_size) == Err::<ChunkIndexView, RdrError>(e),
        },
{
    let len = decoded.len();
    if len < 28 {
        return Err(RdrError::ChunkIndexPayloadTooShort);
    }
    let logical_size = le_u64(decoded, 0);
    let chunk_size_u64 = le_u64(decoded, 16);
    let count = le_u32(decoded, 24);
    if chunk_size_u64 > 0xffff_ffff {
        return Err(RdrError::UnsupportedChunkSize);
    }
    let chunk_size = chunk_size_u64 as u32;
    if logical_size == 0 || chunk_size == 0 {
        return Err(RdrError::InvalidChunkIndexGeometry);
    }
    if len as u64 != 28 + (count as u64) * 12 {
        return Err(RdrError::MalformedChunkIndex);
    }
    let q = logical_size / (chunk_size as u64);
    let rem = logical_size % (chunk_size as u64);
    assert(q * chunk_size + rem == logical_size && 0 <= rem < chunk_size) by (nonlinear_arith)
        requires
            chunk_size > 0,
            q == logical_size / (chunk_size as u64),
            rem == logical_size % (chunk_size as u64),
    ;
    assert(rem != 0 ==> q < u64::MAX) by (nonlinear_arith)
        requires
            q * chunk_size + rem == logical_size,
            chunk_size >= 1,
            logical_size <= u64::MAX,
            rem >= 0,
    ;
    let chunks: u64 = if rem == 0 {
        q
    } else {
        q + 1
    };
    assert(chunks == ceil_div(logical_size as int, chunk_size as int)) by (nonlinear_arith)
        requires
            chunk_size > 0,
            q * chunk_size + rem == logical_size,
            0 <= rem < chunk_size,
            chunks == (if rem == 0 {
                q as int
            } else {
                q + 1
            }),
    {
        if rem == 0 {
            assert((logical_size + chunk_size - 1) == q * chunk_size + (chunk_size - 1));
        } else {
            assert((logical_size + chunk_size - 1) == (q + 1) * chunk_size + (rem - 1));
        }
    }
    if chunks != count as u64 {
        return Err(RdrError::ChunkCountMismatch);
    }
    let mut records: Vec<ChunkIndexEntry> = Vec::new();
    let mut k: usize = 0;
    let total = count as usize;
    while k < total
        invariant
            len == decoded@.len(),
            total == count,
            len == 28 + total * 12,
            k <= total,
            records@.len() == k,
            spec_chunk_index(decoded@, file_size) == (match spec_index_entries(
                decoded@,
                count as nat,
                file_size,
            ) {
                Err(e) => Err(e),
                Ok(s) => Ok(
                    ChunkIndexView { logical_size, chunk_size, records: s },
                ),
            }),
            spec_index_entries(decoded@, k as nat, file_size) == Ok::<
                Seq<ChunkIndexEntry>,
                RdrError,
            >(records@),
        decreases total - k,
    {
        let base = 28 + k * 12;
        let raw_offset = le_u64(decoded, base);
        let total_length = le_u32(decoded, base + 8);
        if raw_offset > u64::MAX - 52 {
            assert(spec_index_entries(decoded@, (k + 1) as nat, file_size) == Err::<
                Seq<ChunkIndexEntry>,
                RdrError,
            >(RdrError::ChunkRecordOffsetOverflow));
            proof {
                lemma_index_entries_error_persists(decoded@, (k + 1) as nat, count as nat, file_size);
            }
            return Err(RdrError::ChunkRecordOffsetOverflow);
        }
        let record_offset = 52 + raw_offset;
        if total_length < 12 || record_offset > file_size || file_size - record_offset
            < total_length as u64 {
            assert(spec_index_entries(decoded@, (k + 1) as nat, file_size) == Err::<
                Seq<ChunkIndexEntry>,
                RdrError,
            >(RdrError::ChunkEntryOutside));
            proof {
                lemma_index_entries_error_persists(decoded@, (k + 1) as nat, count as nat, file_size);
            }
            return Err(RdrError::ChunkEntryOutside);
        }
        if k > 0 && record_offset <= records[k - 1].record_offset {
            assert(spec_index_entries(decoded@, (k + 1) as nat, file_size) == Err::<
                Seq<ChunkIndexEntry>,
                RdrError,
            >(RdrError::ChunkOffsetsNotIncreasing));
            proof {
                lemma_index_entries_error_persists(decoded@, (k + 1) as nat, count as nat, file_size);
            }
            return Err(RdrError::ChunkOffsetsNotIncreasing);
        }
        records.push(ChunkIndexEntry { record_offset, total_length });
        assert(spec_index_entries(decoded@, (k + 1) as nat, file_size) == Ok::<
            Seq<ChunkIndexEntry>,
            RdrError,
        >(records@));
        k = k + 1;
    }
    proof {
        lemma_index_entries_shape(decoded@, count as nat, file_size);
    }
    Ok(ChunkIndex { logical_size, chunk_size, records })
}

/// The chunk geometry alone: a positive size cut into positive chunks, one
/// index entry per chunk.
pub open spec fn geometry_wf(v: ChunkIndexView) -> bool {
    &&& v.logical_size > 0
    &&& v.chunk_size > 0
    &&& v.records.len() == ceil_div(v.logical_size as int, v.chunk_size as int)
}

/// Every chunk starts inside the object and ends at or before its end.
pub proof fn lemma_chunk_inside(size: int, chunk: int, i: int)
    requires
        size > 0,
        chunk > 0,
        0 <= i < ceil_div(size, chunk),
    ensures
        i * chunk < size,
        (i + 1) * chunk >= size ==> i + 1 == ceil_div(size, chunk),
{
    assert(i * chunk < size) by (nonlinear_arith)
        requires
            size > 0,
            chunk > 0,
            0 <= i < (size + chunk - 1) / chunk,
    {
        assert(i + 1 <= (size + chunk - 1) / chunk);
        assert((i + 1) * chunk <= ((size + chunk - 1) / chunk) * chunk);
        assert(((size + chunk - 1) / chunk) * chunk <= size + chunk - 1);
    }
    assert((i + 1) * chunk >= size ==> i + 1 == ceil_div(size, chunk)) by (nonlinear_arith)
        requires
            size > 0,
            chunk > 0,
            0 <= i < (size + chunk - 1) / chunk,
            i * chunk < size,
    {
        if (i + 1) * chunk >= size {
            let q = (size + chunk - 1) / chunk;
            assert(q * chunk <= size + chunk - 1);
            assert(q * chunk > size + chunk - 1 - chunk);
            assert(q <= i + 1 || q * chunk >= (i + 2) * chunk);
        }
    }
}

/// The chunks of an index tile its object: the first starts at zero, each
/// but the last is a whole chunk that ends where the next one starts, and the
/// last one ends at the object's end.
pub proof fn lemma_chunks_tile_object(v: ChunkIndexView)
    requires
        geometry_wf(v),
    ensures
        chunk_offset(v, 0) == 0,
        forall|i: int|
            0 <= i < v.records.len() ==> 1 <= #[trigger] chunk_length(v, i) <= v.chunk_size,
        forall|i: int|
            0 <= i < v.records.len() - 1 ==> #[trigger] chunk_length(v, i) == v.chunk_size
                && chunk_offset(v, i) + chunk_length(v, i) == chunk_offset(v, i + 1),
        chunk_offset(v, v.records.len() - 1) + chunk_length(v, v.records.len() - 1)
            == v.logical_size,
{
    let size = v.logical_size as int;
    let c = v.chunk_size as int;
    let n = v.records.len() as int;
    assert(n * c >= size) by (nonlinear_arith)
        requires
            size > 0,
            c > 0,
            n == (size + c - 1) / c,
    {
        assert(n * c > size + c - 1 - c);
    }
    assert(n >= 1) by (nonlinear_arith)
        requires
            size > 0,
            c > 0,
            n * c >= size,
    ;
    assert forall|i: int| 0 <= i < n implies 1 <= #[trigger] chunk_length(v, i) <= c by {
        lemma_chunk_inside(size, c, i);
    }
    assert forall|i: int| 0 <= i < n - 1 implies #[trigger] chunk_length(v, i) == c
        && chunk_offset(v, i) + chunk_length(v, i) == chunk_offset(v, i + 1) by {
        lemma_chunk_inside(size, c, i + 1);
        assert((i + 1) * c == i * c + c) by (nonlinear_arith);
    }
    assert((n - 1) * c + c == n * c) by (nonlinear_arith);
    lemma_chunk_inside(size, c, n - 1);
}

/// Whether chunk `x` is one of the chunks sampled among `n`: the first, the
/// last and, when there are more than two, the second and the middle one.
pub open spec fn is_sampled(n: int, x: int) -> bool {
    x == 0 || x == n - 1 || (n > 2 && (x == 1 || x == n / 2))
}

/// The chunks whose records are read back before an object is served, in
/// increasing order, each once.
pub fn sample_indices(count: usize) -> (v: Vec<usize>)
    requires
        count >= 1,
    ensures
        forall|i: int, j: int| 0 <= i < j < v@.len() ==> v@[i] < v@[j],
        forall|x: usize| v@.contains(x) <==> is_sampled(count as int, x as int),
        forall|x: usize|
            #![trigger v@.contains(x)]
            v@.contains(x) <==> (x == 0 || x == count - 1 || (count > 2 && (x == 1 || x == count
                / 2))),
        forall|i: int| 0 <= i < v@.len() ==> v@[i] < count,
{
    let mut v: Vec<usize> = Vec::new();
    v.push(0);
    if count > 2 {
        v.push(1);
        if count / 2 > 1 {
            v.push(count / 2);
        }
    }
    let last = v[v.len() - 1];
    if count - 1 > last {
        v.push(count - 1);
    }
    assert forall|x: usize| v@.contains(x) <== is_sampled(count as int, x as int) by {
        if is_sampled(count as int, x as int) {
            if x == 0 {
                assert(v@[0] == x);
            } else if count > 2 && x == 1 {
                assert(v@[1] == x);
            } else if count > 2 && x == count / 2 {
                assert(v@[2] == x || v@[1] == x);
            } else {
                assert(v@[v@.len() - 1] == x);
            }
        }
    }
    assert forall|x: usize|
        #![trigger v@.contains(x)]
        v@.contains(x) <==> (x == 0 || x == count - 1 || (count > 2 && (x == 1 || x == count
            / 2))) by {
        assert(v@.contains(x) <==> is_sampled(count as int, x as int));
    }
    v
}

/// Whether `record`, read at the offset that entry `i` names, is the record
/// that the index promises for chunk `i`.
pub open spec fn spec_check_sample(v: ChunkIndexView, i: int, record: Record) -> Result<
    (),
    RdrError,
> {
    match record {
        Record::Metadata { .. } => Err(RdrError::ChunkPointsToMetadata(v.records[i].record_offset)),
        Record::Data(d) => if d.total_length == v.records[i].total_length && d.logical_offset
            == chunk_offset(v, i) && d.logical_length == chunk_length(v, i) {
            Ok(())
        } else {
            Err(RdrError::ChunkVerificationFailed(i as usize))
        },
    }
}

/// A sampled record is accepted exactly when it is a data record with the
/// total length of entry `i`, starting at `i` chunks into the object and as
/// long as a chunk or as what is left of the object, whichever is shorter.
pub proof fn lemma_check_sample_accepts(v: ChunkIndexView, i: int, record: Record)
    ensures
        spec_check_sample(v, i, record) is Ok <==> (record is Data
            && record->Data_0.total_length == v.records[i].total_length
            && record->Data_0.logical_offset == i * v.chunk_size
            && record->Data_0.logical_length == (if v.logical_size - i * v.chunk_size
            < v.chunk_size {
            v.logical_size - i * v.chunk_size
        } else {
            v.chunk_size as int
        })),
        record is Metadata ==> spec_check_sample(v, i, record) == Err::<(), RdrError>(
            RdrError::ChunkPointsToMetadata(v.records[i].record_offset),
        ),
        record is Data && spec_check_sample(v, i, record) is Err ==> spec_check_sample(v, i, record)
            == Err::<(), RdrError>(RdrError::ChunkVerificationFailed(i as usize)),
{
}

impl ChunkIndex {
    /// The logical offset and length of chunk `i`.
    pub fn chunk_span(&self, i: usize) -> (span: (u64, u32))
        requires
            geometry_wf(self@),
            i < self@.records.len(),
        ensures
            span.0 == chunk_offset(self@, i as int),
            span.1 == chunk_length(self@, i as int),
            span.0 + span.1 <= self.logical_size,
            span.1 >= 1,
    {
        proof {
            lemma_chunk_inside(self.logical_size as int, self.chunk_size as int, i as int);
        }
        let offset = i as u64 * self.chunk_size as u64;
        let rest = self.logical_size - offset;
        let length: u32 = if rest < self.chunk_size as u64 {
            rest as u32
        } else {
            self.chunk_size
        };
        (offset, length)
    }

    /// Checks a sampled record against what entry `i` promises.
    pub fn check_sample(&self, i: usize, record: &Record) -> (r: Result<(), RdrError>)
        requires
            geometry_wf(self@),
            i < self@.records.len(),
        ensures
            r == spec_check_sample(self@, i as int, *record),
    {
        match record {
            Record::Metadata { .. } => Err(
                RdrError::ChunkPointsToMetadata(self.records[i].record_offset),
            ),
            Record::Data(d) => {
                let (offset, length) = self.chunk_span(i);
                if d.total_length == self.records[i].total_length && d.logical_offset == offset
                    && d.logical_length == length {
                    Ok(())
                } else {
                    Err(RdrError::ChunkVerificationFailed(i))
                }
            },
        }
    }
}

} // verus!
