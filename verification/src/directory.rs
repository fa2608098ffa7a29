use vstd::prelude::*;

use crate::bytes::{le_u32, le_u32_at, le_u64, le_u64_at};
use crate::error::RdrError;
use crate::format::{ARCHIVE_DIRECTORY_FLAGS, DIRECTORY_POINTER_FLAGS, FILE_HEADER_SIZE, MAGIC};

verus! {

/// Size of the window at the end of the file that is searched for the
/// directory pointer.
pub const FOOTER_WINDOW: u64 = 65536;
/// Length of the directory-pointer record.
pub const DIRECTORY_POINTER_SIZE: u32 = 24;
/// Length of one archive-directory entry.
pub const DIRECTORY_ENTRY_SIZE: u32 = 20;

/// One entry of the archive directory: a frame of some object.
#[derive(Clone, Copy, Debug, PartialEq, Eq)]
pub struct ArchiveDirectoryEntry {
    pub record_offset: u64,
    pub total_length: u32,
    pub object_id: u32,
    pub frame_type: u32,
}

/// Where the archive directory record lies in the file.
#[derive(Clone, Copy, Debug, PartialEq, Eq)]
pub struct DirectoryLocation {
    pub offset: u64,
    pub length: u32,
}

/// The footer window of a file of `file_size` bytes: its last 64 KiB, or the
/// whole file when it is smaller. Returns the window's offset and length.
pub fn footer_window(file_size: u64) -> (w: (u64, usize))
    ensures
        w.1 == (if file_size < FOOTER_WINDOW { file_size } else { FOOTER_WINDOW }),
        w.0 + w.1 == file_size,
{
    let tail_size: u64 = if file_size < 65536 { file_size } else { 65536 };
    (file_size - tail_size, tail_size as usize)
}

/// A directory-pointer record starts at `i` of the footer window `t`.
pub open spec fn is_pointer_at(t: Seq<u8>, i: int) -> bool {
    &&& 0 <= i
    &&& i + DIRECTORY_POINTER_SIZE <= t.len()
    &&& le_u32_at(t, i) == MAGIC
    &&& le_u32_at(t, i + 4) == DIRECTORY_POINTER_SIZE
    &&& le_u32_at(t, i + 8) == DIRECTORY_POINTER_FLAGS
}

/// The last position at or below `i` where a directory pointer starts.
pub open spec fn last_pointer_from(t: Seq<u8>, i: int) -> Option<int>
    decreases i + 1,
{
    if i < 0 {
        None
    } else if is_pointer_at(t, i) {
        Some(i)
    } else {
        last_pointer_from(t, i - 1)
    }
}

/// The last directory pointer of the footer window `t`, if any.
pub open spec fn last_pointer(t: Seq<u8>) -> Option<int> {
    last_pointer_from(t, t.len() - DIRECTORY_POINTER_SIZE)
}

/// Where the footer window `t` of a file of `file_size` bytes locates the
/// archive directory, or why it does not.
pub open spec fn spec_locate_directory(t: Seq<u8>, file_size: u64) -> Result<
    DirectoryLocation,
    RdrError,
> {
    match last_pointer(t) {
        None => Err(RdrError::DirectoryPointerNotFound),
        Some(p) => {
            let offset = FILE_HEADER_SIZE + le_u64_at(t, p + 12);
            let length = le_u32_at(t, p + 20);
            if offset > u64::MAX {
                Err(RdrError::DirectoryOffsetOverflow)
            } else if length < 12 {
                Err(RdrError::InvalidDirectoryLength)
            } else if offset + length > file_size {
                Err(RdrError::DirectoryPastEof)
            } else {
                Ok(DirectoryLocation { offset: offset as u64, length: length as u32 })
            }
        },
    }
}

proof fn lemma_last_pointer_found(t: Seq<u8>, i: int, j: int)
    requires
        j <= i,
        is_pointer_at(t, j),
        forall|k: int| j < k <= i ==> !is_pointer_at(t, k),
    ensures
        last_pointer_from(t, i) == Some(j),
    decreases i - j,
{
    if i > j {
        lemma_last_pointer_found(t, i - 1, j);
    }
}

proof fn lemma_last_pointer_none(t: Seq<u8>, i: int)
    requires
        forall|k: int| 0 <= k <= i ==> !is_pointer_at(t, k),
    ensures
        last_pointer_from(t, i) is None,
    decreases i + 1,
{
    if i >= 0 {
        lemma_last_pointer_none(t, i - 1);
    }
}

/// A directory-pointer record starts at byte `q` of the footer window `t`:
/// the magic, a length of 24 and flags 3, all inside the window.
pub open spec fn footer_pointer_at(t: Seq<u8>, q: int) -> bool {
    &&& 0 <= q
    &&& q + 24 <= t.len()
    &&& le_u32_at(t, q) == 0xd754_da33
    &&& le_u32_at(t, q + 4) == 24
    &&& le_u32_at(t, q + 8) == 3
}

proof fn lemma_last_pointer_from(t: Seq<u8>, i: int)
    ensures
        last_pointer_from(t, i) matches Some(p) ==> 0 <= p <= i && footer_pointer_at(t, p) && forall|
            q: int,
        | p < q <= i ==> !#[trigger] footer_pointer_at(t, q),
        last_pointer_from(t, i) is None ==> forall|q: int|
            0 <= q <= i ==> !#[trigger] footer_pointer_at(t, q),
    decreases i + 1,
{
    if i >= 0 {
        lemma_last_pointer_from(t, i - 1);
    }
}

/// How the footer window `t` locates the archive directory: by the last
/// directory-pointer record in it, whose bytes 12 and 20 give the directory's
/// offset, relative to the end of the file header, and its length. With no
/// pointer the directory is not found; it is located only when it is at
/// least a record prefix long and ends inside the file.
#[verifier::rlimit(30)]
pub proof fn lemma_locate_layout(t: Seq<u8>, file_size: u64)
    ensures
        (spec_locate_directory(t, file_size) == Err::<DirectoryLocation, RdrError>(
            RdrError::DirectoryPointerNotFound,
        )) <==> forall|q: int| !#[trigger] footer_pointer_at(t, q),
        spec_locate_directory(t, file_size) matches Ok(loc) ==> exists|p: int|
            {
                &&& #[trigger] footer_pointer_at(t, p)
                &&& forall|q: int| p < q ==> !#[trigger] footer_pointer_at(t, q)
                &&& loc.offset == 52 + le_u64_at(t, p + 12)
                &&& loc.length == le_u32_at(t, p + 20)
                &&& loc.length >= 12
                &&& loc.offset + loc.length <= file_size
            },
{
    lemma_last_pointer_from(t, t.len() - 24);
    match last_pointer(t) {
        Some(p) => {
            assert(footer_pointer_at(t, p));
            assert forall|q: int| p < q implies !#[trigger] footer_pointer_at(t, q) by {
                if q <= t.len() - 24 {
                }
            }
        },
        None => {
            assert forall|q: int| !#[trigger] footer_pointer_at(t, q) by {
                if 0 <= q <= t.len() - 24 {
                }
            }
        },
    }
}

/// Finds the directory pointer in the footer window, searching from its end,
/// and checks where it says the archive directory lies.
pub fn locate_archive_directory(tail: &[u8], file_size: u64) -> (r: Result<
    DirectoryLocation,
    RdrError,
>)
    ensures
        r == spec_locate_directory(tail@, file_size),
{
    let len = tail.len();
    if len < 24 {
        proof {
            lemma_last_pointer_none(tail@, len - 24);
        }
        return Err(RdrError::DirectoryPointerNotFound);
    }
    let mut i: usize = len - 24;
    let mut found: usize = 0;
    loop
        invariant_except_break
            len == tail@.len(),
            len >= 24,
            i <= len - 24,
            forall|k: int| i < k <= len - 24 ==> !is_pointer_at(tail@, k),
        ensures
            len == tail@.len(),
            found + 24 <= len,
            last_pointer(tail@) == Some(found as int),
        decreases i,
    {
        if le_u32(tail, i) == MAGIC && le_u32(tail, i + 4) == 24 && le_u32(tail, i + 8)
            == DIRECTORY_POINTER_FLAGS {
            found = i;
            proof {
                lemma_last_pointer_found(tail@, len - 24, i as int);
            }
            break ;
        }
        if i == 0 {
            proof {
                lemma_last_pointer_none(tail@, len - 24);
            }
            return Err(RdrError::DirectoryPointerNotFound);
        }
        i = i - 1;
    }
    let raw_offset = le_u64(tail, found + 12);
    let length = le_u32(tail, found + 20);
    if raw_offset > u64::MAX - 52 {
        return Err(RdrError::DirectoryOffsetOverflow);
    }
    let offset = 52 + raw_offset;
    if length < 12 {
        return Err(RdrError::InvalidDirectoryLength);
    }
    if offset > file_size || file_size - offset < length as u64 {
        return Err(RdrError::DirectoryPastEof);
    }
    Ok(DirectoryLocation { offset, length })
}

/// The `k`-th entry of the archive directory record `b`, or why it is refused.
pub open spec fn spec_directory_entry(b: Seq<u8>, k: int, file_size: u64) -> Result<
    ArchiveDirectoryEntry,
    RdrError,
> {
    let base = 12 + k * DIRECTORY_ENTRY_SIZE;
    let offset = FILE_HEADER_SIZE + le_u64_at(b, base);
    let total = le_u32_at(b, base + 8);
    if offset > u64::MAX {
        Err(RdrError::DirectoryEntryOffsetOverflow)
    } else if total < 12 || offset + total > file_size {
        Err(RdrError::DirectoryEntryOutside)
    } else {
        Ok(
            ArchiveDirectoryEntry {
                record_offset: offset as u64,
                total_length: total as u32,
                object_id: le_u32_at(b, base + 12) as u32,
                frame_type: le_u32_at(b, base + 16) as u32,
            },
        )
    }
}

/// The first `n` entries of the archive directory record `b`, or the first
/// refusal among them.
pub open spec fn spec_directory_entries(b: Seq<u8>, n: nat, file_size: u64) -> Result<
    Seq<ArchiveDirectoryEntry>,
    RdrError,
>
    decreases n,
{
    if n == 0 {
        Ok(Seq::empty())
    } else {
        match spec_directory_entries(b, (n - 1) as nat, file_size) {
            Err(e) => Err(e),
            Ok(s) => match spec_directory_entry(b, n - 1, file_size) {
                Err(e) => Err(e),
                Ok(entry) => Ok(s.push(entry)),
            },
        }
    }
}

proof fn lemma_entries_error_persists(b: Seq<u8>, k: nat, n: nat, file_size: u64)
    requires
        k <= n,
        spec_directory_entries(b, k, file_size) is Err,
    ensures
        spec_directory_entries(b, n, file_size) == spec_directory_entries(b, k, file_size),
    decreases n - k,
{
    if n > k {
        lemma_entries_error_persists(b, k, (n - 1) as nat, file_size);
    }
}

spec fn directory_entries_fit(b: Seq<u8>, n: int, file_size: u64) -> bool {
    forall|k: int|
        0 <= k < n ==> #[trigger] le_u32_at(b, 20 + 20 * k) >= 12 && 52 + le_u64_at(b, 12 + 20 * k)
            + le_u32_at(b, 20 + 20 * k) <= file_size
}

proof fn lemma_entries_layout(b: Seq<u8>, n: nat, file_size: u64)
    ensures
        spec_directory_entries(b, n, file_size) is Ok <==> directory_entries_fit(b, n as int, file_size),
        spec_directory_entries(b, n, file_size) matches Ok(s) ==> s.len() == n && forall|k: int|
            0 <= k < n ==> #[trigger] s[k] == (ArchiveDirectoryEntry {
                record_offset: (52 + le_u64_at(b, 12 + 20 * k)) as u64,
                total_length: le_u32_at(b, 20 + 20 * k) as u32,
                object_id: le_u32_at(b, 24 + 20 * k) as u32,
                frame_type: le_u32_at(b, 28 + 20 * k) as u32,
            }),
    decreases n,
{
    if n > 0 {
        let m = (n - 1) as int;
        lemma_entries_layout(b, (n - 1) as nat, file_size);
        assert(12 + m * 20 == 12 + 20 * m);
        assert(12 + m * 20 + 8 == 20 + 20 * m);
        assert(12 + m * 20 + 12 == 24 + 20 * m);
        assert(12 + m * 20 + 16 == 28 + 20 * m);
        if directory_entries_fit(b, n as int, file_size) {
            assert(directory_entries_fit(b, m, file_size));
            assert(le_u32_at(b, 20 + 20 * m) >= 12);
        }
        if spec_directory_entries(b, n, file_size) is Ok {
            assert forall|k: int|
                0 <= k < n implies #[trigger] le_u32_at(b, 20 + 20 * k) >= 12 && 52 + le_u64_at(
                b,
                12 + 20 * k,
            ) + le_u32_at(b, 20 + 20 * k) <= file_size by {
                if k < m {
                    assert(le_u32_at(b, 20 + 20 * k) >= 12);
                }
            }
        }
    }
}

/// How the archive directory record `b` is laid out: a 12-byte prefix with
/// the magic, the record's own length and the directory flags, then 20-byte
/// entries, the `k`-th at byte `12 + 20 k`, each an offset relative to the end
/// of the file header, a length, an object id and a frame type. It is accepted
/// exactly when every entry is at least a record prefix long and ends inside
/// the file, and then it lists every entry, in order.
pub proof fn lemma_directory_layout(b: Seq<u8>, file_size: u64)
    requires
        b.len() >= 12,
    ensures
        spec_archive_directory(b, file_size) is Ok <==> {
            &&& le_u32_at(b, 0) == 0xd754_da33
            &&& le_u32_at(b, 4) == b.len()
            &&& le_u32_at(b, 8) == 8
            &&& (b.len() - 12) % 20 == 0
            &&& forall|k: int|
                0 <= k < (b.len() - 12) / 20 ==> #[trigger] le_u32_at(b, 20 + 20 * k) >= 12 && 52
                    + le_u64_at(b, 12 + 20 * k) + le_u32_at(b, 20 + 20 * k) <= file_size
        },
        spec_archive_directory(b, file_size) matches Ok(s) ==> s.len() == (b.len() - 12) / 20
            && forall|k: int|
            0 <= k < s.len() ==> #[trigger] s[k] == (ArchiveDirectoryEntry {
                record_offset: (52 + le_u64_at(b, 12 + 20 * k)) as u64,
                total_length: le_u32_at(b, 20 + 20 * k) as u32,
                object_id: le_u32_at(b, 24 + 20 * k) as u32,
                frame_type: le_u32_at(b, 28 + 20 * k) as u32,
            }),
{
    lemma_entries_layout(b, ((b.len() - 12) / 20) as nat, file_size);
}

/// What the archive directory record `b` lists, or why it is refused.
pub open spec fn spec_archive_directory(b: Seq<u8>, file_size: u64) -> Result<
    Seq<ArchiveDirectoryEntry>,
    RdrError,
> {
    if le_u32_at(b, 0) != MAGIC {
        Err(RdrError::BadDirectoryMagic)
    } else if le_u32_at(b, 4) != b.len() {
        Err(RdrError::DirectoryLengthMismatch)
    } else if le_u32_at(b, 8) != ARCHIVE_DIRECTORY_FLAGS {
        Err(RdrError::UnsupportedDirectoryRecord)
    } else if (b.len() - 12) % (DIRECTORY_ENTRY_SIZE as int) != 0 {
        Err(RdrError::MalformedDirectory)
    } else {
        spec_directory_entries(b, ((b.len() - 12) / (DIRECTORY_ENTRY_SIZE as int)) as nat, file_size)
    }
}

/// Parses the archive directory record (all of its bytes).
pub fn parse_archive_directory(bytes: &[u8], file_size: u64) -> (r: Result<
    Vec<ArchiveDirectoryEntry>,
    RdrError,
>)
    requires
        bytes@.len() >= 12,
    ensures
        match r {
            Ok(v) => spec_archive_directory(bytes@, file_size) == Ok::<
                Seq<ArchiveDirectoryEntry>,
                RdrError,
            >(v@),
            Err(e) => spec_archive_directory(bytes@, file_size) == Err::<
                Seq<ArchiveDirectoryEntry>,
                RdrError,
            >(e),
        },
{
    let len = bytes.len();
    if le_u32(bytes, 0) != MAGIC {
        return Err(RdrError::BadDirectoryMagic);
    }
    if le_u32(bytes, 4) as usize != len {
        return Err(RdrError::DirectoryLengthMismatch);
    }
    if le_u32(bytes, 8) != ARCHIVE_DIRECTORY_FLAGS {
        return Err(RdrError::UnsupportedDirectoryRecord);
    }
    if (len - 12) % 20 != 0 {
        return Err(RdrError::MalformedDirectory);
    }
    let count = (len - 12) / 20;
    let mut entries: Vec<ArchiveDirectoryEntry> = Vec::new();
    let mut k: usize = 0;
    while k < count
        invariant
            len == bytes@.len(),
            len >= 12,
            count == (len - 12) / 20,
            (len - 12) % 20 == 0,
            k <= count,
            spec_archive_directory(bytes@, file_size) == spec_directory_entries(
                bytes@,
                count as nat,
                file_size,
            ),
            spec_directory_entries(bytes@, k as nat, file_size) == Ok::<
                Seq<ArchiveDirectoryEntry>,
                RdrError,
            >(entries@),
        decreases count - k,
    {
        let base = 12 + k * 20;
        let raw_offset = le_u64(bytes, base);
        let total_length = le_u32(bytes, base + 8);
        let outcome: Result<ArchiveDirectoryEntry, RdrError> = if raw_offset > u64::MAX - 52 {
            Err(RdrError::DirectoryEntryOffsetOverflow)
        } else {
            let record_offset = 52 + raw_offset;
            if total_length < 12 || record_offset > file_size || file_size - record_offset
                < total_length as u64 {
                Err(RdrError::DirectoryEntryOutside)
            } else {
                Ok(
                    ArchiveDirectoryEntry {
                        record_offset,
                        total_length,
                        object_id: le_u32(bytes, base + 12),
                        frame_type: le_u32(bytes, base + 16),
                    },
                )
            }
        };
        assert(outcome == spec_directory_entry(bytes@, k as int, file_size));
        match outcome {
            Err(e) => {
                assert(spec_directory_entries(bytes@, (k + 1) as nat, file_size) == Err::<
                    Seq<ArchiveDirectoryEntry>,
                    RdrError,
                >(e));
                proof {
                    lemma_entries_error_persists(bytes@, (k + 1) as nat, count as nat, file_size);
                }
                return Err(e);
            },
            Ok(entry) => {
                entries.push(entry);
            },
        }
        k = k + 1;
    }
    Ok(entries)
}

} // verus!
