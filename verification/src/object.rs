use vstd::prelude::*;

use crate::chunk_index::{
    chunk_length, chunk_offset, geometry_wf, lemma_chunk_inside, ChunkIndex, ChunkIndexView,
};
use crate::error::RdrError;
use crate::format::Record;
use crate::text::{decimal, push_decimal};

verus! {

/// The name under which object `id` is exported: `object-<id>.raw`.
pub open spec fn raw_file_name(id: u32) -> Seq<char> {
    seq!['o', 'b', 'j', 'e', 'c', 't', '-'] + decimal(id as nat) + seq!['.', 'r', 'a', 'w']
}

/// Builds `object-<id>.raw`.
pub fn object_file_name(id: u32) -> (name: String)
    ensures
        name@ == raw_file_name(id),
{
    let mut name = String::from_str("object-");
    push_decimal(&mut name, id as u64);
    name.append(".raw");
    proof {
        reveal_strlit("object-");
        reveal_strlit(".raw");
        assert(name@ =~= raw_file_name(id));
    }
    name
}

/// One object of an archive, indexed for random access.
pub struct IndexedObject {
    pub filename: String,
    pub index: ChunkIndex,
}

/// A read of the byte range `[offset, end)` of an object, filled chunk by
/// chunk up to `cursor`.
pub struct RangeRead {
    pub offset: u64,
    pub end: u64,
    pub cursor: u64,
    pub data: Vec<u8>,
}

/// The next chunk that a range read needs, and where its record lies.
#[derive(Clone, Copy, Debug, PartialEq, Eq)]
pub struct ChunkRequest {
    pub index: usize,
    pub record_offset: u64,
    pub total_length: u32,
    pub logical_offset: u64,
    pub logical_length: u32,
}

impl RangeRead {
    /// The bytes filled so far are those of `content` at the same logical
    /// positions.
    pub open spec fn holds(self, content: Seq<u8>) -> bool {
        &&& self.offset <= self.cursor <= self.end
        &&& self.data@.len() == self.end - self.offset
        &&& forall|i: int|
            0 <= i < self.cursor - self.offset ==> #[trigger] self.data@[i] == content[self.offset
                + i]
    }
}

/// The end of the range that a read of `count` bytes at `offset` covers in
/// an object of `size` bytes: empty at or past the end, clipped to the end.
pub open spec fn range_end(size: u64, offset: u64, count: u32) -> int {
    if offset >= size || count == 0 {
        offset as int
    } else if offset + count > size {
        size as int
    } else {
        offset + count
    }
}

/// The request for the chunk that holds byte `cursor` of the object.
pub open spec fn spec_request(v: ChunkIndexView, cursor: int) -> ChunkRequest {
    let i = cursor / (v.chunk_size as int);
    ChunkRequest {
        index: i as usize,
        record_offset: v.records[i].record_offset,
        total_length: v.records[i].total_length,
        logical_offset: chunk_offset(v, i) as u64,
        logical_length: chunk_length(v, i) as u32,
    }
}

/// Whether a record read at a chunk's offset is the record the index promises.
pub open spec fn spec_check_record(req: ChunkRequest, record: Record) -> Result<(), RdrError> {
    match record {
        Record::Metadata { .. } => Err(RdrError::ChunkPointsToMetadata(req.record_offset)),
        Record::Data(d) => if d.total_length == req.total_length && d.logical_offset
            == req.logical_offset && d.logical_length == req.logical_length {
            Ok(())
        } else {
            Err(RdrError::ChunkIndexMismatch(req.record_offset))
        },
    }
}

impl IndexedObject {
    /// The index describes a well-formed chunk geometry.
    pub open spec fn wf(self) -> bool {
        geometry_wf(self.index@)
    }

    /// Indexes object `id` with its checked chunk index.
    pub fn new(id: u32, index: ChunkIndex) -> (o: IndexedObject)
        ensures
            o.filename@ == raw_file_name(id),
            o.index == index,
    {
        IndexedObject { filename: object_file_name(id), index }
    }

    /// Starts a read of `count` bytes at `offset`: a buffer of the range's
    /// length, nothing filled yet.
    pub fn start_read(&self, offset: u64, count: u32) -> (r: RangeRead)
        ensures
            r.offset == offset,
            r.end == range_end(self.index.logical_size, offset, count),
            r.cursor == offset,
            r.data@.len() == r.end - offset,
            forall|content: Seq<u8>| #[trigger] r.holds(content),
    {
        let size = self.index.logical_size;
        let end: u64 = if offset >= size || count == 0 {
            offset
        } else if size - offset < count as u64 {
            size
        } else {
            offset + count as u64
        };
        let n = (end - offset) as usize;
        let mut data: Vec<u8> = Vec::new();
        while data.len() < n
            invariant
                data@.len() <= n,
            decreases n - data@.len(),
        {
            data.push(0);
        }
        RangeRead { offset, end, cursor: offset, data }
    }

    /// The chunk that the read needs next, or `None` when the range is filled.
    pub fn next_chunk(&self, read: &RangeRead) -> (req: Option<ChunkRequest>)
        requires
            self.wf(),
            read.cursor <= read.end,
            read.cursor < read.end ==> read.end <= self.index.logical_size,
        ensures
            req is None <==> read.cursor >= read.end,
            req is Some ==> read.end <= self.index.logical_size,
            req matches Some(q) ==> {
                &&& q == spec_request(self.index@, read.cursor as int)
                &&& q.index < self.index@.records.len()
                &&& q.logical_offset <= read.cursor < q.logical_offset + q.logical_length
                &&& q.logical_offset + q.logical_length <= self.index.logical_size
                &&& q.index == (read.cursor as int) / (self.index.chunk_size as int)
                &&& q.record_offset == self.index.records@[q.index as int].record_offset
                &&& q.total_length == self.index.records@[q.index as int].total_length
                &&& q.logical_offset == q.index * self.index.chunk_size
                &&& q.logical_length == if self.index.logical_size - q.logical_offset
                    < self.index.chunk_size {
                    self.index.logical_size - q.logical_offset
                } else {
                    self.index.chunk_size as int
                }
            },
    {
        if read.cursor >= read.end {
            return None;
        }
        let chunk = self.index.chunk_size as u64;
        let count = self.index.records.len();
        let i = read.cursor / chunk;
        proof {
            let size = self.index.logical_size as int;
            let c = chunk as int;
            assert(i * c <= read.cursor < i * c + c) by (nonlinear_arith)
                requires
                    c > 0,
                    i as int == (read.cursor as int) / c,
            ;
            assert(i < ceil_div_local(size, c)) by (nonlinear_arith)
                requires
                    c > 0,
                    i * c <= read.cursor,
                    read.cursor < size,
            {
                assert(i * c + c <= size + c - 1);
                assert((i + 1) * c <= size + c - 1);
            }
        }
        let i = i as usize;
        let (logical_offset, logical_length) = self.index.chunk_span(i);
        Some(
            ChunkRequest {
                index: i,
                record_offset: self.index.records[i].record_offset,
                total_length: self.index.records[i].total_length,
                logical_offset,
                logical_length,
            },
        )
    }

    /// Checks the record read for a chunk against the index.
    pub fn check_record(&self, req: &ChunkRequest, record: &Record) -> (r: Result<(), RdrError>)
        ensures
            r == spec_check_record(*req, *record),
    {
        match record {
            Record::Metadata { .. } => Err(RdrError::ChunkPointsToMetadata(req.record_offset)),
            Record::Data(d) => {
                if d.total_length == req.total_length && d.logical_offset == req.logical_offset
                    && d.logical_length == req.logical_length {
                    Ok(())
                } else {
                    Err(RdrError::ChunkIndexMismatch(req.record_offset))
                }
            },
        }
    }

    /// Copies the requested chunk's bytes that the range needs and moves the
    /// cursor past them, to the chunk's end or the range's end.
    pub fn fill_chunk(&self, read: &mut RangeRead, req: &ChunkRequest, chunk: &[u8])
        requires
            self.wf(),
            old(read).end <= self.index.logical_size,
            old(read).offset <= old(read).cursor < old(read).end,
            old(read).data@.len() == old(read).end - old(read).offset,
            req.logical_offset <= old(read).cursor < req.logical_offset + req.logical_length,
            req.logical_offset + req.logical_length <= self.index.logical_size,
            chunk@.len() == req.logical_length,
        ensures
            final(read).offset == old(read).offset,
            final(read).end == old(read).end,
            old(read).cursor < final(read).cursor <= final(read).end,
            final(read).cursor == (if req.logical_offset + req.logical_length < old(read).end {
                req.logical_offset + req.logical_length
            } else {
                old(read).end as int
            }),
            final(read).data@.len() == old(read).data@.len(),
            forall|content: Seq<u8>|
                old(read).holds(content) && req.logical_offset + req.logical_length
                    <= content.len() && content.subrange(
                    req.logical_offset as int,
                    req.logical_offset + req.logical_length,
                ) == chunk@ ==> #[trigger] final(read).holds(content),
    {
        let record_end = req.logical_offset + req.logical_length as u64;
        let copy_end = if read.end < record_end {
            read.end
        } else {
            record_end
        };
        let ghost old_read = *read;
        let mut pos = read.cursor;
        while pos < copy_end
            invariant
                old_read.offset <= old_read.cursor <= pos <= copy_end <= old_read.end,
                copy_end <= record_end,
                record_end == req.logical_offset + req.logical_length,
                req.logical_offset <= old_read.cursor,
                chunk@.len() == req.logical_length,
                read.offset == old_read.offset,
                read.end == old_read.end,
                read.cursor == old_read.cursor,
                read.data@.len() == old_read.data@.len(),
                read.data@.len() == old_read.end - old_read.offset,
                forall|i: int|
                    0 <= i < old_read.cursor - old_read.offset ==> read.data@[i]
                        == old_read.data@[i],
                forall|i: int|
                    old_read.cursor - old_read.offset <= i < pos - old_read.offset
                        ==> read.data@[i] == chunk@[old_read.offset + i - req.logical_offset],
            decreases copy_end - pos,
        {
            let dlen = read.data.len();
            let target = (pos - read.offset) as usize;
            let source = (pos - req.logical_offset) as usize;
            read.data.set(target, chunk[source]);
            pos = pos + 1;
        }
        read.cursor = copy_end;
        proof {
            assert forall|content: Seq<u8>|
                old_read.holds(content) && req.logical_offset + req.logical_length
                    <= content.len() && content.subrange(
                    req.logical_offset as int,
                    req.logical_offset + req.logical_length,
                ) == chunk@ implies #[trigger] read.holds(content) by {
                assert forall|i: int| 0 <= i < read.cursor - read.offset implies #[trigger] read.data@[i]
                    == content[read.offset + i] by {
                    if i < old_read.cursor - old_read.offset {
                        assert(old_read.data@[i] == content[old_read.offset + i]);
                    } else {
                        let j = old_read.offset + i - req.logical_offset;
                        assert(content.subrange(
                            req.logical_offset as int,
                            req.logical_offset + req.logical_length,
                        )[j] == content[read.offset + i]);
                    }
                }
            }
        }
    }

    /// A read of `count` bytes at its offset, filled to its end, gives the
    /// bytes that `range_bytes` names: nothing at or past the object's end.
    pub proof fn lemma_read_gives_range(self, read: RangeRead, content: Seq<u8>, count: u32)
        requires
            content.len() == self.index.logical_size,
            read.holds(content),
            read.cursor == read.end,
            read.end == range_end(self.index.logical_size, read.offset, count),
        ensures
            read.data@ == range_bytes(content, self.index.logical_size, read.offset, count),
    {
        if read.offset >= self.index.logical_size {
            assert(read.data@ =~= Seq::<u8>::empty());
        } else {
            assert(read.data@ =~= content.subrange(read.offset as int, read.end as int));
        }
    }

    /// A read that is filled to its end holds exactly the requested bytes of
    /// the object.
    pub proof fn lemma_read_complete(read: RangeRead, content: Seq<u8>)
        requires
            read.holds(content),
            read.cursor == read.end,
            read.end <= content.len(),
        ensures
            read.data@ == content.subrange(read.offset as int, read.end as int),
    {
        assert(read.data@ =~= content.subrange(read.offset as int, read.end as int));
    }
}

/// The decoded bytes of the chunk record read last.
pub struct ChunkCache {
    pub record_offset: Option<u64>,
    pub data: Vec<u8>,
}

impl ChunkCache {
    /// A cache that holds nothing.
    pub fn new() -> (c: ChunkCache)
        ensures
            c.record_offset is None,
            c.data@.len() == 0,
    {
        ChunkCache { record_offset: None, data: Vec::new() }
    }

    /// Whether the cache holds the record at `record_offset`, so that it
    /// need not be read again.
    pub fn holds(&self, record_offset: u64) -> (b: bool)
        ensures
            b == (self.record_offset == Some(record_offset)),
    {
        match self.record_offset {
            Some(cached) => cached == record_offset,
            None => false,
        }
    }

    /// Keeps the decoded bytes of the record at `record_offset`.
    pub fn store(&mut self, record_offset: u64, data: Vec<u8>)
        ensures
            final(self).record_offset == Some(record_offset),
            final(self).data@ == data@,
    {
        self.record_offset = Some(record_offset);
        self.data = data;
    }
}

/// The bytes that a read of `count` bytes at `offset` gives of an object of
/// `size` bytes whose content is `content`: nothing at or past its end.
pub open spec fn range_bytes(content: Seq<u8>, size: u64, offset: u64, count: u32) -> Seq<u8> {
    if offset >= size {
        Seq::empty()
    } else {
        content.subrange(offset as int, range_end(size, offset, count))
    }
}

/// Where a read that follows a read of `count` bytes at `offset` starts
/// (saturating at the largest offset).
pub open spec fn following_offset(offset: u64, count: u32) -> u64 {
    if offset + count > u64::MAX {
        u64::MAX
    } else {
        (offset + count) as u64
    }
}

/// A record read for a chunk is accepted exactly when it is a data record
/// with the total length, logical offset and logical length that the request
/// names; a metadata record is refused as such, any other data record as a
/// mismatch at the requested offset.
pub proof fn lemma_check_record_accepts(req: ChunkRequest, record: Record)
    ensures
        spec_check_record(req, record) is Ok <==> (record is Data
            && record->Data_0.total_length == req.total_length
            && record->Data_0.logical_offset == req.logical_offset
            && record->Data_0.logical_length == req.logical_length),
        record is Metadata ==> spec_check_record(req, record) == Err::<(), RdrError>(
            RdrError::ChunkPointsToMetadata(req.record_offset),
        ),
        record is Data && spec_check_record(req, record) is Err ==> spec_check_record(req, record)
            == Err::<(), RdrError>(RdrError::ChunkIndexMismatch(req.record_offset)),
{
}

/// Two adjacent reads give together what one read of both lengths gives: `a`
/// bytes at `o`, then `b` bytes where the first read ends, equal `a + b` bytes
/// at `o`.
pub proof fn lemma_adjacent_reads(content: Seq<u8>, size: u64, o: u64, a: u32, b: u32)
    requires
        content.len() == size,
        a + b <= u32::MAX,
    ensures
        range_bytes(content, size, o, a) + range_bytes(content, size, following_offset(o, a), b)
            == range_bytes(content, size, o, (a + b) as u32),
{
    let o2 = following_offset(o, a);
    if o < size && o2 < size {
        assert(o2 == range_end(size, o, a));
    }
    assert(range_bytes(content, size, o, a) + range_bytes(content, size, o2, b)
        =~= range_bytes(content, size, o, (a + b) as u32));
}

/// `a` divided by `b`, rounded up (for the proofs of this module).
spec fn ceil_div_local(a: int, b: int) -> int {
    (a + b - 1) / b
}

} // verus!
