use vstd::prelude::*;
use vstd::seq_lib::{group_to_multiset_ensures, to_multiset_build, to_multiset_insert};

use crate::chunk_index::{ChunkIndex, ChunkIndexView};
use crate::directory::ArchiveDirectoryEntry;
use crate::error::RdrError;
use crate::format::COMPACT_INDEX_FRAME;

verus! {

/// What the listing of an archive says of one indexed object.
#[derive(Clone, Copy, Debug, PartialEq, Eq)]
pub struct ObjectInfo {
    pub id: u32,
    pub logical_size: u64,
    pub chunks: usize,
    pub chunk_size: u32,
}

/// What the listing says of an archive: its size and its indexed objects.
#[derive(Clone, Debug, PartialEq, Eq)]
pub struct ImageInfo {
    pub physical_size: u64,
    pub objects: Vec<ObjectInfo>,
}

/// The directory entry names a compact chunk index.
pub open spec fn is_compact_index(e: ArchiveDirectoryEntry) -> bool {
    e.frame_type == COMPACT_INDEX_FRAME
}

/// The compact chunk-index entries of a directory, in directory order.
pub open spec fn compact_indexes(s: Seq<ArchiveDirectoryEntry>) -> Seq<ArchiveDirectoryEntry> {
    s.filter(|e: ArchiveDirectoryEntry| is_compact_index(e))
}

/// The entries are ordered by object id.
pub open spec fn sorted_by_object(s: Seq<ArchiveDirectoryEntry>) -> bool {
    forall|i: int, j: int| 0 <= i < j < s.len() ==> #[trigger] s[i].object_id <= #[trigger] s[j].object_id
}

/// The compact chunk indexes of the directory, ordered by object id; refused
/// when there is none.
pub fn select_index_frames(entries: &Vec<ArchiveDirectoryEntry>) -> (r: Result<
    Vec<ArchiveDirectoryEntry>,
    RdrError,
>)
    ensures
        r is Err <==> compact_indexes(entries@).len() == 0,
        r is Err ==> r == Err::<Vec<ArchiveDirectoryEntry>, RdrError>(RdrError::NoCompactIndexes),
        r matches Ok(v) ==> v@.to_multiset() == compact_indexes(entries@).to_multiset()
            && sorted_by_object(v@),
{
    broadcast use group_to_multiset_ensures;

    let mut sorted: Vec<ArchiveDirectoryEntry> = Vec::new();
    let mut k: usize = 0;
    while k < entries.len()
        invariant
            k <= entries@.len(),
            sorted@.to_multiset() == compact_indexes(entries@.take(k as int)).to_multiset(),
            sorted@.len() == compact_indexes(entries@.take(k as int)).len(),
            sorted_by_object(sorted@),
        decreases entries@.len() - k,
    {
        let e = entries[k];
        proof {
            let s1 = entries@.take(k + 1);
            assert(s1.drop_last() =~= entries@.take(k as int));
            assert(s1.last() == e);
            assert(s1.len() > 0);
            reveal_with_fuel(Seq::filter, 1);
            assert(compact_indexes(s1) == if is_compact_index(e) {
                compact_indexes(entries@.take(k as int)).push(e)
            } else {
                compact_indexes(entries@.take(k as int))
            });
        }
        if e.frame_type == COMPACT_INDEX_FRAME {
            let mut pos: usize = sorted.len();
            while pos > 0 && sorted[pos - 1].object_id > e.object_id
                invariant
                    pos <= sorted@.len(),
                    forall|i: int| pos <= i < sorted@.len() ==> sorted@[i].object_id > e.object_id,
                decreases pos,
            {
                pos = pos - 1;
            }
            let ghost before = sorted@;
            sorted.insert(pos, e);
            proof {
                to_multiset_insert(before, pos as int, e);
                assert forall|i: int, j: int| 0 <= i < j < sorted@.len() implies #[trigger] sorted@[i].object_id
                    <= #[trigger] sorted@[j].object_id by {
                    if i < pos && j == pos {
                        assert(before[i].object_id <= before[pos - 1].object_id || i == pos - 1);
                    } else if i < pos && j > pos {
                        assert(before[i].object_id <= before[j - 1].object_id);
                    } else if i == pos && j > pos {
                        assert(before[j - 1].object_id > e.object_id);
                    } else if i > pos {
                        assert(before[i - 1].object_id <= before[j - 1].object_id);
                    }
                }
                let c0 = compact_indexes(entries@.take(k as int));
                to_multiset_build(c0, e);
                assert(compact_indexes(entries@.take(k + 1)) == c0.push(e));
            }
        } else {
            assert(compact_indexes(entries@.take(k + 1)) == compact_indexes(entries@.take(k as int)));
        }
        k = k + 1;
    }
    assert(entries@.take(entries@.len() as int) =~= entries@);
    if sorted.len() == 0 {
        Err(RdrError::NoCompactIndexes)
    } else {
        Ok(sorted)
    }
}

/// The first compact chunk index of the directory that belongs to object `object`.
pub fn find_index_frame(entries: &Vec<ArchiveDirectoryEntry>, object: u32) -> (r: Result<
    ArchiveDirectoryEntry,
    RdrError,
>)
    ensures
        match r {
            Ok(e) => exists|i: int|
                0 <= i < entries@.len() && entries@[i] == e && e.object_id == object
                    && is_compact_index(e) && forall|j: int|
                    0 <= j < i ==> !(#[trigger] entries@[j].object_id == object && is_compact_index(
                        entries@[j],
                    )),
            Err(err) => err == RdrError::MissingCompactIndex(object) && forall|j: int|
                0 <= j < entries@.len() ==> !(#[trigger] entries@[j].object_id == object
                    && is_compact_index(entries@[j])),
        },
{
    let mut k: usize = 0;
    while k < entries.len()
        invariant
            k <= entries@.len(),
            forall|j: int|
                0 <= j < k ==> !(#[trigger] entries@[j].object_id == object && is_compact_index(
                    entries@[j],
                )),
        decreases entries@.len() - k,
    {
        if entries[k].object_id == object && entries[k].frame_type == COMPACT_INDEX_FRAME {
            return Ok(entries[k]);
        }
        k = k + 1;
    }
    Err(RdrError::MissingCompactIndex(object))
}

/// What the listing says of the object whose index frame is `frame`.
pub fn object_info(frame: &ArchiveDirectoryEntry, index: &ChunkIndex) -> (info: ObjectInfo)
    ensures
        info == (ObjectInfo {
            id: frame.object_id,
            logical_size: index.logical_size,
            chunks: index.records@.len() as usize,
            chunk_size: index.chunk_size,
        }),
{
    ObjectInfo {
        id: frame.object_id,
        logical_size: index.logical_size,
        chunks: index.records.len(),
        chunk_size: index.chunk_size,
    }
}

/// What the listing says of an archive of `physical_size` bytes whose
/// chunk-index frames are `frames`, once the index of each has been read:
/// one object per frame, in the frames' order.
pub fn image_info(
    physical_size: u64,
    frames: &Vec<ArchiveDirectoryEntry>,
    indexes: &Vec<ChunkIndex>,
) -> (info: ImageInfo)
    requires
        frames@.len() == indexes@.len(),
    ensures
        info.physical_size == physical_size,
        info.objects@.len() == frames@.len(),
        forall|i: int|
            0 <= i < frames@.len() ==> #[trigger] info.objects@[i] == (ObjectInfo {
                id: frames@[i].object_id,
                logical_size: indexes@[i].logical_size,
                chunks: indexes@[i].records@.len() as usize,
                chunk_size: indexes@[i].chunk_size,
            }),
{
    let mut objects: Vec<ObjectInfo> = Vec::new();
    let mut k: usize = 0;
    while k < frames.len()
        invariant
            frames@.len() == indexes@.len(),
            k <= frames@.len(),
            objects@.len() == k,
            forall|i: int|
                0 <= i < k ==> #[trigger] objects@[i] == (ObjectInfo {
                    id: frames@[i].object_id,
                    logical_size: indexes@[i].logical_size,
                    chunks: indexes@[i].records@.len() as usize,
                    chunk_size: indexes@[i].chunk_size,
                }),
        decreases frames@.len() - k,
    {
        objects.push(object_info(&frames[k], &indexes[k]));
        k = k + 1;
    }
    ImageInfo { physical_size, objects }
}

/// The listing keeps exactly the directory entries of frame type 0x90,
/// each as often as the directory holds it.
pub proof fn lemma_compact_indexes_kept(s: Seq<ArchiveDirectoryEntry>)
    ensures
        forall|e: ArchiveDirectoryEntry|
            #![trigger compact_indexes(s).to_multiset().count(e)]
            compact_indexes(s).to_multiset().count(e) == if e.frame_type == 0x90 {
                s.to_multiset().count(e)
            } else {
                0
            },
    decreases s.len(),
{
    broadcast use group_to_multiset_ensures;

    if s.len() > 0 {
        let p = s.drop_last();
        let l = s.last();
        lemma_compact_indexes_kept(p);
        assert(s =~= p.push(l));
        p.lemma_filter_push(l, |e: ArchiveDirectoryEntry| is_compact_index(e));
        assert(compact_indexes(s) == if is_compact_index(l) {
            compact_indexes(p).push(l)
        } else {
            compact_indexes(p)
        });
        to_multiset_build(p, l);
        to_multiset_build(compact_indexes(p), l);
        assert forall|e: ArchiveDirectoryEntry|
            #![trigger compact_indexes(s).to_multiset().count(e)]
            compact_indexes(s).to_multiset().count(e) == if e.frame_type == 0x90 {
                s.to_multiset().count(e)
            } else {
                0
            } by {
            assert(compact_indexes(p).to_multiset().count(e) == if e.frame_type == 0x90 {
                p.to_multiset().count(e)
            } else {
                0
            });
        }
    } else {
        assert(compact_indexes(s) =~= Seq::<ArchiveDirectoryEntry>::empty());
    }
}

} // verus!
