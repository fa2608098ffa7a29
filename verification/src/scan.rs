use vstd::prelude::*;

use crate::error::RdrError;
use crate::format::{DataRecord, Encoding, Record, FILE_HEADER_SIZE};

verus! {

/// The file offset at which a record starts.
pub open spec fn record_offset(r: Record) -> u64 {
    match r {
        Record::Data(d) => d.record_offset,
        Record::Metadata { record_offset, .. } => record_offset,
    }
}

/// The total length of a record.
pub open spec fn record_length(r: Record) -> u32 {
    match r {
        Record::Data(d) => d.total_length,
        Record::Metadata { total_length, .. } => total_length,
    }
}

/// `r` was read at `offset` and is a record that a scan can step over: at
/// least a prefix long, its end addressable, and, for a data record, its
/// logical end addressable.
pub open spec fn steppable(r: Record, offset: u64) -> bool {
    &&& record_offset(r) == offset
    &&& record_length(r) >= 12
    &&& offset + record_length(r) <= u64::MAX
    &&& (r matches Record::Data(d) ==> d.payload_length <= d.total_length && d.logical_offset
        + d.logical_length <= u64::MAX)
}

/// The logical end of a data record.
pub open spec fn logical_end(d: DataRecord) -> int {
    d.logical_offset + d.logical_length
}

/// Metadata flags that a scan reports.
pub open spec fn unusual_metadata(flags: u32) -> bool {
    flags != 0x0804_0290 && flags != 0x0804_0293 && flags != 0x0000_0002
}

/// What a sequential scan has seen of one object.
#[derive(Clone, Copy, Debug, PartialEq, Eq)]
pub struct ObjectStats {
    pub index: u32,
    pub records: u64,
    pub logical_size: u64,
    pub stored_payload: u64,
    pub raw_records: u64,
    pub zlib_records: u64,
    pub complete: bool,
}

/// The statistics of an object of which nothing has been seen yet.
pub open spec fn fresh_stats(index: u32) -> ObjectStats {
    ObjectStats {
        index,
        records: 0,
        logical_size: 0,
        stored_payload: 0,
        raw_records: 0,
        zlib_records: 0,
        complete: false,
    }
}

/// The statistics once the data record `d` is counted too.
pub open spec fn stats_add(s: ObjectStats, d: DataRecord) -> ObjectStats {
    ObjectStats {
        records: (s.records + 1) as u64,
        logical_size: if logical_end(d) > s.logical_size {
            logical_end(d) as u64
        } else {
            s.logical_size
        },
        stored_payload: (s.stored_payload + d.payload_length) as u64,
        raw_records: if d.encoding == Encoding::Raw {
            (s.raw_records + 1) as u64
        } else {
            s.raw_records
        },
        zlib_records: if d.encoding == Encoding::Zlib {
            (s.zlib_records + 1) as u64
        } else {
            s.zlib_records
        },
        ..s
    }
}

/// What one step of the sequential scan asks to report.
/// A new object's statistics start from nothing; adding a data record counts
/// it once, as raw or as zlib according to its encoding, adds its stored
/// payload, and extends the logical size to the record's logical end.
pub proof fn lemma_stats_count_records(index: u32, s: ObjectStats, d: DataRecord)
    requires
        s.records < u64::MAX,
        s.raw_records < u64::MAX,
        s.zlib_records < u64::MAX,
        s.stored_payload + d.payload_length <= u64::MAX,
        d.logical_offset + d.logical_length <= u64::MAX,
    ensures
        fresh_stats(index).index == index && fresh_stats(index).records == 0
            && fresh_stats(index).raw_records == 0 && fresh_stats(index).zlib_records == 0
            && fresh_stats(index).stored_payload == 0 && fresh_stats(index).logical_size == 0
            && !fresh_stats(index).complete,
        stats_add(s, d).index == s.index,
        stats_add(s, d).complete == s.complete,
        stats_add(s, d).records == s.records + 1,
        stats_add(s, d).raw_records == s.raw_records + (if d.encoding == Encoding::Raw {
            1int
        } else {
            0int
        }),
        stats_add(s, d).zlib_records == s.zlib_records + (if d.encoding == Encoding::Zlib {
            1int
        } else {
            0int
        }),
        stats_add(s, d).stored_payload == s.stored_payload + d.payload_length,
        stats_add(s, d).logical_size == if s.logical_size < d.logical_offset + d.logical_length {
            d.logical_offset + d.logical_length
        } else {
            s.logical_size as int
        },
{
}

#[derive(Clone, Copy, Debug, PartialEq, Eq)]
pub enum InspectEvent {
    /// Nothing to report.
    Quiet,
    /// An object ended where a new one starts; its final statistics.
    Finished(ObjectStats),
    /// A metadata record with unexpected flags.
    Metadata { record_offset: u64, total_length: u32, flags: u32 },
}

/// The state of a sequential scan of record headers, which cuts the records
/// into objects: a data record at logical offset 0 that follows metadata
/// starts a new object.
#[derive(Clone, Copy, Debug, PartialEq, Eq)]
pub struct InspectScan {
    pub offset: u64,
    pub record_count: u64,
    pub current: Option<ObjectStats>,
    pub next_object_index: u32,
    pub boundary_seen: bool,
}

impl InspectScan {
    /// Objects are numbered from 0 in the order they start; the counters of
    /// the current object never exceed what the scan has passed over.
    pub open spec fn wf(self) -> bool {
        &&& FILE_HEADER_SIZE + 12 * self.record_count <= self.offset
        &&& match self.current {
            None => self.next_object_index == 0,
            Some(s) => {
                &&& s.index + 1 == self.next_object_index
                &&& s.records <= self.record_count
                &&& s.raw_records <= s.records
                &&& s.zlib_records <= s.records
                &&& s.stored_payload <= self.offset
            },
        }
    }

    /// Whether the data record `d` starts a new object.
    pub open spec fn spec_starts_new(self, d: DataRecord) -> bool {
        match self.current {
            None => true,
            Some(s) => d.logical_offset == 0 && s.records > 0 && self.boundary_seen,
        }
    }

    /// A scan that starts at the first record after the file header.
    pub fn new() -> (scan: InspectScan)
        ensures
            scan.wf(),
            scan.offset == FILE_HEADER_SIZE,
            scan.record_count == 0,
            scan.current is None,
            scan.next_object_index == 0,
            !scan.boundary_seen,
    {
        InspectScan {
            offset: 52,
            record_count: 0,
            current: None,
            next_object_index: 0,
            boundary_seen: false,
        }
    }

    /// Whether the scan reads another record: it has not reached the end of
    /// the file, nor the record limit when there is one.
    pub fn should_continue(&self, file_size: u64, max_records: Option<u64>) -> (b: bool)
        ensures
            b == (self.offset < file_size && !(max_records matches Some(limit)
                && self.record_count >= limit)),
    {
        if self.offset >= file_size {
            return false;
        }
        match max_records {
            Some(limit) => self.record_count < limit,
            None => true,
        }
    }

    /// Whether the data record `d` starts a new object.
    pub fn starts_new(&self, d: &DataRecord) -> (b: bool)
        ensures
            b == self.spec_starts_new(*d),
    {
        match &self.current {
            None => true,
            Some(s) => d.logical_offset == 0 && s.records > 0 && self.boundary_seen,
        }
    }

    /// Counts the record read at the scan's offset and steps past it.
    pub fn observe(&mut self, record: &Record) -> (event: InspectEvent)
        requires
            old(self).wf(),
            steppable(*record, old(self).offset),
            *record matches Record::Data(d) ==> old(self).spec_starts_new(d)
                ==> old(self).next_object_index < u32::MAX,
        ensures
            final(self).wf(),
            final(self).offset == old(self).offset + record_length(*record),
            final(self).record_count == old(self).record_count + 1,
            match *record {
                Record::Metadata { record_offset, total_length, flags } => {
                    &&& final(self).boundary_seen
                    &&& final(self).current == old(self).current
                    &&& final(self).next_object_index == old(self).next_object_index
                    &&& event == if unusual_metadata(flags) {
                        InspectEvent::Metadata { record_offset, total_length, flags }
                    } else {
                        InspectEvent::Quiet
                    }
                },
                Record::Data(d) => {
                    &&& !final(self).boundary_seen
                    &&& if old(self).spec_starts_new(d) {
                        &&& final(self).next_object_index == old(self).next_object_index + 1
                        &&& final(self).current == Some(
                            stats_add(fresh_stats(old(self).next_object_index), d),
                        )
                        &&& event == match old(self).current {
                            Some(s) => InspectEvent::Finished(ObjectStats { complete: true, ..s }),
                            None => InspectEvent::Quiet,
                        }
                    } else {
                        &&& final(self).next_object_index == old(self).next_object_index
                        &&& final(self).current == Some(stats_add(old(self).current->Some_0, d))
                        &&& event == InspectEvent::Quiet
                    }
                },
            },
            match *record {
                Record::Metadata { .. } => true,
                Record::Data(d) => {
                let fresh = old(self).current is None || (d.logical_offset == 0
                    && old(self).current->Some_0.records > 0 && old(self).boundary_seen);
                let before = old(self).current->Some_0;
                &&& final(self).current is Some
                &&& final(self).current->Some_0.index == if fresh {
                    old(self).next_object_index
                } else {
                    before.index
                }
                &&& final(self).current->Some_0.records == (if fresh {
                    0
                } else {
                    before.records as int
                }) + 1
                &&& final(self).current->Some_0.raw_records == (if fresh {
                    0
                } else {
                    before.raw_records as int
                }) + (if d.encoding == Encoding::Raw {
                    1int
                } else {
                    0int
                })
                &&& final(self).current->Some_0.zlib_records == (if fresh {
                    0
                } else {
                    before.zlib_records as int
                }) + (if d.encoding == Encoding::Zlib {
                    1int
                } else {
                    0int
                })
                &&& final(self).current->Some_0.stored_payload == (if fresh {
                    0
                } else {
                    before.stored_payload as int
                }) + d.payload_length
                &&& final(self).current->Some_0.logical_size == if fresh || before.logical_size
                    < d.logical_offset + d.logical_length {
                    d.logical_offset + d.logical_length
                } else {
                    before.logical_size as int
                }
                &&& final(self).current->Some_0.complete == (!fresh && before.complete)
                },
            },
    {
        match record {
            Record::Metadata { record_offset, total_length, flags } => {
                let flags = *flags;
                let event = if flags != 0x0804_0290 && flags != 0x0804_0293 && flags != 0x0000_0002 {
                    InspectEvent::Metadata {
                        record_offset: *record_offset,
                        total_length: *total_length,
                        flags,
                    }
                } else {
                    InspectEvent::Quiet
                };
                self.boundary_seen = true;
                self.offset = self.offset + *total_length as u64;
                self.record_count = self.record_count + 1;
                event
            },
            Record::Data(d) => {
                let starts = self.starts_new(d);
                let mut event = InspectEvent::Quiet;
                let mut stats = match self.current {
                    Some(s) => s,
                    None => ObjectStats {
                        index: 0,
                        records: 0,
                        logical_size: 0,
                        stored_payload: 0,
                        raw_records: 0,
                        zlib_records: 0,
                        complete: false,
                    },
                };
                if starts {
                    if let Some(finished) = self.current {
                        event = InspectEvent::Finished(ObjectStats { complete: true, ..finished });
                    }
                    stats = ObjectStats {
                        index: self.next_object_index,
                        records: 0,
                        logical_size: 0,
                        stored_payload: 0,
                        raw_records: 0,
                        zlib_records: 0,
                        complete: false,
                    };
                    self.next_object_index = self.next_object_index + 1;
                }
                stats.records = stats.records + 1;
                let end = d.logical_offset + d.logical_length as u64;
                if end > stats.logical_size {
                    stats.logical_size = end;
                }
                stats.stored_payload = stats.stored_payload + d.payload_length as u64;
                match d.encoding {
                    Encoding::Raw => stats.raw_records = stats.raw_records + 1,
                    Encoding::Zlib => stats.zlib_records = stats.zlib_records + 1,
                }
                self.current = Some(stats);
                self.boundary_seen = false;
                self.offset = self.offset + d.total_length as u64;
                self.record_count = self.record_count + 1;
                event
            },
        }
    }

    /// The statistics of the object still open when the scan ends; it is
    /// reported as it stands, not marked complete.
    pub fn finish(&self) -> (last: Option<ObjectStats>)
        ensures
            last == self.current,
    {
        self.current
    }
}

/// What the extraction does with the record it was shown.
#[derive(Clone, Copy, Debug, PartialEq, Eq)]
pub enum ExtractAction {
    /// The record belongs to another object, or is metadata.
    Skip,
    /// The record belongs to the object: write its logical bytes.
    Write,
    /// The object has ended: stop reading.
    Stop,
}

/// The state of an extraction of object `object` by a sequential scan.
#[derive(Clone, Copy, Debug, PartialEq, Eq)]
pub struct ExtractScan {
    pub object: u32,
    pub offset: u64,
    pub current_index: Option<u32>,
    pub next_index: u32,
    pub boundary_seen: bool,
    pub extracted_records: u64,
    pub logical_size: u64,
}

impl ExtractScan {
    /// Objects are numbered from 0 in the order they start, and the records
    /// written so far fit in what the scan has passed over.
    pub open spec fn wf(self) -> bool {
        &&& FILE_HEADER_SIZE + 12 * self.extracted_records <= self.offset
        &&& match self.current_index {
            None => self.next_index == 0 && self.extracted_records == 0,
            Some(i) => i + 1 == self.next_index,
        }
    }

    /// Whether the data record `d` starts a new object.
    pub open spec fn spec_starts_new(self, d: DataRecord) -> bool {
        self.current_index is None || (d.logical_offset == 0 && self.boundary_seen)
    }

    /// An extraction of object `object` that starts after the file header.
    pub fn new(object: u32) -> (scan: ExtractScan)
        ensures
            scan.wf(),
            scan.object == object,
            scan.offset == FILE_HEADER_SIZE,
            scan.current_index is None,
            scan.extracted_records == 0,
            scan.logical_size == 0,
            !scan.boundary_seen,
    {
        ExtractScan {
            object,
            offset: 52,
            current_index: None,
            next_index: 0,
            boundary_seen: false,
            extracted_records: 0,
            logical_size: 0,
        }
    }

    /// Whether the data record `d` starts a new object.
    pub fn starts_new(&self, d: &DataRecord) -> (b: bool)
        ensures
            b == self.spec_starts_new(*d),
    {
        self.current_index.is_none() || (d.logical_offset == 0 && self.boundary_seen)
    }

    /// Decides on the record read at the scan's offset and steps past it,
    /// unless the object has ended.
    pub fn observe(&mut self, record: &Record) -> (action: ExtractAction)
        requires
            old(self).wf(),
            steppable(*record, old(self).offset),
            *record matches Record::Data(d) ==> old(self).spec_starts_new(d)
                ==> old(self).next_index < u32::MAX,
        ensures
            final(self).wf(),
            final(self).object == old(self).object,
            match *record {
                Record::Metadata { total_length, .. } => {
                    &&& action == ExtractAction::Skip
                    &&& *final(self) == (ExtractScan {
                        offset: (old(self).offset + total_length) as u64,
                        boundary_seen: true,
                        ..*old(self)
                    })
                },
                Record::Data(d) => {
                    let starts = old(self).current_index is None || (d.logical_offset == 0
                        && old(self).boundary_seen);
                    let index = if starts {
                        Some(old(self).next_index)
                    } else {
                        old(self).current_index
                    };
                    if starts && old(self).current_index == Some(old(self).object) {
                        action == ExtractAction::Stop && *final(self) == *old(self)
                    } else {
                        &&& final(self).current_index == index
                        &&& final(self).next_index == if starts {
                            old(self).next_index + 1
                        } else {
                            old(self).next_index as int
                        }
                        &&& !final(self).boundary_seen
                        &&& final(self).offset == old(self).offset + d.total_length
                        &&& if index == Some(old(self).object) {
                            &&& action == ExtractAction::Write
                            &&& final(self).extracted_records == old(self).extracted_records + 1
                            &&& final(self).logical_size == if logical_end(d)
                                > old(self).logical_size {
                                logical_end(d)
                            } else {
                                old(self).logical_size as int
                            }
                        } else {
                            &&& action == ExtractAction::Skip
                            &&& final(self).extracted_records == old(self).extracted_records
                            &&& final(self).logical_size == old(self).logical_size
                        }
                    }
                },
            },
    {
        match record {
            Record::Metadata { total_length, .. } => {
                self.boundary_seen = true;
                self.offset = self.offset + *total_length as u64;
                ExtractAction::Skip
            },
            Record::Data(d) => {
                if self.starts_new(d) {
                    if self.current_index == Some(self.object) {
                        return ExtractAction::Stop;
                    }
                    self.current_index = Some(self.next_index);
                    self.next_index = self.next_index + 1;
                }
                let action = if self.current_index == Some(self.object) {
                    self.extracted_records = self.extracted_records + 1;
                    let end = d.logical_offset + d.logical_length as u64;
                    if end > self.logical_size {
                        self.logical_size = end;
                    }
                    ExtractAction::Write
                } else {
                    ExtractAction::Skip
                };
                self.boundary_seen = false;
                self.offset = self.offset + d.total_length as u64;
                action
            },
        }
    }

    /// The logical size of the extracted object, or a refusal when the scan
    /// never reached the object or wrote none of its records.
    pub fn finish(&self) -> (r: Result<u64, RdrError>)
        ensures
            r == if (self.current_index matches Some(i) && i >= self.object)
                && self.extracted_records > 0 {
                Ok::<u64, RdrError>(self.logical_size)
            } else {
                Err(RdrError::ObjectNotFound(self.object))
            },
    {
        let reached = match self.current_index {
            Some(i) => i >= self.object,
            None => false,
        };
        if reached && self.extracted_records > 0 {
            Ok(self.logical_size)
        } else {
            Err(RdrError::ObjectNotFound(self.object))
        }
    }
}

} // verus!
