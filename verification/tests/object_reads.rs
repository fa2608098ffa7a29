use rdrkit::chunk_index::{ChunkIndex, ChunkIndexEntry};
use rdrkit::cli::{run, Command, Operation, OutputMode};
use rdrkit::error::RdrError;
use rdrkit::format::{DataRecord, Encoding, Record};
use rdrkit::nfs::{FileAttributes, FileKind, NfsError, EXPORT_FSID, RAW_FILE_ID, ROOT_FILE_ID};
use rdrkit::object::{object_file_name, ChunkCache, IndexedObject};
use rdrkit::scan::{ExtractAction, ExtractScan, InspectEvent, InspectScan, ObjectStats};
use rdrkit::session::HostPlatform;

/// An object of `size` bytes in chunks of `chunk` bytes, whose byte `i` is `i % 251`.
fn object(size: u64, chunk: u32) -> (IndexedObject, Vec<u8>) {
    let count = size.div_ceil(u64::from(chunk));
    let records = (0..count)
        .map(|i| ChunkIndexEntry {
            record_offset: 52 + 1_000 * i,
            total_length: 100,
        })
        .collect();
    let index = ChunkIndex {
        logical_size: size,
        chunk_size: chunk,
        records,
    };
    let content = (0..size).map(|i| (i % 251) as u8).collect();
    (IndexedObject::new(7, index), content)
}

fn read(object: &IndexedObject, content: &[u8], offset: u64, count: u32) -> (Vec<u8>, usize) {
    let mut cache = ChunkCache::new();
    let mut fetched = 0;
    let mut range = object.start_read(offset, count);
    while let Some(request) = object.next_chunk(&range) {
        if !cache.holds(request.record_offset) {
            let start = request.logical_offset as usize;
            let end = start + request.logical_length as usize;
            cache.store(request.record_offset, content[start..end].to_vec());
            fetched += 1;
        }
        object.fill_chunk(&mut range, &request, &cache.data);
    }
    (range.data, fetched)
}

#[test]
fn names_the_exported_file() {
    assert_eq!(object_file_name(0), "object-0.raw");
    assert_eq!(object_file_name(3), "object-3.raw");
    assert_eq!(object_file_name(u32::MAX), "object-4294967295.raw");
}

#[test]
fn reads_ranges_across_chunks() {
    let (object, content) = object(1_000, 256);
    for (offset, count) in [(0_u64, 1_000_u32), (10, 20), (250, 300), (999, 5), (600, 4_000)] {
        let (data, _) = read(&object, &content, offset, count);
        let end = (offset + u64::from(count)).min(1_000) as usize;
        assert_eq!(data, content[offset as usize..end].to_vec());
    }
}

#[test]
fn reads_past_the_end_or_of_nothing_are_empty() {
    let (object, content) = object(1_000, 256);
    assert_eq!(read(&object, &content, 1_000, 10).0, Vec::<u8>::new());
    assert_eq!(read(&object, &content, 5_000, 10).0, Vec::<u8>::new());
    assert_eq!(read(&object, &content, 10, 0).0, Vec::<u8>::new());
    assert_eq!(read(&object, &content, u64::MAX, u32::MAX).0, Vec::<u8>::new());
}

#[test]
fn a_chunk_is_fetched_once_per_read() {
    let (object, content) = object(1_000, 256);
    assert_eq!(read(&object, &content, 0, 1_000).1, 4);
    assert_eq!(read(&object, &content, 300, 10).1, 1);
}

#[test]
fn chunk_requests_carry_the_expected_geometry() {
    let (object, _) = object(1_000, 256);
    let range = object.start_read(900, 50);
    let request = object.next_chunk(&range).unwrap();
    assert_eq!(request.index, 3);
    assert_eq!(request.record_offset, 3_052);
    assert_eq!(request.logical_offset, 768);
    assert_eq!(request.logical_length, 232);
    let good = Record::Data(DataRecord {
        record_offset: 3_052,
        total_length: 100,
        payload_offset: 3_088,
        payload_length: 64,
        logical_offset: 768,
        logical_length: 232,
        encoding: Encoding::Zlib,
    });
    assert_eq!(object.check_record(&request, &good), Ok(()));
    let shifted = match good {
        Record::Data(d) => Record::Data(DataRecord { logical_offset: 512, ..d }),
        other => other,
    };
    assert_eq!(object.check_record(&request, &shifted), Err(RdrError::ChunkIndexMismatch(3_052)));
    let metadata = Record::Metadata { record_offset: 3_052, total_length: 100, flags: 8 };
    assert_eq!(
        object.check_record(&request, &metadata),
        Err(RdrError::ChunkPointsToMetadata(3_052))
    );
}

#[test]
fn export_attributes_and_lookups() {
    let (object, _) = object(1_000, 256);
    assert_eq!(
        object.attributes(RAW_FILE_ID),
        Ok(FileAttributes {
            kind: FileKind::Regular,
            mode: 0o444,
            nlink: 1,
            size: 1_000,
            used: 1_000,
            fsid: EXPORT_FSID,
            fileid: RAW_FILE_ID,
        })
    );
    assert_eq!(object.attributes(ROOT_FILE_ID).unwrap().kind, FileKind::Directory);
    assert_eq!(object.attributes(ROOT_FILE_ID).unwrap().mode, 0o555);
    assert_eq!(object.attributes(9), Err(NfsError::NoEntry));
    assert_eq!(object.lookup(ROOT_FILE_ID, b"object-7.raw"), Ok(RAW_FILE_ID));
    assert_eq!(object.lookup(ROOT_FILE_ID, b"object-8.raw"), Err(NfsError::NoEntry));
    assert_eq!(object.lookup(RAW_FILE_ID, b"object-7.raw"), Err(NfsError::NotDirectory));
    assert_eq!(object.read_target(ROOT_FILE_ID), Err(NfsError::IsDirectory));
    assert_eq!(object.read_target(5), Err(NfsError::NoEntry));
    assert_eq!(object.read_target(RAW_FILE_ID), Ok(()));
    assert!(object.read_reaches_end(990, 10));
    assert!(!object.read_reaches_end(980, 10));
    assert!(object.read_reaches_end(u64::MAX, 10));
}

#[test]
fn lists_the_exported_directory() {
    let (object, _) = object(1_000, 256);
    let entries = object.readdir(ROOT_FILE_ID, 0, 10).unwrap();
    assert_eq!(entries.len(), 1);
    assert_eq!(entries[0].fileid, RAW_FILE_ID);
    assert_eq!(entries[0].name, b"object-7.raw".to_vec());
    assert!(object.readdir(ROOT_FILE_ID, RAW_FILE_ID, 10).unwrap().is_empty());
    assert!(object.readdir(ROOT_FILE_ID, 0, 0).unwrap().is_empty());
    assert_eq!(object.readdir(RAW_FILE_ID, 0, 10), Err(NfsError::NotDirectory));
    let info = object.fs_info();
    assert_eq!(info.rtmax, 1024 * 1024);
    assert_eq!(info.root.fileid, ROOT_FILE_ID);
}

fn data(offset: u64, logical_offset: u64, length: u32, encoding: Encoding) -> Record {
    Record::Data(DataRecord {
        record_offset: offset,
        total_length: 100,
        payload_offset: offset + 36,
        payload_length: 64,
        logical_offset,
        logical_length: length,
        encoding,
    })
}

fn metadata(offset: u64, flags: u32) -> Record {
    Record::Metadata { record_offset: offset, total_length: 20, flags }
}

#[test]
fn inspection_cuts_objects_at_metadata_boundaries() {
    let mut scan = InspectScan::new();
    let mut events = Vec::new();
    let records = [
        |o| data(o, 0, 512, Encoding::Raw),
        |o| data(o, 512, 512, Encoding::Zlib),
        |o| metadata(o, 0x0804_0290),
        |o| data(o, 0, 100, Encoding::Zlib),
        |o| metadata(o, 0x1234),
    ];
    for make in records {
        assert!(scan.should_continue(10_000, None));
        events.push(scan.observe(&make(scan.offset)));
    }
    assert_eq!(scan.record_count, 5);
    assert_eq!(scan.offset, 52 + 100 + 100 + 20 + 100 + 20);
    assert_eq!(
        events,
        vec![
            InspectEvent::Quiet,
            InspectEvent::Quiet,
            InspectEvent::Quiet,
            InspectEvent::Finished(ObjectStats {
                index: 0,
                records: 2,
                logical_size: 1_024,
                stored_payload: 128,
                raw_records: 1,
                zlib_records: 1,
                complete: true,
            }),
            InspectEvent::Metadata { record_offset: 372, total_length: 20, flags: 0x1234 },
        ]
    );
    let last = scan.finish().unwrap();
    assert_eq!(last.index, 1);
    assert_eq!(last.records, 1);
    assert!(!last.complete);
    assert!(!scan.should_continue(10_000, Some(5)));
    assert!(!scan.should_continue(392, None));
}

#[test]
fn extraction_writes_only_the_requested_object() {
    let records = [
        |o| data(o, 0, 512, Encoding::Raw),
        |o| metadata(o, 2),
        |o| data(o, 0, 512, Encoding::Raw),
        |o| data(o, 512, 100, Encoding::Raw),
        |o| metadata(o, 2),
        |o| data(o, 0, 512, Encoding::Raw),
    ];
    let mut scan = ExtractScan::new(1);
    let mut actions = Vec::new();
    for make in records {
        let action = scan.observe(&make(scan.offset));
        actions.push(action);
        if action == ExtractAction::Stop {
            break;
        }
    }
    assert_eq!(
        actions,
        vec![
            ExtractAction::Skip,
            ExtractAction::Skip,
            ExtractAction::Write,
            ExtractAction::Write,
            ExtractAction::Skip,
            ExtractAction::Stop,
        ]
    );
    assert_eq!(scan.finish(), Ok(612));
    assert_eq!(scan.extracted_records, 2);

    let mut missing = ExtractScan::new(4);
    for make in records {
        missing.observe(&make(missing.offset));
    }
    assert_eq!(missing.finish(), Err(RdrError::ObjectNotFound(4)));
}

#[test]
fn run_plans_each_command() {
    assert_eq!(
        run(Command::Extract { image: "a.rdr".into(), object: 1, output: "o.raw".into(), force: false }, "linux"),
        Ok(Operation::Extract { image: "a.rdr".into(), object: 1, output: "o.raw".into(), mode: OutputMode::CreateNew })
    );
    assert_eq!(
        run(Command::Extract { image: "a.rdr".into(), object: 1, output: "o.raw".into(), force: true }, "linux"),
        Ok(Operation::Extract { image: "a.rdr".into(), object: 1, output: "o.raw".into(), mode: OutputMode::CreateOrTruncate })
    );
    assert_eq!(
        run(Command::Mount { image: "a.rdr".into(), object: None, json: false }, "macos"),
        Ok(Operation::Mount { image: "a.rdr".into(), object: None, json: false, platform: HostPlatform::MacOs })
    );
    assert_eq!(
        run(Command::Unmount { target: "s".into(), json: true }, "windows"),
        Err(RdrError::UnsupportedHost)
    );
    assert_eq!(
        run(Command::List { image: "a.rdr".into(), json: true }, "windows"),
        Ok(Operation::List { image: "a.rdr".into(), json: true })
    );
    assert_eq!(run(Command::Status { json: false }, "freebsd"), Ok(Operation::Status { json: false }));
}

#[test]
fn adjacent_reads_concatenate() {
    let (object, content) = object(1_000, 256);
    for (o, a, b) in [(0_u64, 100_u32, 300_u32), (200, 56, 900), (900, 50, 80), (990, 20, 5), (1_200, 3, 4), (0, 0, 1_000)] {
        let (first, _) = read(&object, &content, o, a);
        let (second, _) = read(&object, &content, o.saturating_add(u64::from(a)), b);
        let (whole, _) = read(&object, &content, o, a + b);
        let mut joined = first.clone();
        joined.extend_from_slice(&second);
        assert_eq!(joined, whole, "o={o} a={a} b={b}");
    }
    let (tail, fetched) = read(&object, &content, 2_000, 10);
    assert_eq!((tail, fetched), (Vec::new(), 0));
}
