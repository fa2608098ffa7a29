use std::io::Write;

use flate2::write::ZlibEncoder;
use flate2::Compression;

use rdrkit::bytes::{le_u32, le_u64};
use rdrkit::chunk_index::{decode_index_frame, parse_chunk_index, sample_indices, ChunkIndexEntry};
use rdrkit::directory::{
    footer_window, locate_archive_directory, parse_archive_directory, ArchiveDirectoryEntry,
    DirectoryLocation,
};
use rdrkit::error::RdrError;
use rdrkit::format::{
    check_declared_size, parse_file_header, parse_record, parse_record_prefix, DataRecord,
    Encoding, FileHeader, Record, ARCHIVE_DIRECTORY_FLAGS, DIRECTORY_POINTER_FLAGS,
    FILE_HEADER_SIZE, MAGIC, RAW_CHUNK_INDEX_FLAGS, RAW_DATA_FLAGS, ZLIB_CHUNK_INDEX_FLAGS,
    ZLIB_DATA_FLAGS,
};
use rdrkit::image::{find_index_frame, image_info, object_info, select_index_frames, ImageInfo, ObjectInfo};
use rdrkit::inflate::decode_payload;

fn put_u32(buf: &mut [u8], offset: usize, value: u32) {
    buf[offset..offset + 4].copy_from_slice(&value.to_le_bytes());
}

fn put_u64(buf: &mut [u8], offset: usize, value: u64) {
    buf[offset..offset + 8].copy_from_slice(&value.to_le_bytes());
}

fn compress(bytes: &[u8]) -> Vec<u8> {
    let mut encoder = ZlibEncoder::new(Vec::new(), Compression::default());
    encoder.write_all(bytes).unwrap();
    encoder.finish().unwrap()
}

fn read_record_at(file: &[u8], offset: u64) -> Result<Record, RdrError> {
    let start = offset as usize;
    let prefix = parse_record_prefix(&file[start..start + 12], offset, file.len() as u64)?;
    let header = &file[start..start + prefix.header_size()];
    parse_record(header, offset, file.len() as u64)
}

#[test]
fn reads_little_endian_fields() {
    let bytes = [0x33, 0xda, 0x54, 0xd7, 1, 2, 3, 4, 5, 6, 7, 8];
    assert_eq!(le_u32(&bytes, 0), MAGIC);
    assert_eq!(le_u64(&bytes, 4), 0x0807_0605_0403_0201);
}

#[test]
fn reads_footer_directed_archive_directory() {
    let file_size = 64 * 1024_u64;
    let directory_offset = 512_u64;
    let directory_length = 32_u32;
    let pointer_offset = file_size - 128;
    let mut file = vec![0_u8; file_size as usize];

    let d = directory_offset as usize;
    put_u32(&mut file, d, MAGIC);
    put_u32(&mut file, d + 4, directory_length);
    put_u32(&mut file, d + 8, ARCHIVE_DIRECTORY_FLAGS);
    put_u64(&mut file, d + 12, 1_024_u64 - FILE_HEADER_SIZE);
    put_u32(&mut file, d + 20, 548);
    put_u32(&mut file, d + 24, 3);
    put_u32(&mut file, d + 28, 0x90);

    let p = pointer_offset as usize;
    put_u32(&mut file, p, MAGIC);
    put_u32(&mut file, p + 4, 24);
    put_u32(&mut file, p + 8, DIRECTORY_POINTER_FLAGS);
    put_u64(&mut file, p + 12, directory_offset - FILE_HEADER_SIZE);
    put_u32(&mut file, p + 20, directory_length);

    let (tail_offset, tail_len) = footer_window(file_size);
    assert_eq!((tail_offset, tail_len), (0, 65536));
    let tail = &file[tail_offset as usize..tail_offset as usize + tail_len];
    let location = locate_archive_directory(tail, file_size).unwrap();
    assert_eq!(
        location,
        DirectoryLocation {
            offset: directory_offset,
            length: directory_length
        }
    );
    let start = location.offset as usize;
    let bytes = &file[start..start + location.length as usize];
    let entries = parse_archive_directory(bytes, file_size).unwrap();

    assert_eq!(entries.len(), 1);
    assert_eq!(entries[0].record_offset, 1_024);
    assert_eq!(entries[0].total_length, 548);
    assert_eq!(entries[0].object_id, 3);
    assert_eq!(entries[0].frame_type, 0x90);
}

#[test]
fn footer_window_of_large_and_small_files() {
    assert_eq!(footer_window(1_000_000), (1_000_000 - 65536, 65536));
    assert_eq!(footer_window(4_096), (0, 4_096));
}

#[test]
fn directory_pointer_search_prefers_the_last_pointer() {
    let mut tail = vec![0_u8; 200];
    for (at, target) in [(10_usize, 100_u64), (150, 300)] {
        put_u32(&mut tail, at, MAGIC);
        put_u32(&mut tail, at + 4, 24);
        put_u32(&mut tail, at + 8, DIRECTORY_POINTER_FLAGS);
        put_u64(&mut tail, at + 12, target);
        put_u32(&mut tail, at + 20, 32);
    }
    let location = locate_archive_directory(&tail, 10_000).unwrap();
    assert_eq!(location.offset, 352);
    assert_eq!(location.length, 32);
}

#[test]
fn directory_pointer_errors() {
    assert_eq!(
        locate_archive_directory(&[0_u8; 100], 1_000),
        Err(RdrError::DirectoryPointerNotFound)
    );
    assert_eq!(
        locate_archive_directory(&[0_u8; 10], 1_000),
        Err(RdrError::DirectoryPointerNotFound)
    );
    let mut tail = vec![0_u8; 24];
    put_u32(&mut tail, 0, MAGIC);
    put_u32(&mut tail, 4, 24);
    put_u32(&mut tail, 8, DIRECTORY_POINTER_FLAGS);
    put_u64(&mut tail, 12, u64::MAX - 10);
    put_u32(&mut tail, 20, 32);
    assert_eq!(
        locate_archive_directory(&tail, 1_000),
        Err(RdrError::DirectoryOffsetOverflow)
    );
    put_u64(&mut tail, 12, 0);
    put_u32(&mut tail, 20, 11);
    assert_eq!(
        locate_archive_directory(&tail, 1_000),
        Err(RdrError::InvalidDirectoryLength)
    );
    put_u32(&mut tail, 20, 1_000);
    assert_eq!(
        locate_archive_directory(&tail, 1_000),
        Err(RdrError::DirectoryPastEof)
    );
}

#[test]
fn archive_directory_errors() {
    let mut bytes = vec![0_u8; 32];
    assert_eq!(parse_archive_directory(&bytes, 10_000), Err(RdrError::BadDirectoryMagic));
    put_u32(&mut bytes, 0, MAGIC);
    assert_eq!(parse_archive_directory(&bytes, 10_000), Err(RdrError::DirectoryLengthMismatch));
    put_u32(&mut bytes, 4, 32);
    assert_eq!(parse_archive_directory(&bytes, 10_000), Err(RdrError::UnsupportedDirectoryRecord));
    put_u32(&mut bytes, 8, ARCHIVE_DIRECTORY_FLAGS);
    put_u64(&mut bytes, 12, u64::MAX);
    assert_eq!(
        parse_archive_directory(&bytes, 10_000),
        Err(RdrError::DirectoryEntryOffsetOverflow)
    );
    put_u64(&mut bytes, 12, 100);
    put_u32(&mut bytes, 20, 11);
    assert_eq!(parse_archive_directory(&bytes, 10_000), Err(RdrError::DirectoryEntryOutside));
    put_u32(&mut bytes, 20, 10_000);
    assert_eq!(parse_archive_directory(&bytes, 10_000), Err(RdrError::DirectoryEntryOutside));
    let mut odd = vec![0_u8; 33];
    put_u32(&mut odd, 0, MAGIC);
    put_u32(&mut odd, 4, 33);
    put_u32(&mut odd, 8, ARCHIVE_DIRECTORY_FLAGS);
    assert_eq!(parse_archive_directory(&odd, 10_000), Err(RdrError::MalformedDirectory));
    let mut empty = vec![0_u8; 12];
    put_u32(&mut empty, 0, MAGIC);
    put_u32(&mut empty, 4, 12);
    put_u32(&mut empty, 8, ARCHIVE_DIRECTORY_FLAGS);
    assert_eq!(parse_archive_directory(&empty, 10_000), Ok(Vec::new()));
}

fn raw_data_record(logical_offset: u64, payload: &[u8]) -> Vec<u8> {
    let total = 36 + payload.len();
    let mut record = vec![0_u8; total];
    put_u32(&mut record, 0, MAGIC);
    put_u32(&mut record, 4, total as u32);
    put_u32(&mut record, 8, RAW_DATA_FLAGS);
    put_u64(&mut record, 20, logical_offset);
    put_u32(&mut record, 28, payload.len() as u32);
    record[36..].copy_from_slice(payload);
    record
}

#[test]
fn reads_and_verifies_compact_chunk_index() {
    let file_size = 4_096_u64;
    let index_offset = 1_024_u64;
    let mut file = vec![0_u8; file_size as usize];

    let logical_size = 512_u64;
    let data_length = 36_u32 + logical_size as u32;
    let data = raw_data_record(0, &vec![0xa5_u8; logical_size as usize]);
    file[52..52 + data.len()].copy_from_slice(&data);

    let mut decoded = vec![0_u8; 40];
    put_u64(&mut decoded, 0, logical_size);
    put_u64(&mut decoded, 16, logical_size);
    put_u32(&mut decoded, 24, 1);
    put_u64(&mut decoded, 28, 0);
    put_u32(&mut decoded, 36, data_length);
    let compressed = compress(&decoded);

    let index_length = 24_u32 + compressed.len() as u32;
    let i = index_offset as usize;
    put_u32(&mut file, i, MAGIC);
    put_u32(&mut file, i + 4, index_length);
    put_u32(&mut file, i + 8, ZLIB_CHUNK_INDEX_FLAGS);
    put_u32(&mut file, i + 12, decoded.len() as u32);
    put_u32(&mut file, i + 16, 0);
    file[i + 24..i + 24 + compressed.len()].copy_from_slice(&compressed);

    let frame = ArchiveDirectoryEntry {
        record_offset: index_offset,
        total_length: index_length,
        object_id: 0,
        frame_type: 0x90,
    };
    let frame_bytes = &file[i..i + index_length as usize];
    let payload = decode_index_frame(&frame, frame_bytes, 0).unwrap();
    assert_eq!(payload, decoded);
    let index = parse_chunk_index(&payload, file_size).unwrap();
    for sample in sample_indices(index.records.len()) {
        let record = read_record_at(&file, index.records[sample].record_offset).unwrap();
        index.check_sample(sample, &record).unwrap();
    }

    assert_eq!(index.logical_size, logical_size);
    assert_eq!(index.chunk_size, logical_size as u32);
    assert_eq!(index.records.len(), 1);
    assert_eq!(index.records[0].record_offset, FILE_HEADER_SIZE);
    assert_eq!(index.records[0].total_length, data_length);
}

fn index_payload(logical: u64, chunk: u64, entries: &[(u64, u32)]) -> Vec<u8> {
    let mut decoded = vec![0_u8; 28 + 12 * entries.len()];
    put_u64(&mut decoded, 0, logical);
    put_u64(&mut decoded, 16, chunk);
    put_u32(&mut decoded, 24, entries.len() as u32);
    for (k, (offset, length)) in entries.iter().enumerate() {
        put_u64(&mut decoded, 28 + 12 * k, *offset);
        put_u32(&mut decoded, 36 + 12 * k, *length);
    }
    decoded
}

#[test]
fn raw_chunk_index_frames_and_their_errors() {
    let payload = index_payload(1_000, 512, &[(0, 100), (200, 100)]);
    let mut frame_bytes = vec![0_u8; 20];
    put_u32(&mut frame_bytes, 0, MAGIC);
    put_u32(&mut frame_bytes, 8, RAW_CHUNK_INDEX_FLAGS);
    put_u32(&mut frame_bytes, 12, 5);
    frame_bytes.extend_from_slice(&payload);
    let total = frame_bytes.len() as u32;
    put_u32(&mut frame_bytes, 4, total);
    let frame = ArchiveDirectoryEntry {
        record_offset: 0,
        total_length: total,
        object_id: 5,
        frame_type: 0x90,
    };
    assert_eq!(decode_index_frame(&frame, &frame_bytes, 5), Ok(payload.clone()));
    assert_eq!(
        decode_index_frame(&frame, &frame_bytes, 6),
        Err(RdrError::ChunkIndexObjectMismatch)
    );
    let index = parse_chunk_index(&payload, 10_000).unwrap();
    assert_eq!(
        index.records,
        vec![
            ChunkIndexEntry { record_offset: 52, total_length: 100 },
            ChunkIndexEntry { record_offset: 252, total_length: 100 },
        ]
    );
    assert_eq!(index.chunk_span(1), (512, 488));

    let short = ArchiveDirectoryEntry { total_length: 19, ..frame };
    assert_eq!(
        decode_index_frame(&short, &frame_bytes[..19], 5),
        Err(RdrError::ChunkIndexFrameTooShort)
    );
    let mut other = frame_bytes.clone();
    put_u32(&mut other, 8, 0x1234);
    assert_eq!(
        decode_index_frame(&frame, &other, 5),
        Err(RdrError::UnsupportedChunkIndexEncoding(0x1234))
    );
    put_u32(&mut other, 4, 1);
    assert_eq!(decode_index_frame(&frame, &other, 5), Err(RdrError::ChunkIndexLengthMismatch));
    put_u32(&mut other, 0, 0);
    assert_eq!(decode_index_frame(&frame, &other, 5), Err(RdrError::BadChunkIndexMagic));
}

#[test]
fn compressed_chunk_index_errors() {
    let mut frame_bytes = vec![0_u8; 24];
    put_u32(&mut frame_bytes, 0, MAGIC);
    put_u32(&mut frame_bytes, 8, ZLIB_CHUNK_INDEX_FLAGS);
    put_u32(&mut frame_bytes, 12, 40);
    frame_bytes.extend_from_slice(b"not zlib at all");
    let total = frame_bytes.len() as u32;
    put_u32(&mut frame_bytes, 4, total);
    let frame = ArchiveDirectoryEntry {
        record_offset: 0,
        total_length: total,
        object_id: 0,
        frame_type: 0x90,
    };
    assert_eq!(decode_index_frame(&frame, &frame_bytes, 0), Err(RdrError::ChunkIndexInflateFailed));

    let mut frame_bytes = vec![0_u8; 24];
    put_u32(&mut frame_bytes, 0, MAGIC);
    put_u32(&mut frame_bytes, 8, ZLIB_CHUNK_INDEX_FLAGS);
    put_u32(&mut frame_bytes, 12, 41);
    frame_bytes.extend_from_slice(&compress(&[7_u8; 40]));
    let total = frame_bytes.len() as u32;
    put_u32(&mut frame_bytes, 4, total);
    let frame = ArchiveDirectoryEntry { total_length: total, ..frame };
    assert_eq!(
        decode_index_frame(&frame, &frame_bytes, 0),
        Err(RdrError::ChunkIndexDecodedLengthMismatch)
    );

    let mut short = vec![0_u8; 22];
    put_u32(&mut short, 0, MAGIC);
    put_u32(&mut short, 4, 22);
    put_u32(&mut short, 8, ZLIB_CHUNK_INDEX_FLAGS);
    let frame = ArchiveDirectoryEntry { total_length: 22, ..frame };
    assert_eq!(
        decode_index_frame(&frame, &short, 0),
        Err(RdrError::CompressedChunkIndexTooShort)
    );
}

#[test]
fn chunk_index_payload_errors() {
    assert_eq!(parse_chunk_index(&[0_u8; 27], 10_000), Err(RdrError::ChunkIndexPayloadTooShort));
    assert_eq!(
        parse_chunk_index(&index_payload(1_000, 1 << 32, &[(0, 100)]), 10_000),
        Err(RdrError::UnsupportedChunkSize)
    );
    assert_eq!(
        parse_chunk_index(&index_payload(0, 512, &[(0, 100)]), 10_000),
        Err(RdrError::InvalidChunkIndexGeometry)
    );
    let mut malformed = index_payload(1_000, 512, &[(0, 100), (200, 100)]);
    malformed.push(0);
    assert_eq!(parse_chunk_index(&malformed, 10_000), Err(RdrError::MalformedChunkIndex));
    assert_eq!(
        parse_chunk_index(&index_payload(1_025, 512, &[(0, 100), (200, 100)]), 10_000),
        Err(RdrError::ChunkCountMismatch)
    );
    assert_eq!(
        parse_chunk_index(&index_payload(1_000, 512, &[(0, 100), (u64::MAX, 100)]), 10_000),
        Err(RdrError::ChunkRecordOffsetOverflow)
    );
    assert_eq!(
        parse_chunk_index(&index_payload(1_000, 512, &[(0, 11), (200, 100)]), 10_000),
        Err(RdrError::ChunkEntryOutside)
    );
    assert_eq!(
        parse_chunk_index(&index_payload(1_000, 512, &[(0, 100), (9_900, 100)]), 10_000),
        Err(RdrError::ChunkEntryOutside)
    );
    assert_eq!(
        parse_chunk_index(&index_payload(1_000, 512, &[(200, 100), (200, 100)]), 10_000),
        Err(RdrError::ChunkOffsetsNotIncreasing)
    );
}

#[test]
fn samples_first_second_middle_and_last_chunks() {
    assert_eq!(sample_indices(1), vec![0]);
    assert_eq!(sample_indices(2), vec![0, 1]);
    assert_eq!(sample_indices(3), vec![0, 1, 2]);
    assert_eq!(sample_indices(4), vec![0, 1, 2, 3]);
    assert_eq!(sample_indices(10), vec![0, 1, 5, 9]);
}

#[test]
fn sample_check_refuses_mismatches() {
    let index = parse_chunk_index(&index_payload(1_000, 512, &[(0, 100), (200, 100)]), 10_000).unwrap();
    let good = Record::Data(DataRecord {
        record_offset: 252,
        total_length: 100,
        payload_offset: 288,
        payload_length: 64,
        logical_offset: 512,
        logical_length: 488,
        encoding: Encoding::Raw,
    });
    assert_eq!(index.check_sample(1, &good), Ok(()));
    let wrong = match good {
        Record::Data(d) => Record::Data(DataRecord { logical_length: 512, ..d }),
        other => other,
    };
    assert_eq!(index.check_sample(1, &wrong), Err(RdrError::ChunkVerificationFailed(1)));
    let metadata = Record::Metadata { record_offset: 52, total_length: 100, flags: 2 };
    assert_eq!(index.check_sample(0, &metadata), Err(RdrError::ChunkPointsToMetadata(52)));
}

#[test]
fn file_header_checks() {
    let mut header = vec![0_u8; 52];
    assert_eq!(parse_file_header(&header), Err(RdrError::BadMagic));
    put_u32(&mut header, 0, MAGIC);
    put_u32(&mut header, 4, 60);
    assert_eq!(parse_file_header(&header), Err(RdrError::UnsupportedHeaderSize(60)));
    put_u32(&mut header, 4, 52);
    put_u64(&mut header, 44, 4_096);
    let parsed = parse_file_header(&header).unwrap();
    assert_eq!(parsed, FileHeader { declared_file_size: 4_096 });
    assert_eq!(check_declared_size(&parsed, 4_096), Ok(()));
    assert_eq!(
        check_declared_size(&parsed, 4_097),
        Err(RdrError::FileSizeMismatch { declared: 4_096, actual: 4_097 })
    );
}

#[test]
fn record_headers() {
    let raw = raw_data_record(1_024, &[1, 2, 3, 4]);
    let mut file = vec![0_u8; 200];
    file[100..100 + raw.len()].copy_from_slice(&raw);
    assert_eq!(
        read_record_at(&file, 100),
        Ok(Record::Data(DataRecord {
            record_offset: 100,
            total_length: 40,
            payload_offset: 136,
            payload_length: 4,
            logical_offset: 1_024,
            logical_length: 4,
            encoding: Encoding::Raw,
        }))
    );
    assert_eq!(read_record_at(&file, 0), Err(RdrError::BadRecordMagic(0)));
    assert_eq!(
        parse_record_prefix(&file[100..112], 100, 139),
        Err(RdrError::RecordPastEof(100))
    );

    let mut zlib = vec![0_u8; 50];
    put_u32(&mut zlib, 0, MAGIC);
    put_u32(&mut zlib, 4, 50);
    put_u32(&mut zlib, 8, ZLIB_DATA_FLAGS);
    put_u32(&mut zlib, 12, 300);
    put_u64(&mut zlib, 24, 4_096);
    put_u32(&mut zlib, 32, 300);
    assert_eq!(
        read_record_at(&zlib, 0),
        Ok(Record::Data(DataRecord {
            record_offset: 0,
            total_length: 50,
            payload_offset: 40,
            payload_length: 10,
            logical_offset: 4_096,
            logical_length: 300,
            encoding: Encoding::Zlib,
        }))
    );
    put_u32(&mut zlib, 12, 301);
    assert_eq!(read_record_at(&zlib, 0), Err(RdrError::ConflictingLogicalSizes(0)));
    put_u32(&mut zlib, 4, 39);
    assert_eq!(read_record_at(&zlib, 0), Err(RdrError::ShortZlibRecord));
    put_u32(&mut zlib, 8, RAW_DATA_FLAGS);
    put_u32(&mut zlib, 4, 35);
    assert_eq!(read_record_at(&zlib, 0), Err(RdrError::ShortRawRecord));
    put_u32(&mut zlib, 4, 11);
    assert_eq!(read_record_at(&zlib, 0), Err(RdrError::InvalidRecordLength(0)));
    put_u32(&mut zlib, 4, 20);
    put_u32(&mut zlib, 8, 0x0804_0293);
    assert_eq!(
        read_record_at(&zlib, 0),
        Ok(Record::Metadata { record_offset: 0, total_length: 20, flags: 0x0804_0293 })
    );
}

#[test]
fn decodes_payloads() {
    let raw = DataRecord {
        record_offset: 7,
        total_length: 40,
        payload_offset: 43,
        payload_length: 4,
        logical_offset: 0,
        logical_length: 4,
        encoding: Encoding::Raw,
    };
    assert_eq!(decode_payload(&raw, vec![1, 2, 3, 4]), Ok(vec![1, 2, 3, 4]));
    let short = DataRecord { logical_length: 5, ..raw };
    assert_eq!(
        decode_payload(&short, vec![1, 2, 3, 4]),
        Err(RdrError::RawLengthMismatch { record_offset: 7, payload: 4, logical: 5 })
    );
    let content = vec![9_u8; 300];
    let compressed = compress(&content);
    let zlib = DataRecord {
        payload_length: compressed.len() as u32,
        logical_length: 300,
        encoding: Encoding::Zlib,
        ..raw
    };
    assert_eq!(decode_payload(&zlib, compressed.clone()), Ok(content));
    let longer = DataRecord { logical_length: 301, ..zlib };
    assert_eq!(
        decode_payload(&longer, compressed),
        Err(RdrError::ZlibLengthMismatch { record_offset: 7, decoded: 300, logical: 301 })
    );
    let broken = DataRecord { payload_length: 3, ..zlib };
    assert_eq!(decode_payload(&broken, vec![1, 2, 3]), Err(RdrError::RecordInflateFailed(7)));
}

#[test]
fn selects_compact_indexes_by_object() {
    let entry = |object_id: u32, frame_type: u32, record_offset: u64| ArchiveDirectoryEntry {
        record_offset,
        total_length: 100,
        object_id,
        frame_type,
    };
    let entries = vec![
        entry(3, 0x90, 100),
        entry(1, 0x98, 200),
        entry(1, 0x90, 300),
        entry(2, 0x93, 400),
        entry(0, 0x90, 500),
    ];
    let selected = select_index_frames(&entries).unwrap();
    assert_eq!(
        selected.iter().map(|e| (e.object_id, e.record_offset)).collect::<Vec<_>>(),
        vec![(0, 500), (1, 300), (3, 100)]
    );
    assert_eq!(find_index_frame(&entries, 1), Ok(entry(1, 0x90, 300)));
    assert_eq!(find_index_frame(&entries, 2), Err(RdrError::MissingCompactIndex(2)));
    assert_eq!(
        select_index_frames(&vec![entry(1, 0x98, 200)]),
        Err(RdrError::NoCompactIndexes)
    );
    let index = parse_chunk_index(&index_payload(1_000, 512, &[(0, 100), (200, 100)]), 10_000).unwrap();
    assert_eq!(
        object_info(&selected[1], &index),
        ObjectInfo { id: 1, logical_size: 1_000, chunks: 2, chunk_size: 512 }
    );
}

#[test]
fn lists_one_object_per_index_frame() {
    let frame = |object_id: u32| ArchiveDirectoryEntry {
        record_offset: 100,
        total_length: 100,
        object_id,
        frame_type: 0x90,
    };
    let first = parse_chunk_index(&index_payload(1_000, 512, &[(0, 100), (200, 100)]), 10_000).unwrap();
    let second = parse_chunk_index(&index_payload(300, 4_096, &[(400, 100)]), 10_000).unwrap();
    assert_eq!(
        image_info(10_000, &vec![frame(2), frame(5)], &vec![first, second]),
        ImageInfo {
            physical_size: 10_000,
            objects: vec![
                ObjectInfo { id: 2, logical_size: 1_000, chunks: 2, chunk_size: 512 },
                ObjectInfo { id: 5, logical_size: 300, chunks: 1, chunk_size: 4_096 },
            ],
        }
    );
    assert_eq!(
        image_info(64, &Vec::new(), &Vec::new()),
        ImageInfo { physical_size: 64, objects: Vec::new() }
    );
}

#[test]
fn chunks_tile_the_object() {
    let index = parse_chunk_index(
        &index_payload(1_300, 512, &[(0, 100), (200, 100), (400, 100)]),
        10_000,
    )
    .unwrap();
    let mut next = 0_u64;
    for i in 0..index.records.len() {
        let (offset, length) = index.chunk_span(i);
        assert_eq!(offset, next);
        assert!(length >= 1 && length <= 512);
        next = offset + u64::from(length);
    }
    assert_eq!(next, 1_300);
    assert_eq!(index.chunk_span(2), (1_024, 276));
}
