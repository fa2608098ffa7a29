use std::io::Read;

use vstd::prelude::*;

use crate::bytes::opt_bytes;
use crate::error::RdrError;
use crate::format::{DataRecord, Encoding};

verus! {

/// What flate2's zlib reader yields when `compressed` is read to its end:
/// the inflated bytes, or `None` where the reader reports an error.
pub uninterp spec fn zlib_inflate(compressed: Seq<u8>) -> Option<Seq<u8>>;

/// Inflates a zlib stream with `flate2::read::ZlibDecoder`, read to its end
/// with `Read::read_to_end`. The decoder is deterministic, so the result is
/// named as a function of the input: the bytes on success, `None` on any
/// error (a corrupt or an incomplete stream).
#[verifier::external_body]
pub(crate) fn inflate(compressed: &[u8]) -> (out: Option<Vec<u8>>)
    ensures
        match out {
            Some(v) => zlib_inflate(compressed@) == Some(v@),
            None => zlib_inflate(compressed@) is None,
        },
{
    let mut decoder = flate2::read::ZlibDecoder::new(compressed);
    let mut decoded = Vec::new();
    match decoder.read_to_end(&mut decoded) {
        Ok(_) => Some(decoded),
        Err(_) => None,
    }
}

/// The logical bytes of a zlib record, given what its payload inflated to.
pub open spec fn spec_zlib_record_bytes(record: DataRecord, inflated: Option<Seq<u8>>) -> Result<
    Seq<u8>,
    RdrError,
> {
    match inflated {
        None => Err(RdrError::RecordInflateFailed(record.record_offset)),
        Some(d) => if d.len() == record.logical_length {
            Ok(d)
        } else {
            Err(
                RdrError::ZlibLengthMismatch {
                    record_offset: record.record_offset,
                    decoded: d.len() as usize,
                    logical: record.logical_length,
                },
            )
        },
    }
}

/// The logical bytes that a data record's payload holds, or why they are refused.
pub open spec fn spec_decode_payload(record: DataRecord, payload: Seq<u8>) -> Result<
    Seq<u8>,
    RdrError,
> {
    match record.encoding {
        Encoding::Raw => if payload.len() == record.logical_length {
            Ok(payload)
        } else {
            Err(
                RdrError::RawLengthMismatch {
                    record_offset: record.record_offset,
                    payload: payload.len() as u32,
                    logical: record.logical_length,
                },
            )
        },
        Encoding::Zlib => spec_zlib_record_bytes(record, zlib_inflate(payload)),
    }
}

/// Accepts what a zlib record's payload inflated to: it must have exactly
/// the record's logical length.
pub fn zlib_record_bytes(record: &DataRecord, inflated: Option<Vec<u8>>) -> (r: Result<
    Vec<u8>,
    RdrError,
>)
    ensures
        match r {
            Ok(v) => spec_zlib_record_bytes(*record, opt_bytes(inflated)) == Ok::<
                Seq<u8>,
                RdrError,
            >(v@),
            Err(e) => spec_zlib_record_bytes(*record, opt_bytes(inflated)) == Err::<
                Seq<u8>,
                RdrError,
            >(e),
        },
{
    match inflated {
        None => Err(RdrError::RecordInflateFailed(record.record_offset)),
        Some(decoded) => {
            if decoded.len() == record.logical_length as usize {
                Ok(decoded)
            } else {
                Err(
                    RdrError::ZlibLengthMismatch {
                        record_offset: record.record_offset,
                        decoded: decoded.len(),
                        logical: record.logical_length,
                    },
                )
            }
        },
    }
}

/// Decodes the payload of a data record into its logical bytes.
pub fn decode_payload(record: &DataRecord, payload: Vec<u8>) -> (r: Result<Vec<u8>, RdrError>)
    requires
        payload@.len() == record.payload_length,
    ensures
        match r {
            Ok(v) => spec_decode_payload(*record, payload@) == Ok::<Seq<u8>, RdrError>(v@),
            Err(e) => spec_decode_payload(*record, payload@) == Err::<Seq<u8>, RdrError>(e),
        },
{
    match record.encoding {
        Encoding::Raw => {
            if payload.len() == record.logical_length as usize {
                Ok(payload)
            } else {
                Err(
                    RdrError::RawLengthMismatch {
                        record_offset: record.record_offset,
                        payload: record.payload_length,
                        logical: record.logical_length,
                    },
                )
            }
        },
        Encoding::Zlib => {
            let inflated = inflate(payload.as_slice());
            zlib_record_bytes(record, inflated)
        },
    }
}

/// Whatever a data record's payload decodes to has exactly the record's
/// logical length.
pub proof fn lemma_decoded_length(record: DataRecord, payload: Seq<u8>)
    requires
        spec_decode_payload(record, payload) is Ok,
    ensures
        spec_decode_payload(record, payload)->Ok_0.len() == record.logical_length,
{
}

/// A raw record's payload is its logical bytes as they stand; a zlib record's
/// payload is inflated. Either way the bytes are accepted only when they have
/// the record's logical length.
pub proof fn lemma_decode_layout(record: DataRecord, payload: Seq<u8>)
    ensures
        record.encoding == Encoding::Raw ==> spec_decode_payload(record, payload) == if payload.len()
            == record.logical_length {
            Ok::<Seq<u8>, RdrError>(payload)
        } else {
            Err::<Seq<u8>, RdrError>(
                RdrError::RawLengthMismatch {
                    record_offset: record.record_offset,
                    payload: payload.len() as u32,
                    logical: record.logical_length,
                },
            )
        },
        record.encoding == Encoding::Zlib ==> spec_decode_payload(record, payload) == match zlib_inflate(
            payload,
        ) {
            None => Err::<Seq<u8>, RdrError>(RdrError::RecordInflateFailed(record.record_offset)),
            Some(d) => if d.len() == record.logical_length {
                Ok::<Seq<u8>, RdrError>(d)
            } else {
                Err::<Seq<u8>, RdrError>(
                    RdrError::ZlibLengthMismatch {
                        record_offset: record.record_offset,
                        decoded: d.len() as usize,
                        logical: record.logical_length,
                    },
                )
            },
        },
{
}

} // verus!
