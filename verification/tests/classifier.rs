//! The per-field memory/disk classifier: size limits, the memory
//! threshold boundary, and the text policies.

use multipart_save::builder::{MemTarget, SaveBuilder};
use multipart_save::entries::SavedData;
use multipart_save::ioerr::IoErrorKind;
use multipart_save::save_result::{PartialReason, SaveResult};
use multipart_save::stream::{FieldBody, FillStep};

#[test]
fn size_limit_under_size_truncates_to_exactly_the_limit() {
    // a 10-byte field under a 6-byte limit: partial, exactly 6 bytes, in memory
    let body = FieldBody::scripted(b"0123456789".to_vec(), 3, Vec::new());
    let mut builder = SaveBuilder::new(body).size_limit(Some(6));
    let mut target = MemTarget::new("d/f".to_string());
    let r = builder.with_path(&mut target);
    match r {
        SaveResult::Partial(SavedData::Bytes(b), PartialReason::SizeLimit) => {
            assert_eq!(b, b"012345".to_vec());
        }
        _ => panic!("expected a size-limit truncation to bytes"),
    }
    assert!(!target.is_created());
}

#[test]
fn size_limit_at_or_over_size_saves_everything() {
    let body = FieldBody::from_bytes(b"0123456789".to_vec());
    let mut builder = SaveBuilder::new(body).size_limit(Some(10)).ignore_text();
    let mut target = MemTarget::new("d/f".to_string());
    let r = builder.with_path(&mut target);
    match r {
        SaveResult::Full(SavedData::Bytes(b)) => assert_eq!(b, b"0123456789".to_vec()),
        _ => panic!("expected the whole field in memory"),
    }
}

#[test]
fn field_of_exactly_the_threshold_stays_in_memory() {
    let body = FieldBody::scripted(vec![7u8; 64], 9, Vec::new());
    let mut builder = SaveBuilder::new(body).memory_threshold(64).ignore_text();
    let mut target = MemTarget::new("d/f".to_string());
    let r = builder.with_path(&mut target);
    match r {
        SaveResult::Full(SavedData::Bytes(b)) => assert_eq!(b, vec![7u8; 64]),
        _ => panic!("expected in-memory bytes"),
    }
    assert!(!target.is_created());
    assert!(target.contents().is_empty());
}

#[test]
fn field_one_byte_over_the_threshold_spills() {
    let mut data = vec![7u8; 64];
    data.push(9u8);
    let body = FieldBody::scripted(data.clone(), 9, Vec::new());
    let mut builder = SaveBuilder::new(body).memory_threshold(64);
    let mut target = MemTarget::new("d/f".to_string());
    let r = builder.with_path(&mut target);
    match r {
        SaveResult::Full(SavedData::File(path, size)) => {
            assert_eq!(path, "d/f".to_string());
            assert_eq!(size, 65);
        }
        _ => panic!("expected a file record"),
    }
    assert!(target.is_created());
    // the file's first 64 bytes are the phase-one buffer, then the rest
    assert_eq!(target.contents(), &data);
}

#[test]
fn spilled_field_honors_size_limit_counting_buffered_bytes() {
    // threshold 4, limit 10, body 16 bytes: the file gets exactly 10
    let body = FieldBody::scripted(b"0123456789abcdef".to_vec(), 3, Vec::new());
    let mut builder = SaveBuilder::new(body).memory_threshold(4).size_limit(Some(10));
    let mut target = MemTarget::new("out".to_string());
    let r = builder.with_path(&mut target);
    match r {
        SaveResult::Partial(SavedData::File(path, size), PartialReason::SizeLimit) => {
            assert_eq!(path, "out".to_string());
            assert_eq!(size, 10);
        }
        _ => panic!("expected a size-limited file record"),
    }
    assert_eq!(target.contents(), &b"0123456789".to_vec());
}

#[test]
fn utf8_content_becomes_text_under_try() {
    let body = FieldBody::from_bytes(b"hello world".to_vec());
    let mut builder = SaveBuilder::new(body).try_text();
    let mut target = MemTarget::new("d/f".to_string());
    let r = builder.with_path(&mut target);
    match r {
        SaveResult::Full(SavedData::Text(s)) => assert_eq!(s, "hello world".to_string()),
        _ => panic!("expected decoded text"),
    }
}

#[test]
fn utf8_content_becomes_text_under_force() {
    let body = FieldBody::from_bytes("héllo".as_bytes().to_vec());
    let mut builder = SaveBuilder::new(body).force_text();
    let mut target = MemTarget::new("d/f".to_string());
    let r = builder.with_path(&mut target);
    match r {
        SaveResult::Full(SavedData::Text(s)) => assert_eq!(s, "héllo".to_string()),
        _ => panic!("expected decoded text"),
    }
}

#[test]
fn utf8_content_stays_bytes_under_ignore() {
    let body = FieldBody::from_bytes(b"hello".to_vec());
    let mut builder = SaveBuilder::new(body).ignore_text();
    let mut target = MemTarget::new("d/f".to_string());
    let r = builder.with_path(&mut target);
    match r {
        SaveResult::Full(SavedData::Bytes(b)) => assert_eq!(b, b"hello".to_vec()),
        _ => panic!("expected raw bytes"),
    }
}

#[test]
fn invalid_utf8_under_force_is_invalid_data_error() {
    let body = FieldBody::from_bytes(vec![0xffu8, 0xfe, 0x01]);
    let mut builder = SaveBuilder::new(body).force_text();
    let mut target = MemTarget::new("d/f".to_string());
    let r = builder.with_path(&mut target);
    match r {
        SaveResult::Error(e) => assert_eq!(e.kind, IoErrorKind::InvalidData),
        _ => panic!("expected an invalid-data error"),
    }
}

#[test]
fn invalid_utf8_under_try_falls_back_to_bytes() {
    let body = FieldBody::from_bytes(vec![0xffu8, 0xfe, 0x01]);
    let mut builder = SaveBuilder::new(body).try_text();
    let mut target = MemTarget::new("d/f".to_string());
    let r = builder.with_path(&mut target);
    match r {
        SaveResult::Full(SavedData::Bytes(b)) => assert_eq!(b, vec![0xffu8, 0xfe, 0x01]),
        _ => panic!("expected the bytes unchanged"),
    }
}

#[test]
fn failing_destination_creation_is_an_error() {
    let body = FieldBody::from_bytes(vec![1u8; 32]);
    let mut builder = SaveBuilder::new(body).memory_threshold(4);
    let mut target = MemTarget::failing("d/f".to_string(), IoErrorKind::AlreadyExists);
    let r = builder.with_path(&mut target);
    match r {
        SaveResult::Error(e) => assert_eq!(e.kind, IoErrorKind::AlreadyExists),
        _ => panic!("expected the creation failure to surface"),
    }
    assert!(!target.is_created());
}

#[test]
fn read_failure_during_spill_reports_bytes_so_far() {
    // threshold 4; the body fails after handing out 8 bytes
    let script = vec![FillStep::Read, FillStep::Read, FillStep::Read, FillStep::Fail(
        IoErrorKind::Other,
    )];
    let body = FieldBody::scripted(b"0123456789abcdef".to_vec(), 4, script);
    let mut builder = SaveBuilder::new(body).memory_threshold(4);
    let mut target = MemTarget::new("d/f".to_string());
    let r = builder.with_path(&mut target);
    match r {
        SaveResult::Partial(SavedData::File(_, size), PartialReason::IoError(e)) => {
            assert_eq!(e.kind, IoErrorKind::Other);
            assert_eq!(size, 8);
        }
        _ => panic!("expected a partial file with the durable count"),
    }
    assert_eq!(target.contents(), &b"01234567".to_vec());
}

#[test]
fn write_to_copies_into_a_plain_buffer() {
    let body = FieldBody::scripted(b"stream me".to_vec(), 2, Vec::new());
    let mut builder = SaveBuilder::new(body);
    let mut dest: Vec<u8> = Vec::new();
    let r = builder.write_to(&mut dest);
    assert!(matches!(r, SaveResult::Full(9)));
    assert_eq!(dest, b"stream me".to_vec());
}
