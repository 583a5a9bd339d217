//! The copy primitives: bounded and unbounded copies, interrupt retry,
//! partial writes, and short-write detection.

use multipart_save::ioerr::IoErrorKind;
use multipart_save::save_result::{PartialReason, SaveResult};
use multipart_save::stream::{
    try_copy_buf, try_copy_limited, try_write_all, FieldBody, FillStep, ScriptedSink, WriteStep,
};

#[test]
fn write_all_accepts_whole_buffer() {
    let mut dest: Vec<u8> = Vec::new();
    let r = try_write_all(b"hello world", &mut dest);
    assert!(matches!(r, SaveResult::Full(11)));
    assert_eq!(dest, b"hello world".to_vec());
}

#[test]
fn write_all_retries_interrupts_and_partial_writes() {
    let mut dest = ScriptedSink::new(vec![
        WriteStep::Accept(3),
        WriteStep::Fail(IoErrorKind::Interrupted),
        WriteStep::Accept(2),
        WriteStep::Fail(IoErrorKind::Interrupted),
    ]);
    let r = try_write_all(b"abcdefgh", &mut dest);
    assert!(matches!(r, SaveResult::Full(8)));
    assert_eq!(dest.contents(), &b"abcdefgh".to_vec());
}

#[test]
fn write_all_zero_progress_is_short_write_failure() {
    let mut dest = ScriptedSink::new(vec![WriteStep::Accept(0)]);
    let r = try_write_all(b"abc", &mut dest);
    match r {
        SaveResult::Error(e) => assert_eq!(e.kind, IoErrorKind::WriteZero),
        _ => panic!("expected an error before any byte was written"),
    }
}

#[test]
fn write_all_zero_progress_after_some_bytes_is_partial() {
    let mut dest = ScriptedSink::new(vec![WriteStep::Accept(2), WriteStep::Accept(0)]);
    let r = try_write_all(b"abcd", &mut dest);
    match r {
        SaveResult::Partial(n, PartialReason::IoError(e)) => {
            assert_eq!(n, 2);
            assert_eq!(e.kind, IoErrorKind::WriteZero);
        }
        _ => panic!("expected a partial result with the durable count"),
    }
    assert_eq!(dest.contents(), &b"ab".to_vec());
}

#[test]
fn write_all_hard_failure_keeps_durable_count() {
    let mut dest = ScriptedSink::new(vec![
        WriteStep::Accept(1),
        WriteStep::Fail(IoErrorKind::PermissionDenied),
    ]);
    let r = try_write_all(b"xyz", &mut dest);
    match r {
        SaveResult::Partial(n, PartialReason::IoError(e)) => {
            assert_eq!(n, 1);
            assert_eq!(e.kind, IoErrorKind::PermissionDenied);
        }
        _ => panic!("expected a partial result"),
    }
}

#[test]
fn copy_buf_copies_everything_in_chunks() {
    let mut src = FieldBody::scripted(b"0123456789".to_vec(), 3, Vec::new());
    let mut dest: Vec<u8> = Vec::new();
    let r = try_copy_buf(&mut src, &mut dest);
    assert!(matches!(r, SaveResult::Full(10)));
    assert_eq!(dest, b"0123456789".to_vec());
    assert_eq!(src.len(), 0);
}

#[test]
fn copy_buf_retries_interrupted_reads() {
    let script = vec![
        FillStep::Fail(IoErrorKind::Interrupted),
        FillStep::Read,
        FillStep::Fail(IoErrorKind::Interrupted),
        FillStep::Read,
    ];
    let mut src = FieldBody::scripted(b"abcdef".to_vec(), 4, script);
    let mut dest: Vec<u8> = Vec::new();
    let r = try_copy_buf(&mut src, &mut dest);
    assert!(matches!(r, SaveResult::Full(6)));
    assert_eq!(dest, b"abcdef".to_vec());
}

#[test]
fn copy_buf_hard_read_failure_before_any_byte_is_error() {
    let mut src = FieldBody::scripted(b"abc".to_vec(), 4, vec![FillStep::Fail(
        IoErrorKind::Other,
    )]);
    let mut dest: Vec<u8> = Vec::new();
    let r = try_copy_buf(&mut src, &mut dest);
    assert!(matches!(r, SaveResult::Error(_)));
    assert!(dest.is_empty());
}

#[test]
fn copy_buf_hard_read_failure_midway_is_partial_with_count() {
    let script = vec![FillStep::Read, FillStep::Fail(IoErrorKind::Other)];
    let mut src = FieldBody::scripted(b"abcdef".to_vec(), 4, script);
    let mut dest: Vec<u8> = Vec::new();
    let r = try_copy_buf(&mut src, &mut dest);
    match r {
        SaveResult::Partial(n, PartialReason::IoError(e)) => {
            assert_eq!(n, 4);
            assert_eq!(e.kind, IoErrorKind::Other);
        }
        _ => panic!("expected a partial result with the durable count"),
    }
    assert_eq!(dest, b"abcd".to_vec());
}

#[test]
fn copy_limited_truncates_at_exactly_the_limit() {
    let mut src = FieldBody::scripted(b"0123456789".to_vec(), 4, Vec::new());
    let mut dest: Vec<u8> = Vec::new();
    let r = try_copy_limited(&mut src, &mut dest, 7);
    assert!(matches!(r, SaveResult::Partial(7, PartialReason::SizeLimit)));
    assert_eq!(dest, b"0123456".to_vec());
    // the eighth byte was not consumed
    assert_eq!(src.len(), 3);
}

#[test]
fn copy_limited_body_ending_exactly_at_the_limit_is_full() {
    let mut src = FieldBody::from_bytes(b"0123456".to_vec());
    let mut dest: Vec<u8> = Vec::new();
    let r = try_copy_limited(&mut src, &mut dest, 7);
    assert!(matches!(r, SaveResult::Full(7)));
    assert_eq!(dest, b"0123456".to_vec());
}

#[test]
fn copy_limited_short_body_is_full() {
    let mut src = FieldBody::from_bytes(b"ab".to_vec());
    let mut dest: Vec<u8> = Vec::new();
    let r = try_copy_limited(&mut src, &mut dest, 100);
    assert!(matches!(r, SaveResult::Full(2)));
    assert_eq!(dest, b"ab".to_vec());
}

#[test]
fn field_body_fill_does_not_consume() {
    let mut src = FieldBody::scripted(b"abcdef".to_vec(), 4, Vec::new());
    let first = src.fill().unwrap();
    assert_eq!(first, b"abcd".to_vec());
    let again = src.fill().unwrap();
    assert_eq!(again, b"abcd".to_vec());
    src.consume(2);
    let after = src.fill().unwrap();
    assert_eq!(after, b"cdef".to_vec());
    assert_eq!(src.len(), 4);
}
