//! The three-outcome result type and its combinators.

use multipart_save::entries::SavedData;
use multipart_save::ioerr::{IoError, IoErrorKind};
use multipart_save::save_result::{PartialReason, SaveResult};

#[test]
fn okish_collapses_partial_and_drops_errors() {
    let full: SaveResult<u64, u64> = SaveResult::Full(7);
    assert_eq!(full.okish(), Some(7));
    let partial: SaveResult<u64, u64> = SaveResult::Partial(3, PartialReason::SizeLimit);
    assert_eq!(partial.okish(), Some(3));
    let error: SaveResult<u64, u64> = SaveResult::Error(IoError::new(IoErrorKind::Other));
    assert_eq!(error.okish(), None);
}

#[test]
fn map_transforms_payloads_and_keeps_the_reason() {
    let full: SaveResult<u64, u64> = SaveResult::Full(10);
    match full.map(|n| n + 1) {
        SaveResult::Full(n) => assert_eq!(n, 11),
        _ => panic!("expected full"),
    }
    let partial: SaveResult<u64, u64> = SaveResult::Partial(10, PartialReason::CountLimit);
    match partial.map(|n| n * 2) {
        SaveResult::Partial(n, PartialReason::CountLimit) => assert_eq!(n, 20),
        _ => panic!("expected the reason to be kept"),
    }
    let error: SaveResult<u64, u64> = SaveResult::Error(IoError::new(IoErrorKind::NotFound));
    match error.map(|n| n) {
        SaveResult::Error(e) => assert_eq!(e.kind, IoErrorKind::NotFound),
        _ => panic!("expected the error to pass through"),
    }
}

#[test]
fn into_opt_both_separates_payload_and_failure() {
    let full: SaveResult<usize, usize> = SaveResult::Full(1);
    assert_eq!(full.into_opt_both(), (Some(1), None));

    let e = IoError::new(IoErrorKind::PermissionDenied);
    let partial_io: SaveResult<usize, usize> = SaveResult::Partial(2, PartialReason::IoError(e));
    assert_eq!(partial_io.into_opt_both(), (Some(2), Some(e)));

    let partial_limit: SaveResult<usize, usize> = SaveResult::Partial(3, PartialReason::SizeLimit);
    assert_eq!(partial_limit.into_opt_both(), (Some(3), None));

    let error: SaveResult<usize, usize> = SaveResult::Error(e);
    assert_eq!(error.into_opt_both(), (None, Some(e)));
}

#[test]
fn into_result_is_optimistic_about_partial_outcomes() {
    let partial: SaveResult<u64, u64> = SaveResult::Partial(
        5,
        PartialReason::IoError(IoError::new(IoErrorKind::Other)),
    );
    assert_eq!(partial.into_result(), Ok(5));
    let error: SaveResult<u64, u64> = SaveResult::Error(IoError::new(IoErrorKind::Other));
    assert!(error.into_result().is_err());
}

#[test]
fn into_result_strict_fails_only_on_io_failures() {
    let e = IoError::new(IoErrorKind::Other);
    let partial_io: SaveResult<u64, u64> = SaveResult::Partial(5, PartialReason::IoError(e));
    assert_eq!(partial_io.into_result_strict(), Err(e));
    let partial_limit: SaveResult<u64, u64> = SaveResult::Partial(5, PartialReason::SizeLimit);
    assert_eq!(partial_limit.into_result_strict(), Ok(5));
    let partial_count: SaveResult<u64, u64> = SaveResult::Partial(5, PartialReason::CountLimit);
    assert_eq!(partial_count.into_result_strict(), Ok(5));
    let full: SaveResult<u64, u64> = SaveResult::Full(9);
    assert_eq!(full.into_result_strict(), Ok(9));
}

#[test]
fn unwrap_err_returns_the_io_failure() {
    let reason = PartialReason::IoError(IoError::new(IoErrorKind::WriteZero));
    assert_eq!(reason.unwrap_err().kind, IoErrorKind::WriteZero);
    let reason = PartialReason::IoError(IoError::new(IoErrorKind::Other));
    assert_eq!(reason.expect_err("reason must be an I/O failure").kind, IoErrorKind::Other);
}

#[test]
fn reason_from_io_error_wraps_it() {
    let e = IoError::new(IoErrorKind::NotFound);
    let reason = PartialReason::from(e);
    assert_eq!(reason, PartialReason::IoError(e));
}

#[test]
fn map_collapses_partial_saved_data_identically() {
    let partial: SaveResult<SavedData, SavedData> = SaveResult::Partial(
        SavedData::Bytes(vec![1, 2]),
        PartialReason::SizeLimit,
    );
    match partial.map(|d| d.size()) {
        SaveResult::Partial(n, PartialReason::SizeLimit) => assert_eq!(n, 2),
        _ => panic!("expected the truncated size"),
    }
}
