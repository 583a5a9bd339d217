//! The save directory's lifecycle on a real filesystem: a temporary
//! directory vanishes when its owner releases it; the model mirrors the
//! temporary/permanent distinction.

use multipart_save::entries::SaveDir;
use std::path::PathBuf;
use tempdir::TempDir;

#[test]
fn temporary_directory_vanishes_when_its_owner_is_released() {
    let td = TempDir::new("multipart-save-check").expect("a temporary directory");
    let path: PathBuf = td.path().to_path_buf();
    assert!(path.exists());
    // the model pairs this guard with a Temp save directory
    let model = SaveDir::Temp(path.to_string_lossy().into_owned());
    assert!(model.is_temporary());
    drop(td);
    assert!(!path.exists());
}

#[test]
fn closing_a_temporary_directory_surfaces_removal_outcome() {
    let td = TempDir::new("multipart-save-check").expect("a temporary directory");
    let path: PathBuf = td.path().to_path_buf();
    assert!(td.close().is_ok());
    assert!(!path.exists());
}
