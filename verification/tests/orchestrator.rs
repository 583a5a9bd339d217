//! Whole-request saves: ordering and grouping, the count limit, source
//! failures, and the save-directory and partial-entries handling around
//! them.

use multipart_save::builder::{MemTarget, SaveBuilder, SpillTarget};
use multipart_save::source::{name_tag, SpillFactory};

use multipart_save::entries::{Entries, FieldHeaders, SaveDir, SavedData, SavedField};
use multipart_save::ioerr::{IoError, IoErrorKind};
use multipart_save::save_result::{PartialReason, SaveResult};
use multipart_save::source::{MemFieldSource, MemSpillFactory, SourceItem};
use multipart_save::stream::FieldBody;

fn text_item(name: &str, value: &str) -> SourceItem {
    SourceItem::Text(FieldHeaders::named(name.to_string()), value.to_string())
}

fn file_item(name: &str, bytes: Vec<u8>) -> SourceItem {
    SourceItem::File(FieldHeaders::named(name.to_string()), FieldBody::from_bytes(bytes))
}

#[test]
fn no_limits_no_failures_saves_every_field_grouped_in_order() {
    let items = vec![
        text_item("a", "one"),
        file_item("b", b"bbbb".to_vec()),
        text_item("a", "two"),
        file_item("c", b"cccc".to_vec()),
        text_item("a", "three"),
    ];
    let source = MemFieldSource::new(items);
    let entries = Entries::new(SaveDir::Perm("dir".to_string()));
    let mut factory = MemSpillFactory::new(0);
    let mut spilled: Vec<MemTarget> = Vec::new();
    let r = SaveBuilder::new(source).ignore_text().with_entries(entries, &mut factory, &mut spilled);
    let en = match r {
        SaveResult::Full(en) => en,
        _ => panic!("expected a full save"),
    };
    // three groups in first-arrival order: a, b, c
    assert_eq!(en.fields.len(), 3);
    assert_eq!(en.fields[0].0, "a".to_string());
    assert_eq!(en.fields[1].0, "b".to_string());
    assert_eq!(en.fields[2].0, "c".to_string());
    // the "a" group holds its three records in arrival order
    let a_group = &en.fields[0].1;
    assert_eq!(a_group.len(), 3);
    let texts: Vec<&str> = a_group
        .iter()
        .map(|f| match &f.data {
            SavedData::Text(s) => s.as_str(),
            _ => panic!("expected text"),
        })
        .collect();
    assert_eq!(texts, vec!["one", "two", "three"]);
    assert_eq!(en.fields[1].1.len(), 1);
    assert_eq!(en.fields[2].1.len(), 1);
}

#[test]
fn count_limit_stops_before_touching_the_next_file_field() {
    let items = vec![
        file_item("f1", b"first".to_vec()),
        file_item("f2", b"second".to_vec()),
        file_item("f3", b"third".to_vec()),
    ];
    let source = MemFieldSource::new(items);
    let entries = Entries::new(SaveDir::Perm("dir".to_string()));
    let mut factory = MemSpillFactory::new(0);
    let mut spilled: Vec<MemTarget> = Vec::new();
    let r = SaveBuilder::new(source)
        .ignore_text()
        .count_limit(Some(2))
        .with_entries(entries, &mut factory, &mut spilled);
    let (pe, reason) = match r {
        SaveResult::Partial(pe, reason) => (pe, reason),
        _ => panic!("expected a partial save"),
    };
    assert!(matches!(reason, PartialReason::CountLimit));
    // exactly two file fields were saved
    assert_eq!(pe.entries.fields.len(), 2);
    assert_eq!(pe.entries.fields[0].0, "f1".to_string());
    assert_eq!(pe.entries.fields[1].0, "f2".to_string());
    // the third field's body is completely unconsumed: re-reading it
    // returns its original first bytes unchanged
    let pf = pe.partial_field.expect("the cut-off field is handed back");
    assert_eq!(pf.headers.name, "f3".to_string());
    assert!(pf.dest.is_none());
    let mut body = pf.source;
    assert_eq!(body.len(), 5);
    assert_eq!(body.fill().unwrap(), b"third".to_vec());
}

#[test]
fn text_fields_do_not_count_against_the_count_limit() {
    let items = vec![
        text_item("t1", "x"),
        file_item("f1", b"data".to_vec()),
        text_item("t2", "y"),
    ];
    let source = MemFieldSource::new(items);
    let entries = Entries::new(SaveDir::Perm("dir".to_string()));
    let mut factory = MemSpillFactory::new(0);
    let mut spilled: Vec<MemTarget> = Vec::new();
    let r = SaveBuilder::new(source)
        .ignore_text()
        .count_limit(Some(1))
        .with_entries(entries, &mut factory, &mut spilled);
    assert!(matches!(r, SaveResult::Full(_)));
}

#[test]
fn source_failure_degrades_to_partial_without_a_partial_field() {
    let items = vec![
        text_item("a", "kept"),
        SourceItem::Broken(IoError::new(IoErrorKind::Other)),
        text_item("b", "never reached"),
    ];
    let source = MemFieldSource::new(items);
    let entries = Entries::new(SaveDir::Perm("dir".to_string()));
    let mut factory = MemSpillFactory::new(0);
    let mut spilled: Vec<MemTarget> = Vec::new();
    let r = SaveBuilder::new(source).with_entries(entries, &mut factory, &mut spilled);
    let (pe, reason) = match r {
        SaveResult::Partial(pe, reason) => (pe, reason),
        _ => panic!("expected a partial save"),
    };
    match reason {
        PartialReason::IoError(e) => assert_eq!(e.kind, IoErrorKind::Other),
        _ => panic!("expected the source failure"),
    }
    assert!(pe.partial_field.is_none());
    assert_eq!(pe.entries.fields.len(), 1);
    assert_eq!(pe.entries.fields[0].0, "a".to_string());
}

#[test]
fn size_limited_file_field_is_handed_back_with_its_truncated_record() {
    let items = vec![file_item("big", b"0123456789".to_vec())];
    let source = MemFieldSource::new(items);
    let entries = Entries::new(SaveDir::Perm("dir".to_string()));
    let mut factory = MemSpillFactory::new(0);
    let mut spilled: Vec<MemTarget> = Vec::new();
    let r = SaveBuilder::new(source)
        .ignore_text()
        .size_limit(Some(4))
        .memory_threshold(2)
        .with_entries(entries, &mut factory, &mut spilled);
    let (pe, reason) = match r {
        SaveResult::Partial(pe, reason) => (pe, reason),
        _ => panic!("expected a partial save"),
    };
    assert!(matches!(reason, PartialReason::SizeLimit));
    let pf = pe.partial_field.expect("the truncated field is handed back");
    assert_eq!(pf.headers.name, "big".to_string());
    match pf.dest.expect("a truncated record exists").data {
        SavedData::File(_, size) => assert_eq!(size, 4),
        _ => panic!("expected a file record"),
    }
}

#[test]
fn keep_partial_promotes_a_truncated_record() {
    let items = vec![
        text_item("a", "kept"),
        file_item("big", b"0123456789".to_vec()),
    ];
    let source = MemFieldSource::new(items);
    let entries = Entries::new(SaveDir::Perm("dir".to_string()));
    let mut factory = MemSpillFactory::new(0);
    let mut spilled: Vec<MemTarget> = Vec::new();
    let r = SaveBuilder::new(source)
        .ignore_text()
        .size_limit(Some(4))
        .memory_threshold(2)
        .with_entries(entries, &mut factory, &mut spilled);
    let pe = match r {
        SaveResult::Partial(pe, _) => pe,
        _ => panic!("expected a partial save"),
    };
    let en = pe.keep_partial();
    assert_eq!(en.fields.len(), 2);
    assert_eq!(en.fields[1].0, "big".to_string());
    assert_eq!(en.fields[1].1.len(), 1);
}

#[test]
fn into_entries_takes_complete_or_partial_entries() {
    let source = MemFieldSource::new(vec![text_item("a", "v")]);
    let entries = Entries::new(SaveDir::Perm("dir".to_string()));
    let mut factory = MemSpillFactory::new(0);
    let mut spilled: Vec<MemTarget> = Vec::new();
    let r = SaveBuilder::new(source).with_entries(entries, &mut factory, &mut spilled);
    let en = r.into_entries().expect("a full save has entries");
    assert_eq!(en.fields.len(), 1);

    let source = MemFieldSource::new(vec![SourceItem::Broken(IoError::new(IoErrorKind::Other))]);
    let entries = Entries::new(SaveDir::Perm("dir".to_string()));
    let r = SaveBuilder::new(source).with_entries(entries, &mut factory, &mut spilled);
    assert!(r.into_entries().is_some());
}

#[test]
fn scenario_large_avatar_and_short_bio() {
    let avatar = vec![0x5au8; 20_000_000];
    let items = vec![
        file_item("avatar", avatar),
        text_item("bio", "hello world"),
    ];
    let source = MemFieldSource::new(items);
    let entries = Entries::new(SaveDir::Perm("save-dir".to_string()));
    let mut factory = MemSpillFactory::new(0);
    let mut spilled: Vec<MemTarget> = Vec::new();
    let r = SaveBuilder::new(source)
        .size_limit(None)
        .count_limit(None)
        .memory_threshold(8_000_000)
        .with_entries(entries, &mut factory, &mut spilled);
    let en = match r {
        SaveResult::Full(en) => en,
        _ => panic!("expected a full save"),
    };
    assert_eq!(en.fields.len(), 2);
    assert_eq!(en.fields[0].0, "avatar".to_string());
    assert_eq!(en.fields[0].1.len(), 1);
    match &en.fields[0].1[0].data {
        SavedData::File(path, size) => {
            assert_eq!(*size, 20_000_000u64);
            assert_eq!(path, &"save-dir/000000000000".to_string());
        }
        _ => panic!("the avatar spills to a file under the save directory"),
    }
    // the spill destination holds the avatar's bytes, nothing of the bio
    assert_eq!(spilled.len(), 1);
    assert!(spilled[0].is_created());
    assert_eq!(spilled[0].contents().len(), 20_000_000);
    assert_eq!(en.fields[1].0, "bio".to_string());
    match &en.fields[1].1[0].data {
        SavedData::Text(s) => assert_eq!(s, &"hello world".to_string()),
        _ => panic!("the bio stays in memory as text"),
    }
}

#[test]
fn spill_factory_issues_distinct_paths_under_the_directory() {
    let mut factory = MemSpillFactory::new(0);
    let dir = "base".to_string();
    let a = factory.make_target(&dir);
    let b = factory.make_target(&dir);
    let pa = a.path_string();
    let pb = b.path_string();
    assert!(pa.starts_with("base/"));
    assert!(pb.starts_with("base/"));
    assert_ne!(pa, pb);
    assert_eq!(pa, "base/000000000000".to_string());
    assert_eq!(pb, "base/000000000001".to_string());
}

#[test]
fn spill_factory_folds_the_drawn_seed_into_its_names() {
    let mut factory = MemSpillFactory::new(61);
    let dir = "base".to_string();
    let a = factory.make_target(&dir);
    // first tag value is the seed itself (counter zero)
    assert_eq!(a.path_string(), "base/00000000000Z".to_string());
}

#[test]
fn name_tag_is_twelve_alphanumeric_characters_of_the_drawn_value() {
    assert_eq!(name_tag(0), "000000000000".to_string());
    assert_eq!(name_tag(1), "000000000001".to_string());
    assert_eq!(name_tag(61), "00000000000Z".to_string());
    assert_eq!(name_tag(62), "000000000010".to_string());
    assert_eq!(name_tag(12345), "0000000003d7".to_string());
    assert_eq!(name_tag(u64::MAX), "0lYGhA16ahyf".to_string());
    assert_eq!(name_tag(u64::MAX).len(), 12);
    assert!(name_tag(u64::MAX).chars().all(|c| c.is_ascii_alphanumeric()));
}

#[test]
fn save_dir_keep_makes_a_temporary_directory_permanent() {
    let mut dir = SaveDir::Temp("t/dir".to_string());
    assert!(dir.is_temporary());
    assert_eq!(dir.as_path(), &"t/dir".to_string());
    dir.keep();
    assert!(!dir.is_temporary());
    assert_eq!(dir.as_path(), &"t/dir".to_string());
    // keeping again is a no-op
    dir.keep();
    assert!(!dir.is_temporary());
    assert_eq!(dir.into_path(), "t/dir".to_string());
}

#[test]
fn entries_is_empty_reflects_saved_records() {
    let mut en = Entries::new(SaveDir::Perm("d".to_string()));
    assert!(en.is_empty());
    en.push_saved(SavedField {
        headers: FieldHeaders::named("n".to_string()),
        data: SavedData::Text("v".to_string()),
    });
    assert!(!en.is_empty());
}

#[test]
fn saved_data_size_matches_stored_content() {
    assert_eq!(SavedData::Text("héllo".to_string()).size(), 6);
    assert_eq!(SavedData::Bytes(vec![1, 2, 3]).size(), 3);
    assert_eq!(SavedData::File("p".to_string(), 42).size(), 42);
}
