//! The saved form of a request: one record per resolved field, grouped by
//! field name in arrival order, together with the save directory that backs
//! any file records, and the partial counterpart capturing in-flight state
//! when a save stops early.

use vstd::prelude::*;
use vstd::utf8::encode_utf8;
use crate::save_result::{Collapse, SaveResult};
use crate::stream::FieldBody;

verus! {

/// The headers of one multipart field, reduced to the parts the save
/// pipeline carries along.
#[derive(Debug)]
pub struct FieldHeaders {
    /// The field's name.
    pub name: String,
    /// The original filename, if the field carried one.
    pub filename: Option<String>,
    /// The declared content type, if any, as written on the wire.
    pub content_type: Option<String>,
}

impl FieldHeaders {
    /// Headers carrying only a field name.
    pub fn named(name: String) -> (h: FieldHeaders)
        ensures
            h.name == name,
            h.filename is None,
            h.content_type is None,
    {
        FieldHeaders { name, filename: None, content_type: None }
    }
}

impl Clone for FieldHeaders {
    fn clone(&self) -> (h: Self)
        ensures
            h.name@ == self.name@,
            match (h.filename, self.filename) {
                (Some(a), Some(b)) => a@ == b@,
                (None, None) => true,
                _ => false,
            },
            match (h.content_type, self.content_type) {
                (Some(a), Some(b)) => a@ == b@,
                (None, None) => true,
                _ => false,
            },
    {
        FieldHeaders {
            name: self.name.clone(),
            filename: match &self.filename {
                Some(s) => Some(s.clone()),
                None => None,
            },
            content_type: match &self.content_type {
                Some(s) => Some(s.clone()),
                None => None,
            },
        }
    }
}

/// The resolved storage form of one field's content.
#[derive(Debug)]
pub enum SavedData {
    /// Content held in memory as decoded text.
    Text(String),
    /// Content held in memory as raw bytes.
    Bytes(Vec<u8>),
    /// Content written to the filesystem: the destination path and the
    /// byte count written there.
    File(String, u64),
}

impl SavedData {
    /// The byte count of the stored content.
    pub open spec fn spec_size(&self) -> nat {
        match self {
            SavedData::Text(s) => encode_utf8(s@).len(),
            SavedData::Bytes(b) => b@.len(),
            SavedData::File(_, size) => *size as nat,
        }
    }

    /// The size of this data as written: the string or buffer length for
    /// in-memory content, the recorded byte count for a file.
    pub fn size(&self) -> (n: u64)
        ensures
            self is File ==> n == self.spec_size(),
            self.spec_size() <= usize::MAX ==> n == self.spec_size(),
    {
        match self {
            SavedData::Text(s) => s.as_str().len() as u64,
            SavedData::Bytes(b) => b.len() as u64,
            SavedData::File(_, size) => *size,
        }
    }
}

impl Collapse<SavedData> for SavedData {
    open spec fn collapse_view(&self) -> SavedData {
        *self
    }

    fn collapse(self) -> SavedData {
        self
    }
}

/// One persisted record: the field's headers and its resolved content.
#[derive(Debug)]
pub struct SavedField {
    /// The headers of the field that was saved.
    pub headers: FieldHeaders,
    /// The field's content, in memory or on the filesystem.
    pub data: SavedData,
}

/// The save directory backing the file records of one save operation:
/// either temporary (removed when its owner releases it without `keep`) or
/// permanent (left on the filesystem).
#[derive(Debug)]
pub enum SaveDir {
    /// A temporary directory, removed with its contents when the owning
    /// handle is dropped, unless `keep` converts it first.
    Temp(String),
    /// A permanent directory, left on the filesystem.
    Perm(String),
}

impl SaveDir {
    /// The directory's path.
    pub open spec fn path_spec(&self) -> Seq<char> {
        match self {
            SaveDir::Temp(p) => p@,
            SaveDir::Perm(p) => p@,
        }
    }

    /// The path of this directory, temporary or permanent.
    pub fn as_path(&self) -> (p: &String)
        ensures
            p@ == self.path_spec(),
    {
        match self {
            SaveDir::Temp(p) => p,
            SaveDir::Perm(p) => p,
        }
    }

    /// Whether this directory is temporary and would be removed on release.
    pub fn is_temporary(&self) -> (b: bool)
        ensures
            b == (*self is Temp),
    {
        match self {
            SaveDir::Temp(_) => true,
            SaveDir::Perm(_) => false,
        }
    }

    /// Unwrap the path; a temporary directory is thereby made permanent.
    pub fn into_path(self) -> (p: String)
        ensures
            p@ == self.path_spec(),
    {
        match self {
            SaveDir::Temp(p) => p,
            SaveDir::Perm(p) => p,
        }
    }

    /// Convert a temporary directory to a permanent one in place,
    /// preventing removal on release; a no-op on an already-permanent one.
    pub fn keep(&mut self)
        ensures
            *final(self) is Perm,
            final(self).path_spec() == old(self).path_spec(),
    {
        let p = self.as_path().clone();
        *self = SaveDir::Perm(p);
    }
}

/// The grouped view of saved records: one entry per field name, in first
/// arrival order, each holding that name's records in arrival order.
pub type Groups = Seq<(Seq<char>, Seq<SavedField>)>;

/// The index of `name` in the grouped view, or `-1` if absent.
pub open spec fn find_group(groups: Groups, name: Seq<char>) -> int
    decreases groups.len(),
{
    if groups.len() == 0 {
        -1
    } else if groups[0].0 == name {
        0
    } else if find_group(groups.skip(1), name) == -1 {
        -1
    } else {
        find_group(groups.skip(1), name) + 1
    }
}

/// What `find_group` finds: the first group carrying `name`, or `-1` when
/// no group does.
pub proof fn lemma_find_group_spec(groups: Groups, name: Seq<char>)
    ensures
        ({
            let r = find_group(groups, name);
            &&& (r == -1 ==> forall|j: int|
                0 <= j < groups.len() ==> (#[trigger] groups[j]).0 != name)
            &&& (r != -1 ==> 0 <= r < groups.len() && groups[r].0 == name && forall|j: int|
                0 <= j < r ==> (#[trigger] groups[j]).0 != name)
        }),
    decreases groups.len(),
{
    if groups.len() > 0 && groups[0].0 != name {
        lemma_find_group_spec(groups.skip(1), name);
        assert forall|j: int| 1 <= j < groups.len() implies (#[trigger] groups[j]) == groups.skip(
            1,
        )[j - 1] by {}
    }
}

/// The grouped view after appending one record under `name`: the record
/// joins its name's group, or opens a new group at the end.
pub open spec fn push_record(groups: Groups, name: Seq<char>, rec: SavedField) -> Groups {
    let i = find_group(groups, name);
    if i == -1 {
        groups.push((name, seq![rec]))
    } else {
        groups.update(i, (groups[i].0, groups[i].1.push(rec)))
    }
}

/// The fields of a multipart request saved to memory or to the save
/// directory, grouped by field name.
#[derive(Debug)]
pub struct Entries {
    /// The saved records, one entry per field name in first arrival order.
    /// Each group is non-empty unless externally modified.
    pub fields: Vec<(String, Vec<SavedField>)>,
    /// The directory backing any file records.
    pub save_dir: SaveDir,
}

impl Entries {
    /// The grouped view of the saved records.
    pub open spec fn groups(&self) -> Groups {
        Seq::new(self.fields@.len(), |i: int| (self.fields@[i].0@, self.fields@[i].1@))
    }

    /// Group names are distinct and no group is empty.
    pub open spec fn wf(&self) -> bool {
        &&& forall|i: int, j: int|
            0 <= i < j < self.groups().len() ==> (#[trigger] self.groups()[i]).0 != (
            #[trigger] self.groups()[j]).0
        &&& forall|i: int| 0 <= i < self.groups().len() ==> (#[trigger] self.groups()[i]).1.len() > 0
    }

    /// An empty set of entries backed by the given save directory.
    pub fn new(save_dir: SaveDir) -> (en: Entries)
        ensures
            en.wf(),
            en.groups().len() == 0,
            en.save_dir == save_dir,
    {
        Entries { fields: Vec::new(), save_dir }
    }

    /// Whether nothing has been saved.
    pub fn is_empty(&self) -> (b: bool)
        ensures
            b == (self.groups().len() == 0),
    {
        self.fields.len() == 0
    }

    /// Append one record under its own field name, keeping groups in first
    /// arrival order and records within a group in arrival order.
    #[verifier::loop_isolation(false)]
    pub fn push_saved(&mut self, rec: SavedField)
        requires
            old(self).wf(),
        ensures
            final(self).wf(),
            final(self).save_dir == old(self).save_dir,
            final(self).groups() == push_record(old(self).groups(), rec.headers.name@, rec),
    {
        proof {
            lemma_find_group_spec(old(self).groups(), rec.headers.name@);
        }
        let ghost gname = rec.headers.name@;
        let n = self.fields.len();
        let mut i: usize = 0;
        while i < n
            invariant
                n == self.fields.len(),
                i <= n,
                *self == *old(self),
                gname == rec.headers.name@,
                forall|j: int| 0 <= j < i ==> (#[trigger] old(self).groups()[j]).0 != gname,
            decreases n - i,
        {
            if self.fields[i].0 == rec.headers.name {
                proof {
                    assert(old(self).groups()[i as int].0 == gname);
                    assert(find_group(old(self).groups(), gname) == i);
                }
                let mut pair = self.fields.remove(i);
                pair.1.push(rec);
                self.fields.insert(i, pair);
                proof {
                    assert(self.groups() =~~= push_record(old(self).groups(), gname, rec));
                    assert forall|k: int| 0 <= k < self.groups().len() implies (
                    #[trigger] self.groups()[k]).0 == old(self).groups()[k].0 by {}
                }
                return ;
            }
            i = i + 1;
        }
        proof {
            assert(find_group(old(self).groups(), gname) == -1);
        }
        let key = rec.headers.name.clone();
        let mut group: Vec<SavedField> = Vec::new();
        group.push(rec);
        self.fields.push((key, group));
        proof {
            assert(self.groups() =~~= push_record(old(self).groups(), gname, rec));
        }
    }
}

/// The field that was being read when a save operation quit, possibly with
/// a partially persisted record.
#[derive(Debug)]
pub struct PartialSavedField {
    /// The headers of the interrupted field.
    pub headers: FieldHeaders,
    /// The field's body as it stood when the save stopped; on a count-limit
    /// stop it is completely unconsumed.
    pub source: FieldBody,
    /// The partially persisted record, if the save got that far.
    pub dest: Option<SavedField>,
}

/// The partial result of a whole-request save: everything saved before the
/// stop, plus the field that was in flight, if any.
#[derive(Debug)]
pub struct PartialEntries {
    /// The entries that were saved successfully.
    pub entries: Entries,
    /// The field being read when the save stopped; `None` if the stop came
    /// between fields.
    pub partial_field: Option<PartialSavedField>,
}

impl PartialEntries {
    /// If the in-flight field left a partially persisted record, keep it:
    /// append it to the entries. Otherwise return the entries as they are.
    /// Keeping is caller-opt-in because a half-written file may be unwanted.
    pub fn keep_partial(self) -> (en: Entries)
        requires
            self.entries.wf(),
        ensures
            en.wf(),
            en.save_dir == self.entries.save_dir,
            match self.partial_field {
                Some(pf) => match pf.dest {
                    Some(sf) => en.groups() == push_record(
                        self.entries.groups(),
                        sf.headers.name@,
                        sf,
                    ),
                    None => en == self.entries,
                },
                None => en == self.entries,
            },
    {
        let PartialEntries { mut entries, partial_field } = self;
        if let Some(pf) = partial_field {
            if let Some(sf) = pf.dest {
                entries.push_saved(sf);
            }
        }
        entries
    }
}

impl Collapse<Entries> for PartialEntries {
    open spec fn collapse_view(&self) -> Entries {
        self.entries
    }

    fn collapse(self) -> Entries {
        self.entries
    }
}

/// The outcome of a whole-request save.
pub type EntriesSaveResult = SaveResult<Entries, PartialEntries>;

/// The outcome of saving one field's content.
pub type FieldSaveResult = SaveResult<SavedData, SavedData>;

impl SaveResult<Entries, PartialEntries> {
    /// Take the entries, complete or partial, discarding any error.
    pub fn into_entries(self) -> (r: Option<Entries>)
        ensures
            match self {
                SaveResult::Full(en) => r == Some(en),
                SaveResult::Partial(pe, _) => r == Some(pe.entries),
                SaveResult::Error(_) => r is None,
            },
    {
        match self {
            SaveResult::Full(en) => Some(en),
            SaveResult::Partial(pe, _) => Some(pe.entries),
            SaveResult::Error(_) => None,
        }
    }
}

} // verus!
