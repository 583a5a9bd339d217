//! The save pipeline: a builder holding the configuration (limits, memory
//! threshold, text policy), the per-field memory/disk classifier, and the
//! whole-request orchestrator that pulls fields from a field source and
//! assembles the saved entries.

use vstd::prelude::*;
use vstd::utf8::{decode_utf8, valid_utf8};
use crate::ioerr::{IoError, IoErrorKind};
use crate::save_result::{PartialReason, SaveResult};
use crate::stream::{
    script_advanced, surfaced_from, try_copy_buf, try_copy_limited, try_write_all, ByteSink,
    FieldBody, FillStep, WriteStep,
};
use crate::entries::{
    push_record, Entries, EntriesSaveResult, FieldSaveResult, Groups, PartialEntries,
    PartialSavedField, SavedData, SavedField,
};
use crate::source::{FieldSource, ReadFieldResult, SourceItem, SpillFactory};

verus! {

/// How apparently-textual field content is treated once it is fully
/// buffered in memory.
#[derive(Clone, Copy, Debug, PartialEq, Eq, Structural)]
pub enum TextPolicy {
    /// Attempt to decode as UTF-8, falling back to raw bytes on failure.
    Try,
    /// Attempt to decode as UTF-8, reporting invalid content as an error.
    Force,
    /// Never decode; keep raw bytes.
    Ignore,
}

/// The default byte cutoff below which field content stays in memory.
pub const DEFAULT_MEMORY_THRESHOLD: usize = 8 * 1024 * 1024;

/// The configuration of one save operation.
#[derive(Clone, Copy, Debug)]
pub struct SaveParams {
    /// Most bytes persisted per file field; exceeding it truncates the
    /// field (a partial result, not an error).
    pub size_limit: Option<u64>,
    /// Most file fields processed per request; the field exceeding it is
    /// left unread.
    pub count_limit: Option<u32>,
    /// Byte cutoff below which content stays in memory.
    pub memory_threshold: usize,
    /// How fully buffered content is decoded.
    pub text_policy: TextPolicy,
}

/// Whether the size limit is set and lies under the memory threshold; such
/// a field is bounded in memory and never touches the filesystem.
pub open spec fn lim_under(p: SaveParams) -> bool {
    match p.size_limit {
        Some(l) => (l as int) < (p.memory_threshold as int),
        None => false,
    }
}

/// Whether content of this length spills to the filesystem.
pub open spec fn spills(p: SaveParams, len: int) -> bool {
    !lim_under(p) && len > p.memory_threshold as int
}

/// Whether content of this length is within the configured size limit.
pub open spec fn within_size(p: SaveParams, len: int) -> bool {
    match p.size_limit {
        Some(l) => len <= l as int,
        None => true,
    }
}

/// Whether content of this length fits the phase-one memory buffer (the
/// size limit when it lies under the threshold, else the threshold).
pub open spec fn mem_fits(p: SaveParams, len: int) -> bool {
    if lim_under(p) {
        within_size(p, len)
    } else {
        len <= p.memory_threshold as int
    }
}

/// Whether saving a field with this content completes fully: the content
/// is within the size limit, and under a forced decode any content that
/// resolves in memory is valid UTF-8.
pub open spec fn field_succeeds(p: SaveParams, content: Seq<u8>) -> bool {
    &&& within_size(p, content.len() as int)
    &&& (!spills(p, content.len() as int) && p.text_policy == TextPolicy::Force ==> valid_utf8(
        content,
    ))
}

/// How fully buffered content resolves in memory under the text policy.
pub open spec fn resolves_mem(policy: TextPolicy, content: Seq<u8>, r: FieldSaveResult) -> bool {
    match policy {
        TextPolicy::Try => match r {
            SaveResult::Full(SavedData::Text(s)) => valid_utf8(content) && s@ == decode_utf8(
                content,
            ),
            SaveResult::Full(SavedData::Bytes(b)) => !valid_utf8(content) && b@ == content,
            _ => false,
        },
        TextPolicy::Force => match r {
            SaveResult::Full(SavedData::Text(s)) => valid_utf8(content) && s@ == decode_utf8(
                content,
            ),
            SaveResult::Error(e) => !valid_utf8(content) && e.kind == IoErrorKind::InvalidData,
            _ => false,
        },
        TextPolicy::Ignore => match r {
            SaveResult::Full(SavedData::Bytes(b)) => b@ == content,
            _ => false,
        },
    }
}

/// What a fully saved field's data looks like for the given content:
/// resolved in memory under the text policy, or written out as a file of
/// exactly the content's size.
pub open spec fn full_file_data(p: SaveParams, content: Seq<u8>, d: SavedData) -> bool {
    if !spills(p, content.len() as int) {
        &&& mem_fits(p, content.len() as int)
        &&& match p.text_policy {
            TextPolicy::Try => match d {
                SavedData::Text(s) => valid_utf8(content) && s@ == decode_utf8(content),
                SavedData::Bytes(b) => !valid_utf8(content) && b@ == content,
                SavedData::File(_, _) => false,
            },
            TextPolicy::Force => match d {
                SavedData::Text(s) => valid_utf8(content) && s@ == decode_utf8(content),
                _ => false,
            },
            TextPolicy::Ignore => match d {
                SavedData::Bytes(b) => b@ == content,
                _ => false,
            },
        }
    } else {
        &&& within_size(p, content.len() as int)
        &&& match d {
            SavedData::File(_, sz) => sz == content.len(),
            _ => false,
        }
    }
}

/// Relies on `String::from_utf8`: it returns `Ok` exactly when the bytes
/// are valid UTF-8, with the string decoding those bytes, and its error
/// hands the bytes back unchanged (`FromUtf8Error::into_bytes`).
#[verifier::external_body]
pub(crate) fn bytes_to_text(bytes: Vec<u8>) -> (r: Result<String, Vec<u8>>)
    ensures
        match r {
            Ok(s) => valid_utf8(bytes@) && s@ == decode_utf8(bytes@),
            Err(b) => !valid_utf8(bytes@) && b@ == bytes@,
        },
{
    match String::from_utf8(bytes) {
        Ok(s) => Ok(s),
        Err(e) => Err(e.into_bytes()),
    }
}

/// A lazily created destination that a spilling field is written to. It is
/// not ready until `create` opens it; creating establishes an empty file.
pub trait SpillTarget: ByteSink {
    /// The destination path this target writes to.
    spec fn path(&self) -> Seq<char>;

    /// Whether creating the destination is guaranteed to succeed.
    spec fn create_ok(&self) -> bool;

    fn create(&mut self) -> (r: Result<(), IoError>)
        requires
            !old(self).ready(),
        ensures
            final(self).path() == old(self).path(),
            old(self).reliable() ==> final(self).reliable(),
            final(self).create_ok() == old(self).create_ok(),
            final(self).budget() <= old(self).budget(),
            match r {
                Ok(_) => final(self).ready() && final(self).written() == Seq::<u8>::empty(),
                Err(_) => !final(self).ready(),
            },
            (r is Ok) == old(self).create_ok(),
    ;

    fn path_string(&self) -> (s: String)
        ensures
            s@ == self.path(),
    ;
}

/// An in-memory spill target, holding what a destination file would hold.
#[derive(Debug)]
pub struct MemTarget {
    path: String,
    created: bool,
    data: Vec<u8>,
    create_fault: Option<IoErrorKind>,
}

impl MemTarget {
    /// A target at the given path whose creation succeeds.
    pub fn new(path: String) -> (t: MemTarget)
        ensures
            !t.ready(),
            t.reliable(),
            t.create_ok(),
            t.path() == path@,
            t.written() == Seq::<u8>::empty(),
    {
        MemTarget { path, created: false, data: Vec::new(), create_fault: None }
    }

    /// A target whose creation fails with the given error kind.
    pub fn failing(path: String, kind: IoErrorKind) -> (t: MemTarget)
        ensures
            !t.ready(),
            t.reliable(),
            !t.create_ok(),
            t.path() == path@,
    {
        MemTarget { path, created: false, data: Vec::new(), create_fault: Some(kind) }
    }

    /// The bytes written to the destination.
    pub fn contents(&self) -> (b: &Vec<u8>)
        ensures
            b@ == self.written(),
    {
        &self.data
    }

    /// Whether the destination was created.
    pub fn is_created(&self) -> (b: bool)
        ensures
            b == self.ready(),
    {
        self.created
    }
}

impl ByteSink for MemTarget {
    closed spec fn written(&self) -> Seq<u8> {
        self.data@
    }

    closed spec fn ready(&self) -> bool {
        self.created
    }

    open spec fn reliable(&self) -> bool {
        true
    }

    open spec fn budget(&self) -> nat {
        0
    }

    open spec fn pending(&self) -> Seq<WriteStep> {
        Seq::empty()
    }

    fn write(&mut self, buf: &[u8]) -> (r: Result<usize, IoError>) {
        let n = buf.len();
        let mut i: usize = 0;
        while i < n
            invariant
                i <= n == buf@.len(),
                self.data@ == old(self).data@ + buf@.take(i as int),
                self.created == old(self).created,
                old(self).created,
                self.path == old(self).path,
                self.create_fault == old(self).create_fault,
            decreases n - i,
        {
            self.data.push(buf[i]);
            i = i + 1;
            proof {
                assert(old(self).data@ + buf@.take(i - 1) + seq![buf@[i - 1]] =~= old(self).data@
                    + buf@.take(i as int));
            }
        }
        proof {
            assert(buf@.take(n as int) =~= buf@);
        }
        Ok(n)
    }
}

impl SpillTarget for MemTarget {
    closed spec fn path(&self) -> Seq<char> {
        self.path@
    }

    closed spec fn create_ok(&self) -> bool {
        self.create_fault is None
    }

    fn create(&mut self) -> (r: Result<(), IoError>) {
        match self.create_fault {
            Some(k) => Err(IoError::new(k)),
            None => {
                self.created = true;
                self.data = Vec::new();
                Ok(())
            }
        }
    }

    fn path_string(&self) -> (s: String) {
        self.path.clone()
    }
}

/// A builder for saving a field or a whole request, holding the field
/// source or body to save and the configuration to save it under.
#[derive(Debug)]
pub struct SaveBuilder<S> {
    savable: S,
    params: SaveParams,
}

impl<S> SaveBuilder<S> {
    /// What is being saved.
    pub closed spec fn inner(&self) -> S {
        self.savable
    }

    /// The configuration the save runs under.
    pub closed spec fn params(&self) -> SaveParams {
        self.params
    }

    /// A builder over `savable` with the default configuration: no limits,
    /// the default memory threshold, and UTF-8 decoding attempted.
    pub fn new(savable: S) -> (b: SaveBuilder<S>)
        ensures
            b.inner() == savable,
            b.params() == (SaveParams {
                size_limit: None,
                count_limit: None,
                memory_threshold: DEFAULT_MEMORY_THRESHOLD,
                text_policy: TextPolicy::Try,
            }),
    {
        SaveBuilder {
            savable,
            params: SaveParams {
                size_limit: None,
                count_limit: None,
                memory_threshold: DEFAULT_MEMORY_THRESHOLD,
                text_policy: TextPolicy::Try,
            },
        }
    }

    /// Set or clear the maximum number of bytes persisted per file field.
    pub fn size_limit(self, limit: Option<u64>) -> (b: Self)
        ensures
            b.inner() == self.inner(),
            b.params() == (SaveParams { size_limit: limit, ..self.params() }),
    {
        SaveBuilder { params: SaveParams { size_limit: limit, ..self.params }, ..self }
    }

    /// Set the byte cutoff at which a field switches from memory to disk.
    /// `0` sends every file field to the filesystem; `usize::MAX`
    /// effectively keeps every field in memory.
    pub fn memory_threshold(self, memory_threshold: usize) -> (b: Self)
        ensures
            b.inner() == self.inner(),
            b.params() == (SaveParams { memory_threshold, ..self.params() }),
    {
        SaveBuilder { params: SaveParams { memory_threshold, ..self.params }, ..self }
    }

    /// Decode apparently-textual content as UTF-8 where possible, keeping
    /// raw bytes otherwise.
    pub fn try_text(self) -> (b: Self)
        ensures
            b.inner() == self.inner(),
            b.params() == (SaveParams { text_policy: TextPolicy::Try, ..self.params() }),
    {
        SaveBuilder { params: SaveParams { text_policy: TextPolicy::Try, ..self.params }, ..self }
    }

    /// Decode apparently-textual content as UTF-8, reporting an error on
    /// invalid content.
    pub fn force_text(self) -> (b: Self)
        ensures
            b.inner() == self.inner(),
            b.params() == (SaveParams { text_policy: TextPolicy::Force, ..self.params() }),
    {
        SaveBuilder { params: SaveParams { text_policy: TextPolicy::Force, ..self.params }, ..self }
    }

    /// Never decode field content; keep raw bytes.
    pub fn ignore_text(self) -> (b: Self)
        ensures
            b.inner() == self.inner(),
            b.params() == (SaveParams { text_policy: TextPolicy::Ignore, ..self.params() }),
    {
        SaveBuilder { params: SaveParams { text_policy: TextPolicy::Ignore, ..self.params }, ..self }
    }

    /// The same configuration over a different savable.
    fn fork<T>(&self, savable: T) -> (b: SaveBuilder<T>)
        ensures
            b.inner() == savable,
            b.params() == self.params(),
    {
        SaveBuilder { savable, params: self.params }
    }
}

impl SaveBuilder<FieldBody> {
    /// Write the body out to `dest`, truncating at the size limit if one is
    /// set, retrying on interrupts. Returns the bytes copied, and on the
    /// size limit whether the body had more.
    pub fn write_to<W: ByteSink>(&mut self, dest: &mut W) -> (r: SaveResult<u64, u64>)
        requires
            old(dest).ready(),
        ensures
            final(self).params() == old(self).params(),
            final(dest).ready(),
            old(self).inner().remaining().len() <= usize::MAX,
            old(self).inner().clean() ==> final(self).inner().clean(),
            old(dest).reliable() ==> final(dest).reliable(),
            script_advanced(old(self).inner().fills(), final(self).inner().fills(), false),
            ({
                let content = old(self).inner().remaining();
                let lim = old(self).params().size_limit;
                match r {
                    SaveResult::Full(n) => {
                        &&& n == content.len()
                        &&& within_size(old(self).params(), n as int)
                        &&& final(self).inner().remaining().len() == 0
                        &&& final(dest).written() == old(dest).written() + content
                    },
                    SaveResult::Partial(n, reason) => {
                        &&& n <= content.len()
                        &&& final(self).inner().remaining() == content.skip(n as int)
                        &&& final(dest).written() == old(dest).written() + content.take(n as int)
                        &&& match reason {
                            PartialReason::SizeLimit => lim == Some(n) && content.len() > n,
                            PartialReason::IoError(e) => e.kind != IoErrorKind::Interrupted
                                && surfaced_from(
                                old(self).inner().fills(),
                                e.kind,
                                old(dest).reliable(),
                            ) && !(old(self).inner().clean() && old(dest).reliable()),
                            PartialReason::CountLimit => false,
                        }
                    },
                    SaveResult::Error(e) => {
                        &&& final(self).inner().remaining() == content
                        &&& final(dest).written() == old(dest).written()
                        &&& e.kind != IoErrorKind::Interrupted
                        &&& surfaced_from(old(self).inner().fills(), e.kind, old(dest).reliable())
                        &&& !(old(self).inner().clean() && old(dest).reliable())
                    },
                }
            }),
    {
        match self.params.size_limit {
            Some(limit) => try_copy_limited(&mut self.savable, dest, limit),
            None => try_copy_buf(&mut self.savable, dest),
        }
    }

    /// Phase one of the classifier: buffer the body into memory, bounded by
    /// the size limit when it lies under the memory threshold, else by the
    /// threshold. Returns the buffer and whether the body fit in it fully.
    pub fn save_mem(&mut self) -> (r: SaveResult<(Vec<u8>, bool), Vec<u8>>)
        ensures
            final(self).params() == old(self).params(),
            old(self).inner().remaining().len() <= usize::MAX,
            old(self).inner().clean() ==> final(self).inner().clean(),
            script_advanced(old(self).inner().fills(), final(self).inner().fills(), false),
            ({
                let p = old(self).params();
                let content = old(self).inner().remaining();
                match r {
                    SaveResult::Full((bytes, fully)) => {
                        &&& (fully ==> bytes@ == content && final(self).inner().remaining().len()
                            == 0 && mem_fits(p, content.len() as int))
                        &&& (!fully ==> !lim_under(p) && bytes@ == content.take(
                            p.memory_threshold as int,
                        ) && content.len() > p.memory_threshold && final(self).inner().remaining()
                            == content.skip(p.memory_threshold as int))
                    },
                    SaveResult::Partial(bytes, reason) => match reason {
                        PartialReason::SizeLimit => {
                            &&& lim_under(p)
                            &&& match p.size_limit {
                                Some(l) => bytes@ == content.take(l as int) && content.len() > l
                                    && final(self).inner().remaining() == content.skip(l as int),
                                None => false,
                            }
                        },
                        PartialReason::IoError(e) => {
                            &&& e.kind != IoErrorKind::Interrupted
                            &&& surfaced_from(old(self).inner().fills(), e.kind, true)
                            &&& !old(self).inner().clean()
                            &&& bytes@.len() <= content.len()
                            &&& bytes@ == content.take(bytes@.len() as int)
                            &&& final(self).inner().remaining() == content.skip(
                                bytes@.len() as int,
                            )
                        },
                        PartialReason::CountLimit => false,
                    },
                    SaveResult::Error(e) => {
                        &&& e.kind != IoErrorKind::Interrupted
                        &&& surfaced_from(old(self).inner().fills(), e.kind, true)
                        &&& !old(self).inner().clean()
                        &&& final(self).inner().remaining() == content
                    },
                }
            }),
    {
        let mut bytes: Vec<u8> = Vec::new();
        let bounded_by_limit = match self.params.size_limit {
            Some(l) => l < self.params.memory_threshold as u64,
            None => false,
        };
        if bounded_by_limit {
            return match self.write_to(&mut bytes) {
                SaveResult::Full(_) => SaveResult::Full((bytes, true)),
                SaveResult::Partial(_, reason) => SaveResult::Partial(bytes, reason),
                SaveResult::Error(e) => SaveResult::Error(e),
            };
        }
        match try_copy_limited(&mut self.savable, &mut bytes, self.params.memory_threshold as u64) {
            SaveResult::Full(_) => SaveResult::Full((bytes, true)),
            SaveResult::Partial(_, reason) => match reason {
                PartialReason::SizeLimit => SaveResult::Full((bytes, false)),
                other => SaveResult::Partial(bytes, other),
            },
            SaveResult::Error(e) => SaveResult::Error(e),
        }
    }

    /// Save the body: buffer into memory, resolve there under the text
    /// policy if it fit, else create `dest` and spill — writing the buffer
    /// first, then streaming the rest, counting the buffered bytes against
    /// the size limit. The destination is not touched unless the body
    /// spills; on a size-limit truncation exactly the limit is consumed and
    /// the rest of the body is left in place.
    pub fn with_path<D: SpillTarget>(&mut self, dest: &mut D) -> (r: FieldSaveResult)
        requires
            !old(dest).ready(),
        ensures
            final(self).params() == old(self).params(),
            old(self).inner().clean() ==> final(self).inner().clean(),
            !spills(old(self).params(), old(self).inner().remaining().len() as int) ==> *final(dest)
                == *old(dest),
            (old(self).inner().clean() && (spills(
                old(self).params(),
                old(self).inner().remaining().len() as int,
            ) ==> old(dest).reliable() && old(dest).create_ok())) ==> clean_field_save(
                old(self).params(),
                old(self).inner().remaining(),
                r,
                *final(dest),
            ),
            ({
                let p = old(self).params();
                let content = old(self).inner().remaining();
                &&& ((old(self).inner().clean() && old(dest).reliable() && !old(dest).create_ok()
                    && spills(p, content.len() as int)) ==> r is Error)
                &&& match r {
                    SaveResult::Full(d) => {
                        &&& full_file_data(p, content, d)
                        &&& final(self).inner().remaining().len() == 0
                        &&& match d {
                            SavedData::File(path, _) => path@ == old(dest).path()
                                && final(dest).ready(),
                            _ => true,
                        }
                    },
                    SaveResult::Partial(d, reason) => match reason {
                        PartialReason::SizeLimit => {
                            &&& !within_size(p, content.len() as int)
                            &&& match (p.size_limit, d) {
                                (Some(l), SavedData::Bytes(b)) => lim_under(p) && b@
                                    == content.take(l as int) && final(self).inner().remaining()
                                    == content.skip(l as int),
                                (Some(l), SavedData::File(path, sz)) => sz == l && path@ == old(
                                    dest,
                                ).path() && final(dest).ready() && final(dest).written()
                                    == content.take(l as int) && final(self).inner().remaining()
                                    == content.skip(l as int),
                                _ => false,
                            }
                        },
                        PartialReason::IoError(e) => {
                            &&& e.kind != IoErrorKind::Interrupted
                            &&& surfaced_from(old(self).inner().fills(), e.kind, old(dest).reliable())
                            &&& !(old(self).inner().clean() && old(dest).reliable())
                            &&& (exists|k: int|
                                0 <= k <= content.len() && final(self).inner().remaining()
                                    == content.skip(k))
                            &&& match d {
                                SavedData::Text(_) => false,
                                SavedData::Bytes(b) => b@ == content.take(b@.len() as int)
                                    && *final(dest) == *old(dest),
                                SavedData::File(path, sz) => path@ == old(dest).path()
                                    && final(dest).ready() && sz <= content.len()
                                    && final(dest).written() == content.take(sz as int),
                            }
                        },
                        PartialReason::CountLimit => false,
                    },
                    SaveResult::Error(e) => {
                        &&& !(old(self).inner().clean() && old(dest).reliable() && old(
                            dest,
                        ).create_ok() && field_succeeds(p, content))
                        &&& (final(dest).ready() ==> final(dest).written().len() == 0)
                        &&& (exists|k: int|
                            0 <= k <= content.len() && final(self).inner().remaining()
                                == content.skip(k))
                        &&& {
                            ||| (e.kind != IoErrorKind::Interrupted && exists|j: int|
                                0 <= j < old(self).inner().fills().len() && old(
                                    self,
                                ).inner().fills()[j] == FillStep::Fail(e.kind))
                            ||| (e.kind == IoErrorKind::InvalidData && p.text_policy
                                == TextPolicy::Force)
                            ||| !old(dest).create_ok()
                            ||| !old(dest).reliable()
                        }
                    },
                }
            }),
    {
        let (bytes, fully) = match self.save_mem() {
            SaveResult::Full(pair) => pair,
            SaveResult::Partial(bytes, reason) => {
                proof {
                    let content0 = old(self).inner().remaining();
                    assert(match reason {
                        PartialReason::IoError(_) => self.inner().remaining() == content0.skip(
                            bytes@.len() as int,
                        ),
                        _ => true,
                    });
                }
                return SaveResult::Partial(SavedData::Bytes(bytes), reason);
            }
            SaveResult::Error(e) => {
                proof {
                    assert(self.inner().remaining() == old(self).inner().remaining().skip(0));
                }
                return SaveResult::Error(e);
            }
        };
        if fully {
            return match self.params.text_policy {
                TextPolicy::Try => match bytes_to_text(bytes) {
                    Ok(s) => SaveResult::Full(SavedData::Text(s)),
                    Err(b) => SaveResult::Full(SavedData::Bytes(b)),
                },
                TextPolicy::Force => match bytes_to_text(bytes) {
                    Ok(s) => SaveResult::Full(SavedData::Text(s)),
                    Err(_) => {
                        proof {
                            let content0 = old(self).inner().remaining();
                            assert(self.inner().remaining() =~= content0.skip(
                                content0.len() as int,
                            ));
                        }
                        SaveResult::Error(IoError::new(IoErrorKind::InvalidData))
                    },
                },
                TextPolicy::Ignore => SaveResult::Full(SavedData::Bytes(bytes)),
            };
        }
        // spill: create the destination, flush the buffer, stream the rest
        let ghost content = old(self).inner().remaining();
        let ghost fills0 = old(self).inner().fills();
        proof {
            assert(content.len() <= usize::MAX);
        }
        let dest_path = dest.path_string();
        proof {
            assert(self.inner().remaining() == content.skip(bytes@.len() as int));
        }
        match dest.create() {
            Ok(_) => {}
            Err(e) => {
                return SaveResult::Error(e);
            }
        }
        let buffered = bytes.len();
        match try_write_all(bytes.as_slice(), dest) {
            SaveResult::Full(_) => {}
            SaveResult::Partial(n, reason) => {
                proof {
                    assert(Seq::<u8>::empty() + bytes@.take(n as int) =~= content.take(n as int));
                    assert(content.skip(buffered as int) =~= content.skip(buffered as int));
                }
                return SaveResult::Partial(SavedData::File(dest_path, n as u64), reason);
            }
            SaveResult::Error(e) => {
                return SaveResult::Error(e);
            }
        }
        proof {
            assert(Seq::<u8>::empty() + bytes@ =~= content.take(buffered as int));
        }
        let ghost fills_mid = self.savable.fills();
        let res = match self.params.size_limit {
            Some(l) => try_copy_limited(&mut self.savable, dest, l - buffered as u64),
            None => try_copy_buf(&mut self.savable, dest),
        };
        proof {
            // lift a read-side failure's script witness through phase one
            if match res {
                SaveResult::Partial(_, PartialReason::IoError(_)) => true,
                SaveResult::Error(_) => true,
                _ => false,
            } && old(dest).reliable() {
                let k = choose|k: int| 0 <= k <= fills0.len() && fills_mid == fills0.skip(k);
                let kind = match res {
                    SaveResult::Partial(_, PartialReason::IoError(e)) => e.kind,
                    SaveResult::Error(e) => e.kind,
                    _ => IoErrorKind::Other,
                };
                let j = choose|j: int|
                    0 <= j < fills_mid.len() && fills_mid[j] == FillStep::Fail(kind);
                assert(fills0.skip(k)[j] == fills0[k + j]);
            }
        }
        match res {
            SaveResult::Full(streamed) => {
                proof {
                    assert(content.take(buffered as int) + content.skip(buffered as int)
                        =~= content);
                }
                SaveResult::Full(SavedData::File(dest_path, buffered as u64 + streamed))
            }
            SaveResult::Partial(streamed, reason) => {
                proof {
                    assert(content.take(buffered as int) + content.skip(buffered as int).take(
                        streamed as int,
                    ) =~= content.take(buffered + streamed));
                    assert(content.skip(buffered as int).skip(streamed as int) =~= content.skip(
                        buffered + streamed,
                    ));
                }
                SaveResult::Partial(
                    SavedData::File(dest_path.clone(), buffered as u64 + streamed),
                    reason,
                )
            }
            SaveResult::Error(e) => SaveResult::Partial(
                SavedData::File(dest_path, buffered as u64),
                PartialReason::IoError(e),
            ),
        }
    }
}

impl SaveBuilder<FieldBody> {
    /// Save the body against an in-memory destination at the given path
    /// and hand the destination back, for callers outside the verified
    /// world that persist its contents themselves.
    pub fn with_mem_target(&mut self, path: String) -> (r: (FieldSaveResult, MemTarget))
        ensures
            final(self).params() == old(self).params(),
            old(self).inner().clean() ==> clean_field_save(
                old(self).params(),
                old(self).inner().remaining(),
                r.0,
                r.1,
            ),
            !spills(old(self).params(), old(self).inner().remaining().len() as int) ==> !r.1.ready(),
            match r.0 {
                SaveResult::Full(d) => full_file_data(
                    old(self).params(),
                    old(self).inner().remaining(),
                    d,
                ),
                _ => true,
            },
    {
        let mut target = MemTarget::new(path);
        let r = self.with_path(&mut target);
        (r, target)
    }
}

/// What a clean save of one field produces, given that the body reads
/// without failure and the destination is reliable and creatable: the
/// exact result and the exact destination state.
pub open spec fn clean_field_save<D: SpillTarget>(
    p: SaveParams,
    content: Seq<u8>,
    r: FieldSaveResult,
    dest: D,
) -> bool {
    if !spills(p, content.len() as int) {
        if lim_under(p) && !within_size(p, content.len() as int) {
            match (p.size_limit, r) {
                (Some(l), SaveResult::Partial(SavedData::Bytes(b), reason)) => reason
                    == PartialReason::SizeLimit && b@ == content.take(l as int),
                _ => false,
            }
        } else {
            resolves_mem(p.text_policy, content, r)
        }
    } else {
        &&& dest.ready()
        &&& if within_size(p, content.len() as int) {
            &&& dest.written() == content
            &&& match r {
                SaveResult::Full(SavedData::File(_, sz)) => sz == content.len(),
                _ => false,
            }
        } else {
            match (p.size_limit, r) {
                (Some(l), SaveResult::Partial(SavedData::File(_, sz), reason)) => {
                    &&& reason == PartialReason::SizeLimit
                    &&& sz == l
                    &&& dest.written() == content.take(l as int)
                },
                _ => false,
            }
        }
    }
}


/// The number of file fields among the events.
pub open spec fn file_count(evs: Seq<SourceItem>) -> int
    decreases evs.len(),
{
    if evs.len() == 0 {
        0
    } else {
        (if evs[0] is File {
            1int
        } else {
            0int
        }) + file_count(evs.skip(1))
    }
}

/// Whether the number of file fields among the events is within the
/// configured count limit.
pub open spec fn within_count(p: SaveParams, evs: Seq<SourceItem>) -> bool {
    match p.count_limit {
        Some(k) => file_count(evs) <= k as int,
        None => true,
    }
}

/// Whether one event saves fully: a text field always does; a file field
/// does when its body reads cleanly and its content is within the limits;
/// a source failure never does.
pub open spec fn event_succeeds(p: SaveParams, ev: SourceItem) -> bool {
    match ev {
        SourceItem::Text(_, _) => true,
        SourceItem::File(_, b) => b.clean() && field_succeeds(p, b.remaining()),
        SourceItem::Broken(_) => false,
    }
}

/// Whether every event saves fully.
pub open spec fn all_succeed(p: SaveParams, evs: Seq<SourceItem>) -> bool {
    forall|i: int| 0 <= i < evs.len() ==> event_succeeds(p, #[trigger] evs[i])
}

/// A fully saved record for content under the given save directory: its
/// data matches the content under the configuration, and a file record's
/// path lies under the directory.
pub open spec fn full_record_in(p: SaveParams, dir: Seq<char>, content: Seq<u8>, d: SavedData) -> bool {
    &&& full_file_data(p, content, d)
    &&& match d {
        SavedData::File(path, _) => dir.is_prefix_of(path@),
        _ => true,
    }
}

/// The grouped entries `g1` are `g0` extended by one record per event, in
/// event order: a text field contributes its value as text, and a file
/// field contributes data matching its content under the configuration,
/// any file among them under the save directory `dir`.
pub open spec fn saved_all(
    p: SaveParams,
    dir: Seq<char>,
    evs: Seq<SourceItem>,
    g0: Groups,
    g1: Groups,
) -> bool
    decreases evs.len(),
{
    if evs.len() == 0 {
        g1 == g0
    } else {
        match evs[0] {
            SourceItem::Text(h, s) => saved_all(
                p,
                dir,
                evs.skip(1),
                push_record(g0, h.name@, SavedField { headers: h, data: SavedData::Text(s) }),
                g1,
            ),
            SourceItem::File(h, b) => exists|d: SavedData|
                #[trigger] full_record_in(p, dir, b.remaining(), d) && saved_all(
                    p,
                    dir,
                    evs.skip(1),
                    push_record(g0, h.name@, SavedField { headers: h, data: d }),
                    g1,
                ),
            SourceItem::Broken(_) => false,
        }
    }
}

/// What a partial whole-request save left behind: the first `i` events are
/// saved into the partial entries, and the stop at event `i` matches the
/// reason — the count limit leaves the field's body completely unconsumed,
/// the size limit leaves a truncated record of exactly the limit's size,
/// and an I/O failure names the broken source, or an interrupted field
/// whose error is accounted for: a failure the body's fill script holds,
/// an invalid forced decode, or a flawed destination.
pub open spec fn partial_stop(
    p: SaveParams,
    dir: Seq<char>,
    evs: Seq<SourceItem>,
    g0: Groups,
    pe: PartialEntries,
    reason: PartialReason,
    flawless: bool,
    i: int,
) -> bool {
    &&& 0 <= i <= evs.len()
    &&& saved_all(p, dir, evs.take(i), g0, pe.entries.groups())
    &&& match reason {
        PartialReason::CountLimit => {
            &&& i < evs.len()
            &&& match p.count_limit {
                Some(k) => file_count(evs.take(i)) == k as int,
                None => false,
            }
            &&& match (evs[i], pe.partial_field) {
                (SourceItem::File(h, b), Some(pf)) => pf.headers == h && pf.source == b
                    && pf.dest is None,
                _ => false,
            }
        },
        PartialReason::SizeLimit => {
            &&& i < evs.len()
            &&& match (evs[i], pe.partial_field) {
                (SourceItem::File(h, b), Some(pf)) => {
                    &&& pf.headers == h
                    &&& match p.size_limit {
                        Some(l) => {
                            &&& b.remaining().len() > l
                            &&& pf.source.remaining() == b.remaining().skip(l as int)
                            &&& match pf.dest {
                                Some(sf) => sf.headers.name@ == h.name@ && match sf.data {
                                    SavedData::Bytes(bb) => bb@ == b.remaining().take(l as int),
                                    SavedData::File(path, sz) => sz == l && dir.is_prefix_of(
                                        path@,
                                    ),
                                    SavedData::Text(_) => false,
                                },
                                None => false,
                            }
                        },
                        None => false,
                    }
                },
                _ => false,
            }
        },
        PartialReason::IoError(e) => {
            &&& i < evs.len()
            &&& match evs[i] {
                SourceItem::Broken(e2) => e2 == e && pe.partial_field is None,
                SourceItem::File(h, b) => {
                    &&& !(b.clean() && flawless && field_succeeds(p, b.remaining()))
                    &&& {
                        ||| (e.kind != IoErrorKind::Interrupted && exists|j: int|
                            0 <= j < b.fills().len() && b.fills()[j] == FillStep::Fail(e.kind))
                        ||| (e.kind == IoErrorKind::InvalidData && p.text_policy
                            == TextPolicy::Force)
                        ||| !flawless
                    }
                    &&& match pe.partial_field {
                        Some(pf) => {
                            &&& pf.headers == h
                            &&& (exists|k: int|
                                0 <= k <= b.remaining().len() && pf.source.remaining()
                                    == b.remaining().skip(k))
                            &&& match pf.dest {
                                Some(sf) => {
                                    &&& e.kind != IoErrorKind::Interrupted
                                    &&& sf.headers.name@ == h.name@
                                    &&& match sf.data {
                                        SavedData::Text(_) => false,
                                        SavedData::Bytes(bb) => bb@ == b.remaining().take(
                                            bb@.len() as int,
                                        ),
                                        SavedData::File(path, sz) => sz <= b.remaining().len()
                                            && dir.is_prefix_of(path@),
                                    }
                                },
                                None => true,
                            }
                        },
                        None => false,
                    }
                },
                SourceItem::Text(_, _) => false,
            }
        },
    }
}

/// A partial outcome stopped at some event, as `partial_stop` describes.
pub open spec fn stopped(
    p: SaveParams,
    dir: Seq<char>,
    evs: Seq<SourceItem>,
    g0: Groups,
    pe: PartialEntries,
    reason: PartialReason,
    flawless: bool,
) -> bool {
    exists|i: int| partial_stop(p, dir, evs, g0, pe, reason, flawless, i)
}

/// The file count is a count: at least zero, at most the event count.
pub proof fn lemma_file_count_bounds(evs: Seq<SourceItem>)
    ensures
        0 <= file_count(evs) <= evs.len(),
    decreases evs.len(),
{
    if evs.len() > 0 {
        lemma_file_count_bounds(evs.skip(1));
    }
}

/// Appending one event grows the file count by one exactly for a file.
pub proof fn lemma_file_count_push(evs: Seq<SourceItem>, ev: SourceItem)
    ensures
        file_count(evs.push(ev)) == file_count(evs) + (if ev is File {
            1int
        } else {
            0int
        }),
    decreases evs.len(),
{
    if evs.len() == 0 {
        assert(evs.push(ev)[0] == ev);
        assert(evs.push(ev).skip(1) =~= Seq::<SourceItem>::empty());
        assert(file_count(Seq::<SourceItem>::empty()) == 0);
    } else {
        lemma_file_count_push(evs.skip(1), ev);
        assert(evs.push(ev)[0] == evs[0]);
        assert(evs.push(ev).skip(1) =~= evs.skip(1).push(ev));
        assert(file_count(evs.push(ev)) == (if evs[0] is File {
            1int
        } else {
            0int
        }) + file_count(evs.skip(1).push(ev)));
    }
}

/// The file count splits across any cut of the events.
pub proof fn lemma_file_count_split(evs: Seq<SourceItem>, i: int)
    requires
        0 <= i <= evs.len(),
    ensures
        file_count(evs) == file_count(evs.take(i)) + file_count(evs.skip(i)),
    decreases i,
{
    if i == 0 {
        assert(evs.take(0) =~= Seq::<SourceItem>::empty());
        assert(evs.skip(0) =~= evs);
    } else {
        lemma_file_count_split(evs.skip(1), i - 1);
        assert(evs.skip(1).take(i - 1) =~= evs.take(i).skip(1));
        assert(evs.skip(1).skip(i - 1) =~= evs.skip(i));
        assert(evs.take(i)[0] == evs[0]);
    }
}

/// Extending a saved prefix by one more saved event keeps it saved: the
/// new record joins the groups under its own field name.
pub proof fn lemma_saved_all_push(
    p: SaveParams,
    dir: Seq<char>,
    evs: Seq<SourceItem>,
    ev: SourceItem,
    rec: SavedField,
    g0: Groups,
    g1: Groups,
)
    requires
        saved_all(p, dir, evs, g0, g1),
        match ev {
            SourceItem::Text(h, s) => rec == SavedField { headers: h, data: SavedData::Text(s) },
            SourceItem::File(h, b) => rec.headers == h && full_record_in(
                p,
                dir,
                b.remaining(),
                rec.data,
            ),
            SourceItem::Broken(_) => false,
        },
    ensures
        saved_all(p, dir, evs.push(ev), g0, push_record(g1, rec.headers.name@, rec)),
    decreases evs.len(),
{
    let g2 = push_record(g1, rec.headers.name@, rec);
    if evs.len() == 0 {
        assert(g1 == g0);
        assert(evs.push(ev)[0] == ev);
        assert(evs.push(ev).skip(1) =~= Seq::<SourceItem>::empty());
        match ev {
            SourceItem::Text(h, s) => {
                assert(saved_all(p, dir, evs.push(ev).skip(1), push_record(g0, h.name@, rec), g2));
                assert(saved_all(p, dir, evs.push(ev), g0, g2));
            },
            SourceItem::File(h, b) => {
                let d = rec.data;
                assert(rec == SavedField { headers: h, data: d });
                assert(saved_all(
                    p,
                    dir,
                    evs.push(ev).skip(1),
                    push_record(g0, h.name@, SavedField { headers: h, data: d }),
                    g2,
                ));
                assert(full_record_in(p, dir, b.remaining(), d) && saved_all(
                    p,
                    dir,
                    evs.push(ev).skip(1),
                    push_record(g0, h.name@, SavedField { headers: h, data: d }),
                    g2,
                ));
            },
            SourceItem::Broken(_) => {},
        }
    } else {
        assert(evs.push(ev)[0] == evs[0]);
        assert(evs.push(ev).skip(1) =~= evs.skip(1).push(ev));
        match evs[0] {
            SourceItem::Text(h0, s0) => {
                lemma_saved_all_push(
                    p,
                    dir,
                    evs.skip(1),
                    ev,
                    rec,
                    push_record(g0, h0.name@, SavedField { headers: h0, data: SavedData::Text(s0) }),
                    g1,
                );
            },
            SourceItem::File(h0, b0) => {
                let d0 = choose|d: SavedData|
                    #[trigger] full_record_in(p, dir, b0.remaining(), d) && saved_all(
                        p,
                        dir,
                        evs.skip(1),
                        push_record(g0, h0.name@, SavedField { headers: h0, data: d }),
                        g1,
                    );
                lemma_saved_all_push(
                    p,
                    dir,
                    evs.skip(1),
                    ev,
                    rec,
                    push_record(g0, h0.name@, SavedField { headers: h0, data: d0 }),
                    g1,
                );
                assert(full_record_in(p, dir, b0.remaining(), d0) && saved_all(
                    p,
                    dir,
                    evs.push(ev).skip(1),
                    push_record(g0, h0.name@, SavedField { headers: h0, data: d0 }),
                    g2,
                ));
            },
            SourceItem::Broken(_) => {},
        }
    }
}

impl<S: FieldSource> SaveBuilder<S> {
    /// Set or clear the maximum number of file fields processed per
    /// request.
    pub fn count_limit(self, limit: Option<u32>) -> (b: Self)
        ensures
            b.inner() == self.inner(),
            b.params() == (SaveParams { count_limit: limit, ..self.params() }),
    {
        SaveBuilder { params: SaveParams { count_limit: limit, ..self.params }, ..self }
    }

    /// Save the whole request: pull fields one at a time, in delivery
    /// order; append each text field directly; run each file field through
    /// the classifier with a fresh destination made by the factory under
    /// the save directory, handing every destination back through
    /// `spilled`. A field past the count limit is not touched: the save
    /// stops first, leaving that body completely unconsumed for the
    /// caller. Within one field name, records append in arrival order.
    #[verifier::loop_isolation(false)]
    #[verifier::rlimit(60)]
    pub fn with_entries<D: SpillTarget, F: SpillFactory<D>>(
        self,
        entries: Entries,
        factory: &mut F,
        spilled: &mut Vec<D>,
    ) -> (r: EntriesSaveResult)
        requires
            entries.wf(),
        ensures
            final(factory).flawless() == old(factory).flawless(),
            old(spilled)@.is_prefix_of(final(spilled)@),
            !(r is Error),
            (old(factory).flawless() && all_succeed(self.params(), self.inner().events())
                && within_count(self.params(), self.inner().events())) ==> r is Full,
            (old(factory).flawless() && all_succeed(self.params(), self.inner().events())
                && !within_count(self.params(), self.inner().events())) ==> (r matches
            SaveResult::Partial(_, PartialReason::CountLimit)),
            match r {
                SaveResult::Full(en) => {
                    &&& en.wf()
                    &&& en.save_dir == entries.save_dir
                    &&& within_count(self.params(), self.inner().events())
                    &&& final(spilled)@.len() == old(spilled)@.len() + file_count(
                        self.inner().events(),
                    )
                    &&& saved_all(
                        self.params(),
                        entries.save_dir.path_spec(),
                        self.inner().events(),
                        entries.groups(),
                        en.groups(),
                    )
                },
                SaveResult::Partial(pe, reason) => {
                    &&& pe.entries.wf()
                    &&& pe.entries.save_dir == entries.save_dir
                    &&& stopped(
                        self.params(),
                        entries.save_dir.path_spec(),
                        self.inner().events(),
                        entries.groups(),
                        pe,
                        reason,
                        old(factory).flawless(),
                    )
                },
                SaveResult::Error(_) => false,
            },
    {
        let mut this = self;
        let ghost p = this.params;
        let ghost all_events = this.savable.events();
        let ghost g0 = entries.groups();
        let ghost flaw0 = factory.flawless();
        let ghost sd0 = entries.save_dir;
        let ghost dirg = entries.save_dir.path_spec();
        let mut entries = entries;
        let mut count: u64 = 0;
        let ghost mut done: int = 0;
        proof {
            this.savable.lemma_events_bounded();
            assert(all_events.take(0) =~= Seq::<SourceItem>::empty());
            assert(all_events.skip(0) =~= all_events);
        }
        loop
            invariant
                0 <= done <= all_events.len(),
                all_events.len() <= u64::MAX,
                this.params == p,
                this.savable.events() == all_events.skip(done),
                entries.wf(),
                entries.save_dir == sd0,
                saved_all(p, dirg, all_events.take(done), g0, entries.groups()),
                count as int == file_count(all_events.take(done)),
                match p.count_limit {
                    Some(k) => count <= k as u64,
                    None => true,
                },
                factory.flawless() == flaw0,
                old(spilled)@.is_prefix_of(spilled@),
                spilled@.len() == old(spilled)@.len() + file_count(all_events.take(done)),
            decreases all_events.len() - done,
        {
            proof {
                if done < all_events.len() {
                    assert(all_events.skip(done)[0] == all_events[done]);
                }
            }
            match this.savable.read_field() {
                ReadFieldResult::End => {
                    proof {
                        assert(all_events.take(done) =~= all_events);
                    }
                    return SaveResult::Full(entries);
                }
                ReadFieldResult::Failed(e) => {
                    proof {
                        assert(all_events[done] == SourceItem::Broken(e));
                        assert(!event_succeeds(p, all_events[done]));
                    }
                    let pe = PartialEntries { entries, partial_field: None };
                    proof {
                        assert(partial_stop(
                            p,
                            dirg,
                            all_events,
                            g0,
                            pe,
                            PartialReason::IoError(e),
                            flaw0,
                            done,
                        ));
                        assert(stopped(p, dirg, all_events, g0, pe, PartialReason::IoError(e), flaw0));
                    }
                    return SaveResult::Partial(pe, PartialReason::IoError(e));
                }
                ReadFieldResult::Text(h, s) => {
                    let ghost ev = all_events[done];
                    proof {
                        assert(ev == SourceItem::Text(h, s));
                    }
                    let rec = SavedField { headers: h, data: SavedData::Text(s) };
                    let ghost gprev = entries.groups();
                    entries.push_saved(rec);
                    proof {
                        lemma_saved_all_push(p, dirg, all_events.take(done), ev, rec, g0, gprev);
                        assert(all_events.take(done + 1) =~= all_events.take(done).push(ev));
                        lemma_file_count_push(all_events.take(done), ev);
                        done = done + 1;
                    }
                }
                ReadFieldResult::File(h, b) => {
                    let ghost ev = all_events[done];
                    let ghost gb = b;
                    proof {
                        assert(ev == SourceItem::File(h, b));
                    }
                    let stop = match this.params.count_limit {
                        Some(k) => count >= k as u64,
                        None => false,
                    };
                    if stop {
                        let pe = PartialEntries {
                            entries,
                            partial_field: Some(
                                PartialSavedField { headers: h, source: b, dest: None },
                            ),
                        };
                        proof {
                            lemma_file_count_split(all_events, done);
                            lemma_file_count_bounds(all_events.skip(done).skip(1));
                            assert(all_events.skip(done)[0] == ev);
                            assert(file_count(all_events.skip(done)) == 1 + file_count(
                                all_events.skip(done).skip(1),
                            ));
                            assert(!within_count(p, all_events));
                            assert(partial_stop(
                                p,
                                dirg,
                                all_events,
                                g0,
                                pe,
                                PartialReason::CountLimit,
                                flaw0,
                                done,
                            ));
                            assert(stopped(
                                p,
                                dirg,
                                all_events,
                                g0,
                                pe,
                                PartialReason::CountLimit,
                                flaw0,
                            ));
                        }
                        return SaveResult::Partial(pe, PartialReason::CountLimit);
                    }
                    proof {
                        lemma_file_count_bounds(all_events.take(done));
                    }
                    count = count + 1;
                    let mut target = factory.make_target(entries.save_dir.as_path());
                    let mut field_builder = this.fork(b);
                    let res = field_builder.with_path(&mut target);
                    let SaveBuilder { savable: body_after, params: _ } = field_builder;
                    proof {
                        assert(spilled@.push(target).subrange(0, old(spilled)@.len() as int)
                            =~= spilled@.subrange(0, old(spilled)@.len() as int));
                    }
                    spilled.push(target);
                    match res {
                        SaveResult::Full(d) => {
                            let rec = SavedField { headers: h, data: d };
                            let ghost gprev = entries.groups();
                            entries.push_saved(rec);
                            proof {
                                assert(full_record_in(p, dirg, gb.remaining(), rec.data));
                                lemma_saved_all_push(
                                    p,
                                    dirg,
                                    all_events.take(done),
                                    ev,
                                    rec,
                                    g0,
                                    gprev,
                                );
                                assert(all_events.take(done + 1) =~= all_events.take(done).push(
                                    ev,
                                ));
                                lemma_file_count_push(all_events.take(done), ev);
                                done = done + 1;
                            }
                        }
                        SaveResult::Partial(d, reason) => {
                            let hdrs = h.clone();
                            let sf = SavedField { headers: hdrs, data: d };
                            let pe = PartialEntries {
                                entries,
                                partial_field: Some(
                                    PartialSavedField {
                                        headers: h,
                                        source: body_after,
                                        dest: Some(sf),
                                    },
                                ),
                            };
                            proof {
                                if reason is SizeLimit {
                                    assert(!field_succeeds(p, gb.remaining()));
                                    assert(!event_succeeds(p, ev));
                                }
                                if reason is IoError {
                                    if flaw0 {
                                        assert(!gb.clean());
                                        assert(!event_succeeds(p, ev));
                                    }
                                }
                                assert(partial_stop(
                                    p,
                                    dirg,
                                    all_events,
                                    g0,
                                    pe,
                                    reason,
                                    flaw0,
                                    done,
                                ));
                                assert(stopped(p, dirg, all_events, g0, pe, reason, flaw0));
                            }
                            return SaveResult::Partial(pe, reason);
                        }
                        SaveResult::Error(e) => {
                            let pe = PartialEntries {
                                entries,
                                partial_field: Some(
                                    PartialSavedField {
                                        headers: h,
                                        source: body_after,
                                        dest: None,
                                    },
                                ),
                            };
                            proof {
                                if flaw0 && gb.clean() {
                                    assert(!field_succeeds(p, gb.remaining()));
                                }
                                assert(!event_succeeds(p, ev) || !flaw0);
                                assert(partial_stop(
                                    p,
                                    dirg,
                                    all_events,
                                    g0,
                                    pe,
                                    PartialReason::IoError(e),
                                    flaw0,
                                    done,
                                ));
                                assert(stopped(
                                    p,
                                    dirg,
                                    all_events,
                                    g0,
                                    pe,
                                    PartialReason::IoError(e),
                                    flaw0,
                                ));
                            }
                            return SaveResult::Partial(pe, PartialReason::IoError(e));
                        }
                    }
                }
            }
        }
    }
}

} // verus!



