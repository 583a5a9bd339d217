//! Streaming primitives: a buffered field body with fill/consume semantics,
//! a byte-sink abstraction for the destinations a copy can write to, and the
//! bounded and unbounded copy loops with interrupt retry and partial-write
//! detection.

use vstd::prelude::*;
use vstd::slice::slice_subrange;
use crate::ioerr::{IoError, IoErrorKind};
use crate::save_result::{PartialReason, SaveResult};

verus! {

/// One scripted outcome for a single `fill` call on a `FieldBody`.
/// `Fail(IoErrorKind::Interrupted)` models the transient signal that the
/// copy loops retry; any other kind is a hard read failure.
#[derive(Clone, Copy, Debug, PartialEq, Eq, Structural)]
pub enum FillStep {
    /// The next buffered chunk is handed out normally.
    Read,
    /// The fill call fails with this error kind.
    Fail(IoErrorKind),
}

/// Whether a scripted fill outcome lets the copy proceed (a normal read, or
/// a transient interrupt that is retried).
pub open spec fn benign(s: FillStep) -> bool {
    match s {
        FillStep::Read => true,
        FillStep::Fail(k) => k == IoErrorKind::Interrupted,
    }
}

/// One field's body: an in-memory byte stream with buffered-read semantics
/// (fill hands out a chunk without consuming it; consume advances), plus a
/// script of per-fill outcomes so that transient interrupts and hard read
/// failures can be driven through the copy loops.
#[derive(Debug)]
pub struct FieldBody {
    data: Vec<u8>,
    pos: usize,
    chunk: usize,
    script: Vec<FillStep>,
    si: usize,
}

impl FieldBody {
    #[verifier::type_invariant]
    pub closed spec fn inv(self) -> bool {
        &&& self.pos <= self.data.len()
        &&& self.chunk >= 1
        &&& self.si <= self.script.len()
    }

    /// The bytes not yet consumed.
    pub closed spec fn remaining(&self) -> Seq<u8> {
        self.data@.skip(self.pos as int)
    }

    /// The scripted outcomes still ahead of the coming `fill` calls; once
    /// the script runs out every fill succeeds.
    pub closed spec fn fills(&self) -> Seq<FillStep> {
        self.script@.skip(self.si as int)
    }

    /// No hard read failure is scripted ahead.
    pub open spec fn clean(&self) -> bool {
        forall|i: int| 0 <= i < self.fills().len() ==> benign(#[trigger] self.fills()[i])
    }

    /// The buffer size a successful fill hands out at most.
    pub closed spec fn chunk_size(&self) -> int {
        self.chunk as int
    }

    /// How many bytes the next successful fill hands out.
    pub open spec fn head_size(&self) -> int {
        if self.remaining().len() <= self.chunk_size() {
            self.remaining().len() as int
        } else {
            self.chunk_size()
        }
    }

    /// A body that yields the given bytes in one chunk, with no scripted
    /// failures.
    pub fn from_bytes(data: Vec<u8>) -> (b: FieldBody)
        ensures
            b.remaining() == data@,
            b.fills().len() == 0,
            b.clean(),
    {
        let chunk = if data.len() == 0 { 1 } else { data.len() };
        FieldBody { data, pos: 0, chunk, script: Vec::new(), si: 0 }
    }

    /// A body that yields the given bytes in chunks of at most `chunk`
    /// bytes (`0` is treated as `1`), with the given fill script.
    pub fn scripted(data: Vec<u8>, chunk: usize, script: Vec<FillStep>) -> (b: FieldBody)
        ensures
            b.remaining() == data@,
            b.fills() == script@,
    {
        let chunk = if chunk == 0 { 1 } else { chunk };
        FieldBody { data, pos: 0, chunk, script, si: 0 }
    }

    /// The number of bytes not yet consumed.
    pub fn len(&self) -> (n: usize)
        ensures
            n == self.remaining().len(),
    {
        proof {
            use_type_invariant(self);
        }
        self.data.len() - self.pos
    }

    /// Hand out the next chunk without consuming it. An empty buffer means
    /// the body is exhausted. A scripted failure is consumed by the call
    /// that reports it.
    pub fn fill(&mut self) -> (r: Result<Vec<u8>, IoError>)
        ensures
            final(self).remaining() == old(self).remaining(),
            final(self).chunk_size() == old(self).chunk_size(),
            final(self).fills() == if old(self).fills().len() > 0 {
                old(self).fills().skip(1)
            } else {
                old(self).fills()
            },
            old(self).clean() ==> final(self).clean(),
            match r {
                Ok(buf) => {
                    &&& buf@ == old(self).remaining().take(old(self).head_size())
                    &&& (buf@.len() == 0) == (old(self).remaining().len() == 0)
                    &&& (old(self).fills().len() == 0 || old(self).fills()[0] is Read)
                },
                Err(e) => {
                    &&& old(self).fills().len() > 0
                    &&& old(self).fills()[0] == FillStep::Fail(e.kind)
                },
            },
    {
        proof {
            use_type_invariant(&*self);
        }
        if self.si < self.script.len() {
            let step = self.script[self.si];
            self.si = self.si + 1;
            proof {
                assert(old(self).fills()[0] == step);
                assert(final(self).fills() =~= old(self).fills().skip(1));
            }
            match step {
                FillStep::Read => {}
                FillStep::Fail(k) => {
                    return Err(IoError::new(k));
                }
            }
        } else {
            proof {
                assert(final(self).fills() =~= old(self).fills());
            }
        }
        let end = if self.data.len() - self.pos <= self.chunk {
            self.data.len()
        } else {
            self.pos + self.chunk
        };
        let mut out: Vec<u8> = Vec::new();
        let mut i = self.pos;
        while i < end
            invariant
                self.pos <= i <= end <= self.data.len(),
                out@ == self.data@.subrange(self.pos as int, i as int),
            decreases end - i,
        {
            out.push(self.data[i]);
            i = i + 1;
        }
        proof {
            assert(out@ =~= old(self).remaining().take(old(self).head_size()));
        }
        Ok(out)
    }

    /// Consume `amt` bytes from the front of the body.
    pub fn consume(&mut self, amt: usize)
        requires
            amt <= old(self).remaining().len(),
        ensures
            final(self).remaining() == old(self).remaining().skip(amt as int),
            final(self).fills() == old(self).fills(),
            final(self).chunk_size() == old(self).chunk_size(),
            old(self).clean() ==> final(self).clean(),
    {
        proof {
            use_type_invariant(&*self);
        }
        self.pos = self.pos + amt;
        proof {
            assert(final(self).remaining() =~= old(self).remaining().skip(amt as int));
        }
    }
}

/// One scripted outcome for a single `write` call on a `ScriptedSink`.
#[derive(Clone, Copy, Debug, PartialEq, Eq, Structural)]
pub enum WriteStep {
    /// Accept at most this many bytes (zero models a stalled writer).
    Accept(usize),
    /// The write fails with this error kind.
    Fail(IoErrorKind),
}

/// A destination that bytes can be written to: each write consumes the
/// head of a script of pending outcomes (partial progress, a transient
/// interrupt, or a failure); once the script runs out, every write accepts
/// its whole buffer. A `reliable` sink is one that always accepts a whole
/// buffer.
pub trait ByteSink {
    /// All bytes durably written so far.
    spec fn written(&self) -> Seq<u8>;

    /// Whether the sink can currently accept writes.
    spec fn ready(&self) -> bool;

    /// Whether every coming write is guaranteed to accept its whole buffer.
    spec fn reliable(&self) -> bool;

    /// An upper bound on the transient interrupts the sink can still
    /// report; it never grows, so retry loops terminate.
    spec fn budget(&self) -> nat;

    /// The scripted outcomes still ahead of the coming `write` calls; once
    /// the script runs out every write accepts its whole buffer.
    spec fn pending(&self) -> Seq<WriteStep>;

    fn write(&mut self, buf: &[u8]) -> (r: Result<usize, IoError>)
        requires
            old(self).ready(),
        ensures
            final(self).ready(),
            old(self).reliable() ==> final(self).reliable(),
            final(self).budget() <= old(self).budget(),
            final(self).pending() == if old(self).pending().len() > 0 {
                old(self).pending().skip(1)
            } else {
                old(self).pending()
            },
            match r {
                Ok(n) => {
                    &&& n <= buf@.len()
                    &&& final(self).written() == old(self).written() + buf@.take(n as int)
                    &&& (old(self).pending().len() == 0 ==> n == buf@.len())
                    &&& (old(self).pending().len() > 0 ==> match old(self).pending()[0] {
                        WriteStep::Accept(c) => (c <= buf@.len() ==> n == c) && (c > buf@.len()
                            ==> n == buf@.len()),
                        WriteStep::Fail(_) => false,
                    })
                },
                Err(e) => {
                    &&& final(self).written() == old(self).written()
                    &&& (e.kind == IoErrorKind::Interrupted ==> final(self).budget() < old(
                        self,
                    ).budget())
                    &&& old(self).pending().len() > 0
                    &&& old(self).pending()[0] == WriteStep::Fail(e.kind)
                },
            },
            old(self).reliable() ==> match r {
                Ok(n) => n == buf@.len(),
                Err(_) => false,
            },
    ;
}

/// A plain growable buffer accepts every write in full.
impl ByteSink for Vec<u8> {
    open spec fn written(&self) -> Seq<u8> {
        self@
    }

    open spec fn ready(&self) -> bool {
        true
    }

    open spec fn reliable(&self) -> bool {
        true
    }

    open spec fn budget(&self) -> nat {
        0
    }

    open spec fn pending(&self) -> Seq<WriteStep> {
        Seq::empty()
    }

    fn write(&mut self, buf: &[u8]) -> (r: Result<usize, IoError>) {
        let n = buf.len();
        let mut i: usize = 0;
        while i < n
            invariant
                i <= n == buf@.len(),
                self@ == old(self)@ + buf@.take(i as int),
            decreases n - i,
        {
            self.push(buf[i]);
            i = i + 1;
            proof {
                assert(old(self)@ + buf@.take(i - 1) + seq![buf@[i - 1]] =~= old(self)@
                    + buf@.take(i as int));
            }
        }
        proof {
            assert(buf@.take(n as int) =~= buf@);
        }
        Ok(n)
    }
}

/// An in-memory sink with a script of per-write outcomes, so that partial
/// writes, interrupts and write failures can be driven through the copy
/// loops; once the script runs out every write is accepted in full.
#[derive(Debug)]
pub struct ScriptedSink {
    data: Vec<u8>,
    script: Vec<WriteStep>,
    si: usize,
}

impl ScriptedSink {
    /// A sink that applies the given outcomes to its first writes.
    pub fn new(script: Vec<WriteStep>) -> (s: ScriptedSink)
        ensures
            s.written() == Seq::<u8>::empty(),
            s.pending() == script@,
    {
        ScriptedSink { data: Vec::new(), script, si: 0 }
    }

    /// The bytes accepted so far.
    pub fn contents(&self) -> (b: &Vec<u8>)
        ensures
            b@ == self.written(),
    {
        &self.data
    }
}

impl ByteSink for ScriptedSink {
    closed spec fn written(&self) -> Seq<u8> {
        self.data@
    }

    open spec fn ready(&self) -> bool {
        true
    }

    closed spec fn reliable(&self) -> bool {
        self.si >= self.script.len()
    }

    closed spec fn budget(&self) -> nat {
        if self.si <= self.script.len() {
            (self.script.len() - self.si) as nat
        } else {
            0
        }
    }

    closed spec fn pending(&self) -> Seq<WriteStep> {
        if self.si <= self.script.len() {
            self.script@.skip(self.si as int)
        } else {
            Seq::empty()
        }
    }

    fn write(&mut self, buf: &[u8]) -> (r: Result<usize, IoError>) {
        if self.si < self.script.len() {
            let step = self.script[self.si];
            self.si = self.si + 1;
            proof {
                assert(old(self).pending()[0] == step);
                assert(self.pending() =~= old(self).pending().skip(1));
            }
            match step {
                WriteStep::Accept(cap) => {
                    let n = if cap <= buf.len() { cap } else { buf.len() };
                    let mut i: usize = 0;
                    while i < n
                        invariant
                            i <= n <= buf@.len(),
                            self.data@ == old(self).data@ + buf@.take(i as int),
                            self.script == old(self).script,
                            self.si == old(self).si + 1,
                        decreases n - i,
                    {
                        self.data.push(buf[i]);
                        i = i + 1;
                        proof {
                            assert(old(self).data@ + buf@.take(i - 1) + seq![buf@[i - 1]]
                                =~= old(self).data@ + buf@.take(i as int));
                        }
                    }
                    Ok(n)
                }
                WriteStep::Fail(k) => Err(IoError::new(k)),
            }
        } else {
            proof {
                assert(old(self).pending().len() == 0);
                assert(self.pending() =~= old(self).pending());
            }
            let n = buf.len();
            let mut i: usize = 0;
            while i < n
                invariant
                    i <= n == buf@.len(),
                    self.data@ == old(self).data@ + buf@.take(i as int),
                    self.script == old(self).script,
                    self.si == old(self).si,
                    self.si >= self.script.len(),
                decreases n - i,
            {
                self.data.push(buf[i]);
                i = i + 1;
                proof {
                    assert(old(self).data@ + buf@.take(i - 1) + seq![buf@[i - 1]]
                        =~= old(self).data@ + buf@.take(i as int));
                }
            }
            proof {
                assert(buf@.take(n as int) =~= buf@);
            }
            Ok(n)
        }
    }
}

/// A surfaced copy failure is accounted for: either the source's fill
/// script holds a failure of that kind, or the sink was not reliable.
pub open spec fn surfaced_from(fills: Seq<FillStep>, kind: IoErrorKind, sink_reliable: bool) -> bool {
    ||| exists|j: int| 0 <= j < fills.len() && fills[j] == FillStep::Fail(kind)
    ||| !sink_reliable
}

/// The fill script only advances: what is ahead afterwards is a suffix of
/// what was ahead before; with `only_benign`, every consumed outcome was
/// benign (a read, or a transient interrupt that was retried).
pub open spec fn script_advanced(
    pre: Seq<FillStep>,
    post: Seq<FillStep>,
    only_benign: bool,
) -> bool {
    exists|k: int|
        {
            &&& 0 <= k <= pre.len()
            &&& post == pre.skip(k)
            &&& (only_benign ==> forall|j: int| 0 <= j < k ==> benign(#[trigger] pre[j]))
        }
}

/// Write the whole buffer to `dest`, retrying transparently on interrupts
/// and re-issuing after partial writes. A write call reporting zero bytes
/// on a non-empty buffer is an unretryable short-write failure, synthesized
/// as `WriteZero`. The returned count says exactly how many bytes were
/// durably written.
pub fn try_write_all<W: ByteSink>(buf: &[u8], dest: &mut W) -> (r: SaveResult<usize, usize>)
    requires
        old(dest).ready(),
    ensures
        final(dest).ready(),
        old(dest).reliable() ==> final(dest).reliable(),
        (buf@.len() > 0 && old(dest).pending().len() > 0 && old(dest).pending()[0]
            == WriteStep::Accept(0)) ==> (match r {
            SaveResult::Error(e) => e.kind == IoErrorKind::WriteZero,
            _ => false,
        }),
        match r {
            SaveResult::Full(n) => {
                &&& n == buf@.len()
                &&& final(dest).written() == old(dest).written() + buf@
            },
            SaveResult::Partial(n, reason) => {
                &&& 0 < n < buf@.len()
                &&& final(dest).written() == old(dest).written() + buf@.take(n as int)
                &&& match reason {
                    PartialReason::IoError(e) => e.kind != IoErrorKind::Interrupted && (e.kind
                        == IoErrorKind::WriteZero || exists|j: int|
                        0 <= j < old(dest).pending().len() && old(dest).pending()[j]
                            == WriteStep::Fail(e.kind)),
                    _ => false,
                }
                &&& !old(dest).reliable()
            },
            SaveResult::Error(e) => {
                &&& final(dest).written() == old(dest).written()
                &&& e.kind != IoErrorKind::Interrupted
                &&& (e.kind == IoErrorKind::WriteZero || exists|j: int|
                    0 <= j < old(dest).pending().len() && old(dest).pending()[j]
                        == WriteStep::Fail(e.kind))
                &&& !old(dest).reliable()
            },
        },
{
    let mut total: usize = 0;
    let ghost mut wc: int = 0;
    proof {
        assert(dest.pending() =~= old(dest).pending().skip(0));
    }
    while total < buf.len()
        invariant
            dest.ready(),
            old(dest).reliable() ==> dest.reliable(),
            dest.budget() <= old(dest).budget(),
            total <= buf@.len(),
            dest.written() == old(dest).written() + buf@.take(total as int),
            0 <= wc <= old(dest).pending().len(),
            dest.pending() == old(dest).pending().skip(wc),
            (buf@.len() > 0 && old(dest).pending().len() > 0 && old(dest).pending()[0]
                == WriteStep::Accept(0)) ==> (wc == 0 && total == 0),
        decreases buf@.len() - total, dest.budget(),
    {
        let part = slice_subrange(buf, total, buf.len());
        let ghost pre_pending = dest.pending();
        let r0 = dest.write(part);
        proof {
            if pre_pending.len() > 0 {
                assert(old(dest).pending().skip(wc)[0] == old(dest).pending()[wc]);
                assert(old(dest).pending().skip(wc).skip(1) =~= old(dest).pending().skip(wc + 1));
                wc = wc + 1;
            }
        }
        match r0 {
            Ok(n) => {
                if n == 0 {
                    let e = IoError::new(IoErrorKind::WriteZero);
                    proof {
                        assert(dest.written() + part@.take(0) =~= dest.written());
                    }
                    if total == 0 {
                        proof {
                            assert(old(dest).written() + buf@.take(0) =~= old(
                                dest,
                            ).written());
                        }
                        return SaveResult::Error(e);
                    }
                    return SaveResult::Partial(total, PartialReason::IoError(e));
                }
                proof {
                    assert(old(dest).written() + buf@.take(total as int) + part@.take(n as int)
                        =~= old(dest).written() + buf@.take(total + n));
                }
                total = total + n;
            }
            Err(e) => {
                if e.kind() == IoErrorKind::Interrupted {
                    // transient: retry without losing the running count
                } else if total == 0 {
                    proof {
                        assert(old(dest).written() + buf@.take(0) =~= old(dest).written());
                    }
                    return SaveResult::Error(e);
                } else {
                    return SaveResult::Partial(total, PartialReason::IoError(e));
                }
            }
        }
    }
    proof {
        assert(buf@.take(total as int) =~= buf@);
    }
    SaveResult::Full(total)
}

/// Copy the whole body into `dest` through repeated fill/write/consume
/// rounds, retrying transparently on interrupts. The returned count says
/// exactly how many bytes were durably written even on failure.
pub fn try_copy_buf<W: ByteSink>(src: &mut FieldBody, dest: &mut W) -> (r: SaveResult<u64, u64>)
    requires
        old(dest).ready(),
    ensures
        final(dest).ready(),
        old(src).remaining().len() <= usize::MAX,
        old(src).clean() ==> final(src).clean(),
        old(dest).reliable() ==> final(dest).reliable(),
        match r {
            SaveResult::Full(n) => {
                &&& n == old(src).remaining().len()
                &&& final(src).remaining().len() == 0
                &&& final(dest).written() == old(dest).written() + old(src).remaining()
                &&& script_advanced(old(src).fills(), final(src).fills(), true)
            },
            SaveResult::Partial(n, reason) => {
                &&& script_advanced(old(src).fills(), final(src).fills(), false)
                &&& n <= old(src).remaining().len()
                &&& final(src).remaining() == old(src).remaining().skip(n as int)
                &&& final(dest).written() == old(dest).written() + old(src).remaining().take(
                    n as int,
                )
                &&& match reason {
                    PartialReason::IoError(e) => e.kind != IoErrorKind::Interrupted
                        && surfaced_from(old(src).fills(), e.kind, old(dest).reliable()),
                    _ => false,
                }
                &&& !(old(src).clean() && old(dest).reliable())
            },
            SaveResult::Error(e) => {
                &&& script_advanced(old(src).fills(), final(src).fills(), false)
                &&& final(src).remaining() == old(src).remaining()
                &&& final(dest).written() == old(dest).written()
                &&& e.kind != IoErrorKind::Interrupted
                &&& surfaced_from(old(src).fills(), e.kind, old(dest).reliable())
                &&& !(old(src).clean() && old(dest).reliable())
            },
        },
{
    let ghost all = old(src).remaining();
    let mut total: u64 = 0;
    proof {
        use_type_invariant(&*src);
        assert(all.take(0) =~= Seq::<u8>::empty());
        assert(old(dest).written() + all.take(0) =~= old(dest).written());
        assert(all.skip(0) =~= all);
        assert(src.fills() =~= old(src).fills().skip(0));
    }
    let ghost mut fc: int = 0;
    loop
        invariant
            dest.ready(),
            old(dest).reliable() ==> dest.reliable(),
            old(src).clean() ==> src.clean(),
            all == old(src).remaining(),
            total <= all.len() <= usize::MAX,
            src.remaining() == all.skip(total as int),
            dest.written() == old(dest).written() + all.take(total as int),
            0 <= fc <= old(src).fills().len(),
            src.fills() == old(src).fills().skip(fc),
            forall|j: int| 0 <= j < fc ==> benign(#[trigger] old(src).fills()[j]),
        decreases all.len() - total, src.fills().len() + dest.budget(),
    {
        let ghost pre_fills = src.fills();
        let buf = match src.fill() {
            Ok(b) => {
                proof {
                    if pre_fills.len() > 0 {
                        assert(old(src).fills()[fc] == pre_fills[0]);
                        assert(benign(old(src).fills()[fc]));
                        assert(old(src).fills().skip(fc).skip(1) =~= old(src).fills().skip(
                            fc + 1,
                        ));
                        fc = fc + 1;
                    }
                }
                b
            }
            Err(e) => {
                proof {
                    assert(old(src).fills().skip(fc)[0] == old(src).fills()[fc]);
                    assert(old(src).fills().skip(fc).skip(1) =~= old(src).fills().skip(fc + 1));
                    assert(old(src).fills()[fc] == FillStep::Fail(e.kind));
                    fc = fc + 1;
                }
                if e.kind() == IoErrorKind::Interrupted {
                    continue;
                }
                if total == 0 {
                    return SaveResult::Error(e);
                }
                return SaveResult::Partial(total, PartialReason::IoError(e));
            }
        };
        if buf.len() == 0 {
            proof {
                assert(all.take(total as int) =~= all);
            }
            return SaveResult::Full(total);
        }
        match try_write_all(buf.as_slice(), dest) {
            SaveResult::Full(copied) => {
                proof {
                    assert(buf@.take(copied as int) =~= buf@);
                    assert(all.take(total as int) + all.skip(total as int).take(copied as int)
                        =~= all.take(total + copied));
                    assert(all.skip(total as int).skip(copied as int) =~= all.skip(
                        total + copied,
                    ));
                }
                src.consume(copied);
                total = total + copied as u64;
            }
            SaveResult::Partial(copied, reason) => {
                proof {
                    assert(all.take(total as int) + all.skip(total as int).take(copied as int)
                        =~= all.take(total + copied));
                    assert(all.skip(total as int).skip(copied as int) =~= all.skip(
                        total + copied,
                    ));
                }
                src.consume(copied);
                total = total + copied as u64;
                return SaveResult::Partial(total, reason);
            }
            SaveResult::Error(e) => {
                return SaveResult::Partial(total, PartialReason::IoError(e));
            }
        }
    }
}

/// Copy at most `limit` bytes of the body into `dest`, then peek for one
/// more byte without consuming it: none left means the body ended exactly
/// within the limit (`Full`); more left means the field is truncated
/// (`Partial` with `SizeLimit`); a failed peek surfaces as an I/O error.
pub fn try_copy_limited<W: ByteSink>(src: &mut FieldBody, dest: &mut W, limit: u64) -> (r:
    SaveResult<u64, u64>)
    requires
        old(dest).ready(),
    ensures
        final(dest).ready(),
        old(src).remaining().len() <= usize::MAX,
        old(src).clean() ==> final(src).clean(),
        old(dest).reliable() ==> final(dest).reliable(),
        match r {
            SaveResult::Full(n) => {
                &&& n == old(src).remaining().len()
                &&& n <= limit
                &&& final(src).remaining().len() == 0
                &&& final(dest).written() == old(dest).written() + old(src).remaining()
                &&& script_advanced(old(src).fills(), final(src).fills(), true)
            },
            SaveResult::Partial(n, reason) => {
                &&& n <= limit
                &&& n <= old(src).remaining().len()
                &&& final(src).remaining() == old(src).remaining().skip(n as int)
                &&& final(dest).written() == old(dest).written() + old(src).remaining().take(
                    n as int,
                )
                &&& match reason {
                    PartialReason::SizeLimit => n == limit && old(src).remaining().len() > limit
                        && script_advanced(old(src).fills(), final(src).fills(), true),
                    PartialReason::IoError(e) => e.kind != IoErrorKind::Interrupted
                        && script_advanced(old(src).fills(), final(src).fills(), false)
                        && surfaced_from(old(src).fills(), e.kind, old(dest).reliable())
                        && !(old(src).clean() && old(dest).reliable()),
                    PartialReason::CountLimit => false,
                }
            },
            SaveResult::Error(e) => {
                &&& script_advanced(old(src).fills(), final(src).fills(), false)
                &&& final(src).remaining() == old(src).remaining()
                &&& final(dest).written() == old(dest).written()
                &&& e.kind != IoErrorKind::Interrupted
                &&& surfaced_from(old(src).fills(), e.kind, old(dest).reliable())
                &&& !(old(src).clean() && old(dest).reliable())
            },
        },
{
    let ghost all = old(src).remaining();
    let mut total: u64 = 0;
    proof {
        use_type_invariant(&*src);
        assert(old(dest).written() + all.take(0) =~= old(dest).written());
        assert(all.skip(0) =~= all);
        assert(src.fills() =~= old(src).fills().skip(0));
    }
    let ghost mut fc: int = 0;
    loop
        invariant
            dest.ready(),
            old(dest).reliable() ==> dest.reliable(),
            old(src).clean() ==> src.clean(),
            total <= limit,
            all == old(src).remaining(),
            total <= all.len() <= usize::MAX,
            src.remaining() == all.skip(total as int),
            dest.written() == old(dest).written() + all.take(total as int),
            0 <= fc <= old(src).fills().len(),
            src.fills() == old(src).fills().skip(fc),
            forall|j: int| 0 <= j < fc ==> benign(#[trigger] old(src).fills()[j]),
        decreases all.len() - total, src.fills().len() + dest.budget(),
    {
        let ghost pre_fills = src.fills();
        if total == limit {
            // limit reached: peek for one more byte without consuming
            return match src.fill() {
                Ok(buf) => {
                    proof {
                        if pre_fills.len() > 0 {
                            assert(old(src).fills()[fc] == pre_fills[0]);
                            assert(benign(old(src).fills()[fc]));
                            assert(old(src).fills().skip(fc).skip(1) =~= old(src).fills().skip(
                                fc + 1,
                            ));
                            fc = fc + 1;
                        }
                    }
                    if buf.len() == 0 {
                        proof {
                            assert(all.take(total as int) =~= all);
                        }
                        SaveResult::Full(total)
                    } else {
                        SaveResult::Partial(total, PartialReason::SizeLimit)
                    }
                }
                Err(e) => {
                    proof {
                        assert(old(src).fills()[fc] == FillStep::Fail(e.kind));
                        assert(src.fills() =~= old(src).fills().skip(fc + 1));
                        fc = fc + 1;
                    }
                    if e.kind() == IoErrorKind::Interrupted {
                        continue;
                    }
                    SaveResult::Partial(total, PartialReason::IoError(e))
                }
            };
        }
        let buf = match src.fill() {
            Ok(b) => {
                proof {
                    if pre_fills.len() > 0 {
                        assert(old(src).fills()[fc] == pre_fills[0]);
                        assert(benign(old(src).fills()[fc]));
                        assert(old(src).fills().skip(fc).skip(1) =~= old(src).fills().skip(
                            fc + 1,
                        ));
                        fc = fc + 1;
                    }
                }
                b
            }
            Err(e) => {
                proof {
                    assert(old(src).fills().skip(fc)[0] == old(src).fills()[fc]);
                    assert(old(src).fills().skip(fc).skip(1) =~= old(src).fills().skip(fc + 1));
                    assert(old(src).fills()[fc] == FillStep::Fail(e.kind));
                    fc = fc + 1;
                }
                if e.kind() == IoErrorKind::Interrupted {
                    continue;
                }
                if total == 0 {
                    return SaveResult::Error(e);
                }
                return SaveResult::Partial(total, PartialReason::IoError(e));
            }
        };
        if buf.len() == 0 {
            proof {
                assert(all.take(total as int) =~= all);
            }
            return SaveResult::Full(total);
        }
        let want: usize = if (buf.len() as u64) <= limit - total {
            buf.len()
        } else {
            (limit - total) as usize
        };
        let part = slice_subrange(buf.as_slice(), 0, want);
        proof {
            assert(part@ =~= src.remaining().take(want as int));
        }
        match try_write_all(part, dest) {
            SaveResult::Full(copied) => {
                proof {
                    assert(part@.take(copied as int) =~= part@);
                    assert(all.take(total as int) + all.skip(total as int).take(copied as int)
                        =~= all.take(total + copied));
                    assert(all.skip(total as int).skip(copied as int) =~= all.skip(
                        total + copied,
                    ));
                }
                src.consume(copied);
                total = total + copied as u64;
            }
            SaveResult::Partial(copied, reason) => {
                proof {
                    assert(part@.take(copied as int) =~= all.skip(total as int).take(
                        copied as int,
                    ));
                    assert(all.take(total as int) + all.skip(total as int).take(copied as int)
                        =~= all.take(total + copied));
                    assert(all.skip(total as int).skip(copied as int) =~= all.skip(
                        total + copied,
                    ));
                }
                src.consume(copied);
                total = total + copied as u64;
                return SaveResult::Partial(total, reason);
            }
            SaveResult::Error(e) => {
                return SaveResult::Partial(total, PartialReason::IoError(e));
            }
        }
    }
}

} // verus!
