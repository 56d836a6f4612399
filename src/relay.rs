//! The decisions of the duplex relay. One direction of a relay is a copy
//! loop: read a chunk, write all of it to the destination, report it to the
//! meter, and at the end of the stream half-close the destination. The
//! caller performs the I/O and hands each outcome back; the loop answers
//! with the next action. The fan-out policy decides which targets of a rule
//! take part in a connection.
use vstd::prelude::*;

verus! {

/// Where one direction of a relay stands.
#[derive(Clone, Copy, Debug, PartialEq, Eq, Structural)]
pub enum CopyPhase {
    /// Waiting for the next chunk from the source.
    Reading,
    /// Writing a chunk to the destination.
    Writing,
    /// Half-closing the destination.
    Closing,
    /// Finished.
    Done,
}

/// What the caller does next.
#[derive(Clone, Copy, Debug, PartialEq, Eq, Structural)]
pub enum CopyAction {
    /// Read up to a buffer of bytes from the source.
    Read,
    /// Write bytes `start..end` of the buffer of the last read.
    Write { start: usize, end: usize },
    /// Report this many bytes to the meter, then read.
    Report(usize),
    /// Shut down the write side of the destination.
    HalfClose,
}

/// How a half-close ended.
#[derive(Debug, PartialEq, Eq)]
pub enum CloseOutcome {
    Closed,
    /// The destination was no longer connected: as good as closed.
    NotConnected,
    Failed(String),
}

/// The errors of one direction of a relay: that of the copy loop and that
/// of the half-close, each if any.
#[derive(Debug, PartialEq, Eq)]
pub struct HandleForwardError {
    pub loop_error: Option<String>,
    pub shutdown_error: Option<String>,
}

/// One direction of a relay.
pub struct CopyLoop {
    phase: CopyPhase,
    chunk_len: usize,
    written: usize,
    loop_error: Option<String>,
    received: Ghost<Seq<u8>>,
    forwarded: Ghost<Seq<u8>>,
    chunk: Ghost<Seq<u8>>,
    reported: Ghost<int>,
}

impl CopyLoop {
    pub closed spec fn phase(&self) -> CopyPhase {
        self.phase
    }

    /// Every byte read from the source so far.
    pub closed spec fn received(&self) -> Seq<u8> {
        self.received@
    }

    /// Every byte written to the destination so far.
    pub closed spec fn forwarded(&self) -> Seq<u8> {
        self.forwarded@
    }

    /// The bytes of the current chunk still to be written.
    pub closed spec fn pending(&self) -> Seq<u8> {
        self.chunk@.subrange(self.written as int, self.chunk_len as int)
    }

    /// The length of the current chunk.
    pub closed spec fn chunk_size(&self) -> nat {
        self.chunk_len as nat
    }

    /// The bytes reported to the meter so far.
    pub closed spec fn reported(&self) -> int {
        self.reported@
    }

    /// The error of the copy loop, if it failed.
    pub closed spec fn loop_error(&self) -> Option<String> {
        self.loop_error
    }

    /// The bytes read are those written followed by those pending, and all
    /// written bytes but the current chunk's have been reported.
    pub closed spec fn wf(&self) -> bool {
        &&& self.written <= self.chunk_len
        &&& self.chunk@.len() == self.chunk_len
        &&& (self.phase == CopyPhase::Reading || (self.phase == CopyPhase::Closing
            && self.loop_error is None) ==> self.written == self.chunk_len)
        &&& self.received@ == self.forwarded@ + self.chunk@.subrange(
            self.written as int,
            self.chunk_len as int,
        )
        &&& (self.phase == CopyPhase::Writing ==> self.reported@ + self.written == self.forwarded@.len())
        &&& (self.phase == CopyPhase::Reading ==> self.reported@ == self.forwarded@.len())
        &&& (self.phase == CopyPhase::Closing && self.loop_error is None ==> self.reported@
            == self.forwarded@.len())
        &&& 0 <= self.reported@ <= self.forwarded@.len()
        &&& (self.phase == CopyPhase::Reading ==> self.loop_error is None)
        &&& (self.phase == CopyPhase::Writing ==> self.loop_error is None && self.written
            < self.chunk_len)
    }

    /// A loop that has read nothing yet. Its first duty is to report zero
    /// bytes, so that the meter learns of the connection.
    pub fn new() -> (r: (CopyLoop, CopyAction))
        ensures
            r.0.wf(),
            r.0.phase() == CopyPhase::Reading,
            r.0.received() == Seq::<u8>::empty(),
            r.0.forwarded() == Seq::<u8>::empty(),
            r.0.reported() == 0,
            r.1 == CopyAction::Report(0),
    {
        (
            CopyLoop {
                phase: CopyPhase::Reading,
                chunk_len: 0,
                written: 0,
                loop_error: None,
                received: Ghost(Seq::empty()),
                forwarded: Ghost(Seq::empty()),
                chunk: Ghost(Seq::empty()),
                reported: Ghost(0),
            },
            CopyAction::Report(0),
        )
    }

    /// A read gave the first `n` bytes of `buf`: write them all, or, at the
    /// end of the stream (`n == 0`), half-close the destination.
    pub fn on_read(&mut self, buf: &[u8], n: usize) -> (r: CopyAction)
        requires
            old(self).wf(),
            old(self).phase() == CopyPhase::Reading,
            n <= buf@.len(),
        ensures
            final(self).wf(),
            final(self).received() == old(self).received() + buf@.subrange(0, n as int),
            final(self).forwarded() == old(self).forwarded(),
            final(self).reported() == old(self).reported(),
            final(self).loop_error() == old(self).loop_error(),
            n == 0 ==> r == CopyAction::HalfClose && final(self).phase() == CopyPhase::Closing,
            n > 0 ==> r == (CopyAction::Write { start: 0, end: n }) && final(self).phase()
                == CopyPhase::Writing && final(self).pending() == buf@.subrange(0, n as int)
                && final(self).chunk_size() == n,
    {
        proof {
            assert(self.chunk@.subrange(self.written as int, self.chunk_len as int) =~= Seq::<
                u8,
            >::empty());
        }
        if n == 0 {
            self.phase = CopyPhase::Closing;
            assert(buf@.subrange(0, 0) =~= Seq::<u8>::empty());
            assert(self.received@ =~= self.received@ + buf@.subrange(0, 0));
            CopyAction::HalfClose
        } else {
            self.phase = CopyPhase::Writing;
            self.chunk_len = n;
            self.written = 0;
            self.chunk = Ghost(buf@.subrange(0, n as int));
            self.received = Ghost(self.received@ + buf@.subrange(0, n as int));
            proof {
                assert(self.chunk@.subrange(0, n as int) =~= self.chunk@);
            }
            CopyAction::Write { start: 0, end: n }
        }
    }

    /// A write took the first `k` pending bytes: write the rest, or, once
    /// the chunk is out, report it to the meter.
    pub fn on_written(&mut self, k: usize) -> (r: CopyAction)
        requires
            old(self).wf(),
            old(self).phase() == CopyPhase::Writing,
            0 < k <= old(self).pending().len(),
        ensures
            final(self).wf(),
            final(self).received() == old(self).received(),
            final(self).chunk_size() == old(self).chunk_size(),
            final(self).forwarded() == old(self).forwarded() + old(self).pending().subrange(
                0,
                k as int,
            ),
            final(self).pending() == old(self).pending().subrange(
                k as int,
                old(self).pending().len() as int,
            ),
            k < old(self).pending().len() ==> final(self).phase() == CopyPhase::Writing && (r matches CopyAction::Write { start, end } && end - start == final(self).pending().len()),
            k == old(self).pending().len() ==> final(self).phase() == CopyPhase::Reading && r == CopyAction::Report(old(self).chunk_size() as usize)
                && final(self).reported() == final(self).forwarded().len(),
            k < old(self).pending().len() ==> final(self).reported() == old(self).reported(),
    {
        let ghost pend = self.chunk@.subrange(self.written as int, self.chunk_len as int);
        let ghost w0 = self.written as int;
        self.forwarded = Ghost(self.forwarded@ + pend.subrange(0, k as int));
        self.written = self.written + k;
        proof {
            assert(self.chunk@.subrange(self.written as int, self.chunk_len as int) =~= pend.subrange(
                k as int,
                pend.len() as int,
            ));
            assert(self.received@ =~= self.forwarded@ + self.chunk@.subrange(
                self.written as int,
                self.chunk_len as int,
            ));
        }
        if self.written == self.chunk_len {
            self.phase = CopyPhase::Reading;
            self.reported = Ghost(self.reported@ + self.chunk_len);
            CopyAction::Report(self.chunk_len)
        } else {
            CopyAction::Write { start: self.written, end: self.chunk_len }
        }
    }

    /// A read or a write failed: the loop ends, and the destination is
    /// half-closed all the same.
    pub fn on_failed(&mut self, error: String) -> (r: CopyAction)
        requires
            old(self).wf(),
            old(self).phase() == CopyPhase::Reading || old(self).phase() == CopyPhase::Writing,
        ensures
            final(self).wf(),
            final(self).phase() == CopyPhase::Closing,
            final(self).received() == old(self).received(),
            final(self).forwarded() == old(self).forwarded(),
            final(self).loop_error() == Some(error),
            r == CopyAction::HalfClose,
    {
        self.phase = CopyPhase::Closing;
        self.loop_error = Some(error);
        CopyAction::HalfClose
    }

    /// The half-close ended with `outcome`: the loop is done, with the
    /// errors of the loop and of the half-close gathered; a destination
    /// that was no longer connected counts as closed.
    pub fn on_closed(&mut self, outcome: CloseOutcome) -> (r: Result<(), HandleForwardError>)
        requires
            old(self).wf(),
            old(self).phase() == CopyPhase::Closing,
        ensures
            final(self).phase() == CopyPhase::Done,
            final(self).received() == old(self).received(),
            final(self).forwarded() == old(self).forwarded(),
            r is Ok <==> old(self).loop_error() is None && !(outcome is Failed),
            r matches Err(e) ==> e.loop_error == old(self).loop_error() && e.shutdown_error == match outcome {
                CloseOutcome::Failed(m) => Some(m),
                _ => None::<String>,
            },
    {
        self.phase = CopyPhase::Done;
        let shutdown_error = match outcome {
            CloseOutcome::Failed(m) => Some(m),
            _ => None,
        };
        let loop_error = self.loop_error.take();
        self.loop_error = loop_error.clone();
        if loop_error.is_none() && shutdown_error.is_none() {
            Ok(())
        } else {
            Err(HandleForwardError { loop_error, shutdown_error })
        }
    }
}

/// A copy loop that ended without error forwarded exactly the bytes it
/// read, in order, and reported all of them to the meter.
pub proof fn lemma_copy_exact(c: CopyLoop)
    requires
        c.wf(),
        c.phase() == CopyPhase::Reading || (c.phase() == CopyPhase::Closing && c.loop_error() is None),
    ensures
        c.forwarded() == c.received(),
        c.reported() == c.received().len(),
{
    assert(c.received() =~= c.forwarded());
}

/// The positions of `ok` that hold `want`, in order.
pub open spec fn indices_where(ok: Seq<bool>, want: bool) -> Seq<usize>
    decreases ok.len(),
{
    if ok.len() == 0 {
        Seq::empty()
    } else {
        let rest = indices_where(ok.drop_last(), want);
        if ok.last() == want {
            rest.push((ok.len() - 1) as usize)
        } else {
            rest
        }
    }
}

/// `s` without the elements equal to `t`.
pub open spec fn without(s: Seq<usize>, t: usize) -> Seq<usize>
    decreases s.len(),
{
    if s.len() == 0 {
        Seq::empty()
    } else {
        let rest = without(s.drop_last(), t);
        if s.last() == t {
            rest
        } else {
            rest.push(s.last())
        }
    }
}

/// The targets of a rule that take part in one connection. Data from the
/// source goes to every live target; data back to the source comes only
/// from the return target, the first target that connected. A target whose
/// write fails leaves the live set; the others go on.
#[derive(Debug)]
pub struct FanOut {
    live: Vec<usize>,
    return_target: usize,
}

/// The targets that could be connected, in order; a write to one that
/// failed is never tried.
pub fn plan_fan_out(connected: &Vec<bool>) -> (r: Option<FanOut>)
    ensures
        r is None <==> indices_where(connected@, true).len() == 0,
        r matches Some(f) ==> f.live() == indices_where(connected@, true) && f.return_target()
            == indices_where(connected@, true)[0],
{
    let live = positions(connected, true);
    if live.len() == 0 {
        None
    } else {
        let return_target = live[0];
        Some(FanOut { live, return_target })
    }
}

/// The targets that could not be connected, in order: one failure to
/// report for each.
pub fn failed_targets(connected: &Vec<bool>) -> (r: Vec<usize>)
    ensures
        r@ == indices_where(connected@, false),
{
    positions(connected, false)
}

fn positions(flags: &Vec<bool>, want: bool) -> (r: Vec<usize>)
    ensures
        r@ == indices_where(flags@, want),
{
    let n = flags.len();
    let mut r: Vec<usize> = Vec::new();
    let mut i: usize = 0;
    while i < n
        invariant
            n == flags@.len(),
            0 <= i <= n,
            r@ == indices_where(flags@.subrange(0, i as int), want),
        decreases n - i,
    {
        proof {
            assert(flags@.subrange(0, i + 1).drop_last() =~= flags@.subrange(0, i as int));
        }
        if flags[i] == want {
            r.push(i);
        }
        i = i + 1;
    }
    assert(flags@.subrange(0, n as int) =~= flags@);
    r
}

impl FanOut {
    /// The live targets, in order.
    pub closed spec fn live(&self) -> Seq<usize> {
        self.live@
    }

    /// The target whose data goes back to the source.
    pub closed spec fn return_target(&self) -> usize {
        self.return_target
    }

    /// The live targets, in order.
    pub fn live_targets(&self) -> (r: &Vec<usize>)
        ensures
            r@ == self.live(),
    {
        &self.live
    }

    /// The target whose data goes back to the source.
    pub fn return_index(&self) -> (r: usize)
        ensures
            r == self.return_target(),
    {
        self.return_target
    }

    /// Target `t` failed a write: it leaves the live set. Returns whether
    /// any target is left.
    pub fn drop_target(&mut self, t: usize) -> (r: bool)
        ensures
            final(self).live() == without(old(self).live(), t),
            final(self).return_target() == old(self).return_target(),
            r == (final(self).live().len() > 0),
    {
        let n = self.live.len();
        let mut kept: Vec<usize> = Vec::new();
        let mut i: usize = 0;
        while i < n
            invariant
                n == self.live@.len(),
                self.live@ == old(self).live@,
                0 <= i <= n,
                kept@ == without(self.live@.subrange(0, i as int), t),
            decreases n - i,
        {
            proof {
                assert(self.live@.subrange(0, i + 1).drop_last() =~= self.live@.subrange(0, i as int));
            }
            if self.live[i] != t {
                kept.push(self.live[i]);
            }
            i = i + 1;
        }
        assert(self.live@.subrange(0, n as int) =~= self.live@);
        self.live = kept;
        self.live.len() > 0
    }
}

} // verus!
