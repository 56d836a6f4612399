//! The throughput meter: byte-count events from the relays are gathered in
//! one window per (endpoint, direction), and each cycle turns every window
//! with at least two samples into a rate, then keeps only its most recent
//! sample as the seed of the next window.
use crate::endpoint::Endpoint;
use vstd::arithmetic::div_mod::{
    lemma_fundamental_div_mod, lemma_hoist_over_denominator, lemma_remainder_upper,
};
use vstd::prelude::*;

verus! {

/// Microseconds in one second.
pub const MICROS_PER_SEC: u128 = 1_000_000;

/// The direction of relayed traffic, seen from the source connection.
#[derive(Clone, Copy, Debug, PartialEq, Eq, Hash, Structural)]
pub enum Direction {
    /// From the target back to the source (download).
    To,
    /// From the source to the target (upload).
    From,
}

/// One byte-count event reported by a relay.
#[derive(Clone, Copy, Debug, PartialEq, Eq, Structural)]
pub struct Message {
    pub src_sockaddr: Endpoint,
    pub direction: Direction,
    /// When the bytes were transferred, in microseconds on the meter's clock.
    pub instant_us: u64,
    pub n_bytes: usize,
}

/// One sample of a window: a time and a byte count.
#[derive(Clone, Copy, Debug, PartialEq, Eq, Structural)]
pub struct Sample {
    pub instant_us: u64,
    pub n_bytes: usize,
}

/// The throughput of one window.
#[derive(Clone, Copy, Debug, PartialEq, Eq, Structural)]
pub struct Rate {
    /// The bytes of every sample of the window.
    pub total_bytes: u128,
    /// The latest sample time minus the earliest.
    pub elapsed_us: u64,
    /// `total_bytes` per second, rounded down, saturated at `u128::MAX`.
    pub bytes_per_sec: u128,
}

/// The sum of the byte counts of `s`.
pub open spec fn total_bytes(s: Seq<Sample>) -> int
    decreases s.len(),
{
    if s.len() == 0 {
        0
    } else {
        total_bytes(s.drop_last()) + s.last().n_bytes
    }
}

/// The earliest time in `s` (`u64::MAX` for an empty `s`).
pub open spec fn min_instant(s: Seq<Sample>) -> u64
    decreases s.len(),
{
    if s.len() == 0 {
        u64::MAX
    } else {
        let m = min_instant(s.drop_last());
        if s.last().instant_us < m {
            s.last().instant_us
        } else {
            m
        }
    }
}

/// The latest time in `s` (0 for an empty `s`).
pub open spec fn max_instant(s: Seq<Sample>) -> u64
    decreases s.len(),
{
    if s.len() == 0 {
        0
    } else {
        let m = max_instant(s.drop_last());
        if s.last().instant_us > m {
            s.last().instant_us
        } else {
            m
        }
    }
}

/// `total` bytes over `elapsed_us` microseconds, in bytes per second,
/// rounded down and saturated at `u128::MAX`.
pub open spec fn per_second(total: int, elapsed_us: int) -> int
    recommends
        elapsed_us > 0,
{
    let r = total * MICROS_PER_SEC / elapsed_us;
    if r <= u128::MAX {
        r
    } else {
        u128::MAX as int
    }
}

/// Whether a window of samples yields a rate: it needs two samples at
/// least, spread over a time that is not zero.
pub open spec fn has_rate(s: Seq<Sample>) -> bool {
    s.len() >= 2 && max_instant(s) > min_instant(s)
}

/// The rate of a window that has one.
pub open spec fn rate_of(s: Seq<Sample>) -> Rate {
    let elapsed = max_instant(s) - min_instant(s);
    Rate {
        total_bytes: total_bytes(s) as u128,
        elapsed_us: elapsed as u64,
        bytes_per_sec: per_second(total_bytes(s), elapsed) as u128,
    }
}

proof fn lemma_min_le_max(s: Seq<Sample>)
    requires
        s.len() > 0,
    ensures
        min_instant(s) <= max_instant(s),
    decreases s.len(),
{
    if s.len() > 1 {
        lemma_min_le_max(s.drop_last());
    }
}

/// `total` bytes over `elapsed_us` microseconds, in bytes per second,
/// rounded down and saturated.
pub fn bytes_per_second(total: u128, elapsed_us: u64) -> (r: u128)
    requires
        elapsed_us > 0,
    ensures
        r == per_second(total as int, elapsed_us as int),
{
    let e = elapsed_us as u128;
    let q = total / e;
    let rem = total % e;
    proof {
        let (ti, ei, qi, ri, m) = (total as int, e as int, q as int, rem as int, MICROS_PER_SEC as int);
        lemma_fundamental_div_mod(ti, ei);
        lemma_remainder_upper(ti, ei);
        assert(ri * m < 18446744073709551616 * 1_000_000) by (nonlinear_arith)
            requires
                ri < ei,
                ei <= 18446744073709551615,
                m == 1_000_000,
                ri >= 0,
        ;
        assert(ti * m == ri * m + (qi * m) * ei) by (nonlinear_arith)
            requires
                ti == ei * qi + ri,
        ;
        lemma_hoist_over_denominator(ri * m, qi * m, ei as nat);
        assert((ri * m) / ei < m) by (nonlinear_arith)
            requires
                0 <= ri < ei,
                m > 0,
        ;
        assert((ri * m) / ei >= 0) by (nonlinear_arith)
            requires
                ei > 0,
                ri >= 0,
                m > 0,
        ;
        assert(qi > (u128::MAX as int) / m ==> qi * m > u128::MAX) by (nonlinear_arith)
            requires
                m == 1_000_000,
        ;
    }
    if q > u128::MAX / MICROS_PER_SEC {
        u128::MAX
    } else {
        let whole = q * MICROS_PER_SEC;
        let part = rem * MICROS_PER_SEC / e;
        match whole.checked_add(part) {
            Some(r) => r,
            None => u128::MAX,
        }
    }
}

/// The rate of a window: `None` when it has fewer than two samples or
/// when all of them carry the same time.
pub fn window_rate(samples: &Vec<Sample>) -> (r: Option<Rate>)
    ensures
        r is None <==> !has_rate(samples@),
        r matches Some(rate) ==> rate == rate_of(samples@),
{
    let n = samples.len();
    if n == 0 {
        return None;
    }
    let mut total: u128 = 0;
    let mut lo: u64 = u64::MAX;
    let mut hi: u64 = 0;
    let mut i: usize = 0;
    while i < n
        invariant
            n == samples@.len(),
            0 <= i <= n,
            total == total_bytes(samples@.subrange(0, i as int)),
            total <= i * (usize::MAX as int),
            lo == min_instant(samples@.subrange(0, i as int)),
            hi == max_instant(samples@.subrange(0, i as int)),
        decreases n - i,
    {
        let s = samples[i];
        proof {
            assert(samples@.subrange(0, i + 1).drop_last() == samples@.subrange(0, i as int));
            assert(total + s.n_bytes <= (i + 1) * (usize::MAX as int)) by (nonlinear_arith)
                requires
                    total <= i * (usize::MAX as int),
                    s.n_bytes <= usize::MAX,
            ;
            assert((i + 1) * (usize::MAX as int) <= u128::MAX) by (nonlinear_arith)
                requires
                    i < usize::MAX,
            ;
        }
        total = total + s.n_bytes as u128;
        if s.instant_us < lo {
            lo = s.instant_us;
        }
        if s.instant_us > hi {
            hi = s.instant_us;
        }
        i = i + 1;
    }
    proof {
        assert(samples@.subrange(0, n as int) == samples@);
        lemma_min_le_max(samples@);
    }
    if n < 2 || hi == lo {
        None
    } else {
        let elapsed = hi - lo;
        Some(Rate { total_bytes: total, elapsed_us: elapsed, bytes_per_sec: bytes_per_second(total, elapsed) })
    }
}

/// A window as the contracts see it: its endpoint, its direction and its
/// samples, oldest first.
pub type WindowView = (Endpoint, Direction, Seq<Sample>);

/// The samples of one (endpoint, direction) pair.
#[derive(Debug)]
pub struct MeterWindow {
    pub endpoint: Endpoint,
    pub direction: Direction,
    pub samples: Vec<Sample>,
}

/// One line of a cycle's output: the rate of one window.
#[derive(Clone, Copy, Debug, PartialEq, Eq, Structural)]
pub struct Report {
    pub endpoint: Endpoint,
    pub direction: Direction,
    pub rate: Rate,
}

/// The meter's state: one window per (endpoint, direction) pair, in the
/// order in which the pairs were first seen.
#[derive(Debug)]
pub struct Aggregator {
    windows: Vec<MeterWindow>,
}

/// The sample that a message adds to its window.
pub open spec fn sample_of(m: Message) -> Sample {
    Sample { instant_us: m.instant_us, n_bytes: m.n_bytes }
}

/// Whether window `w` belongs to the pair of message `m`.
pub open spec fn same_key(w: WindowView, m: Message) -> bool {
    w.0 == m.src_sockaddr && w.1 == m.direction
}

/// No two windows share a pair, and every window holds a sample.
pub open spec fn windows_wf(ws: Seq<WindowView>) -> bool {
    &&& forall|i: int, j: int|
        0 <= i < j < ws.len() ==> !(#[trigger] ws[i].0 == #[trigger] ws[j].0 && ws[i].1 == ws[j].1)
    &&& forall|i: int| 0 <= i < ws.len() ==> #[trigger] ws[i].2.len() >= 1
}

/// The windows after message `m` is added: its sample goes to the end of
/// the window of its pair, or to a new window at the end.
pub open spec fn recorded(ws: Seq<WindowView>, m: Message) -> Seq<WindowView> {
    if exists|i: int| 0 <= i < ws.len() && same_key(#[trigger] ws[i], m) {
        let i = choose|i: int| 0 <= i < ws.len() && same_key(#[trigger] ws[i], m);
        ws.update(i, (ws[i].0, ws[i].1, ws[i].2.push(sample_of(m))))
    } else {
        ws.push((m.src_sockaddr, m.direction, seq![sample_of(m)]))
    }
}

/// The reports of one cycle: one for each window that has a rate, in the
/// order of the windows.
pub open spec fn reports_of(ws: Seq<WindowView>) -> Seq<Report>
    decreases ws.len(),
{
    if ws.len() == 0 {
        Seq::empty()
    } else {
        let w = ws.last();
        let rest = reports_of(ws.drop_last());
        if has_rate(w.2) {
            rest.push(Report { endpoint: w.0, direction: w.1, rate: rate_of(w.2) })
        } else {
            rest
        }
    }
}

/// The windows after a cycle: each keeps only its most recent sample.
pub open spec fn compacted(ws: Seq<WindowView>) -> Seq<WindowView> {
    ws.map_values(|w: WindowView| (w.0, w.1, seq![w.2.last()]))
}

impl View for Aggregator {
    type V = Seq<WindowView>;

    closed spec fn view(&self) -> Seq<WindowView> {
        self.windows@.map_values(|w: MeterWindow| (w.endpoint, w.direction, w.samples@))
    }
}

impl Aggregator {
    pub open spec fn wf(&self) -> bool {
        windows_wf(self@)
    }

    pub fn new() -> (r: Aggregator)
        ensures
            r.wf(),
            r@ == Seq::<WindowView>::empty(),
    {
        Aggregator { windows: Vec::new() }
    }

    /// The number of windows.
    pub fn len(&self) -> (r: usize)
        ensures
            r == self@.len(),
    {
        self.windows.len()
    }

    /// Adds the sample of `m` to the window of its pair, opening the window
    /// if the pair is new.
    pub fn record(&mut self, m: &Message)
        requires
            old(self).wf(),
        ensures
            final(self).wf(),
            final(self)@ == recorded(old(self)@, *m),
    {
        let sample = Sample { instant_us: m.instant_us, n_bytes: m.n_bytes };
        let n = self.windows.len();
        let mut i: usize = 0;
        while i < n
            invariant
                n == self.windows@.len(),
                self@ == old(self)@,
                windows_wf(self@),
                sample == sample_of(*m),
                0 <= i <= n,
                forall|j: int| 0 <= j < i ==> !same_key(#[trigger] self@[j], *m),
            decreases n - i,
        {
            if self.windows[i].endpoint == m.src_sockaddr && self.windows[i].direction == m.direction {
                let ghost ws = self@;
                assert(same_key(ws[i as int], *m));
                let ghost old_windows = self.windows@;
                let mut w = self.windows.remove(i);
                let ghost w0 = w;
                w.samples.push(sample);
                self.windows.insert(i, w);
                assert(self.windows@ =~= old_windows.update(i as int, w));
                proof {
                    let k = choose|k: int| 0 <= k < ws.len() && same_key(#[trigger] ws[k], *m);
                    assert(k == i as int);
                    let rv = recorded(ws, *m);
                    assert(self@.len() == rv.len());
                    assert forall|j: int| 0 <= j < rv.len() implies self@[j] == rv[j] by {
                        if j != i {
                            assert(self.windows@[j] == old_windows[j]);
                        } else {
                            assert(w0 == old_windows[j]);
                            assert(ws[j] == (w0.endpoint, w0.direction, w0.samples@));
                            assert(sample == sample_of(*m));
                            assert(self@[j] == (w.endpoint, w.direction, w.samples@));
                        }
                    }
                    assert(self@ =~= rv);
                    assert(windows_wf(self@));
                }
                return;
            }
            i = i + 1;
        }
        let ghost ws = self@;
        let mut samples: Vec<Sample> = Vec::new();
        samples.push(sample);
        self.windows.push(MeterWindow { endpoint: m.src_sockaddr, direction: m.direction, samples });
        proof {
            assert(self@ =~= recorded(ws, *m));
        }
    }

    /// Ends a cycle: returns the rate of every window that has one, and
    /// keeps in each window only its most recent sample.
    pub fn cycle(&mut self) -> (r: Vec<Report>)
        requires
            old(self).wf(),
        ensures
            final(self).wf(),
            final(self)@ == compacted(old(self)@),
            r@ == reports_of(old(self)@),
    {
        let ghost ws = self@;
        let n = self.windows.len();
        let mut reports: Vec<Report> = Vec::new();
        let mut kept: Vec<MeterWindow> = Vec::new();
        let mut i: usize = 0;
        while i < n
            invariant
                n == self.windows@.len(),
                self@ == ws,
                windows_wf(ws),
                0 <= i <= n,
                reports@ == reports_of(ws.subrange(0, i as int)),
                kept@.len() == i,
                kept@.map_values(|w: MeterWindow| (w.endpoint, w.direction, w.samples@))
                    == compacted(ws.subrange(0, i as int)),
            decreases n - i,
        {
            let w = &self.windows[i];
            assert(ws[i as int].2.len() >= 1);
            let rate = window_rate(&w.samples);
            proof {
                assert(ws.subrange(0, i + 1).drop_last() =~= ws.subrange(0, i as int));
            }
            match rate {
                Some(rate) => {
                    reports.push(Report { endpoint: w.endpoint, direction: w.direction, rate });
                },
                None => {},
            }
            let last = w.samples[w.samples.len() - 1];
            let mut samples: Vec<Sample> = Vec::new();
            samples.push(last);
            let ghost before = kept@;
            kept.push(MeterWindow { endpoint: w.endpoint, direction: w.direction, samples });
            proof {
                let kv = kept@.map_values(|w: MeterWindow| (w.endpoint, w.direction, w.samples@));
                let bv = before.map_values(|w: MeterWindow| (w.endpoint, w.direction, w.samples@));
                let cv = compacted(ws.subrange(0, i + 1));
                assert(kv.len() == cv.len());
                assert forall|j: int| 0 <= j < kv.len() implies kv[j] == cv[j] by {
                    if j < i {
                        assert(kv[j] == bv[j]);
                        assert(bv[j] == compacted(ws.subrange(0, i as int))[j]);
                    } else {
                        assert(kv[j] == (ws[i as int].0, ws[i as int].1, seq![last]));
                    }
                }
                assert(kv =~= cv);
            }
            i = i + 1;
        }
        proof {
            assert(ws.subrange(0, n as int) =~= ws);
        }
        self.windows = kept;
        proof {
            assert(windows_wf(self@));
        }
        reports
    }
}

/// What a non-blocking poll of a channel found.
#[derive(Clone, Copy, Debug, PartialEq, Eq, Structural)]
pub enum Poll {
    Received,
    Empty,
    Disconnected,
}

/// What the meter's loop does next.
#[derive(Clone, Copy, Debug, PartialEq, Eq, Structural)]
pub enum MeterStep {
    Continue,
    Stop,
    /// An internal invariant was broken: the process must abort.
    Fatal,
}

/// While draining the event channel: a received event is recorded and the
/// drain goes on; an empty channel ends the drain; a disconnected channel
/// means that every producer is gone while the meter still expects events.
pub fn drain_step(p: Poll) -> (r: MeterStep)
    ensures
        p == Poll::Received ==> r == MeterStep::Continue,
        p == Poll::Empty ==> r == MeterStep::Stop,
        p == Poll::Disconnected ==> r == MeterStep::Fatal,
{
    match p {
        Poll::Received => MeterStep::Continue,
        Poll::Empty => MeterStep::Stop,
        Poll::Disconnected => MeterStep::Fatal,
    }
}

/// At the end of a cycle: a shutdown command stops the meter, no command
/// lets it run another cycle, and a lost command channel is fatal.
pub fn shutdown_step(p: Poll) -> (r: MeterStep)
    ensures
        p == Poll::Received ==> r == MeterStep::Stop,
        p == Poll::Empty ==> r == MeterStep::Continue,
        p == Poll::Disconnected ==> r == MeterStep::Fatal,
{
    match p {
        Poll::Received => MeterStep::Stop,
        Poll::Empty => MeterStep::Continue,
        Poll::Disconnected => MeterStep::Fatal,
    }
}

/// Why the meter could not be shut down.
#[derive(Clone, Copy, Debug, PartialEq, Eq, Structural)]
pub enum ShutdownError {
    /// The shutdown command could not be sent: the meter had already gone.
    SendCommandError,
    /// The meter's thread ended in a panic.
    JoinError,
}

} // verus!
