//! The decisions of a listener and of the shutdown coordinator.
//!
//! A listener owns a table of live connections: each accepted connection
//! takes the lowest free slot, and gives it back when its relay finishes.
//! On a shutdown request the listener stops accepting and drains: it waits
//! until every slot is free, and only then stops. The coordinator asks every
//! listener to drain, waits for all of them, and only then stops the meter.
use vstd::prelude::*;

verus! {

/// The live connections of one listener, by slot.
#[derive(Debug)]
pub struct ConnTable {
    slots: Vec<bool>,
}

/// The first free slot of `s`, or its length when every slot is taken.
pub open spec fn first_free(s: Seq<bool>) -> int
    decreases s.len(),
{
    if s.len() == 0 {
        0
    } else if first_free(s.drop_last()) < s.len() - 1 {
        first_free(s.drop_last())
    } else if !s.last() {
        s.len() - 1
    } else {
        s.len() as int
    }
}

/// The number of taken slots of `s`.
pub open spec fn live_count(s: Seq<bool>) -> nat
    decreases s.len(),
{
    if s.len() == 0 {
        0
    } else {
        live_count(s.drop_last()) + if s.last() {
            1nat
        } else {
            0nat
        }
    }
}

proof fn lemma_first_free(s: Seq<bool>)
    ensures
        0 <= first_free(s) <= s.len(),
        first_free(s) < s.len() ==> !s[first_free(s)],
        forall|i: int| 0 <= i < first_free(s) ==> s[i],
    decreases s.len(),
{
    if s.len() > 0 {
        lemma_first_free(s.drop_last());
        assert forall|i: int| 0 <= i < first_free(s) implies s[i] by {
            if i < s.len() - 1 {
                assert(s.drop_last()[i] == s[i]);
            }
        }
    }
}

proof fn lemma_live_count_zero(s: Seq<bool>)
    ensures
        live_count(s) == 0 <==> forall|i: int| 0 <= i < s.len() ==> !s[i],
    decreases s.len(),
{
    if s.len() > 0 {
        lemma_live_count_zero(s.drop_last());
        if live_count(s) == 0 {
            assert forall|i: int| 0 <= i < s.len() implies !s[i] by {
                if i < s.len() - 1 {
                    assert(s.drop_last()[i] == s[i]);
                }
            }
        } else if !s.last() {
            let i = choose|i: int| 0 <= i < s.len() - 1 && s.drop_last()[i];
            assert(s[i]);
        }
    }
}

impl View for ConnTable {
    type V = Seq<bool>;

    /// Slot `i` is taken exactly when `self@[i]`.
    closed spec fn view(&self) -> Seq<bool> {
        self.slots@
    }
}

impl ConnTable {
    pub fn new() -> (r: ConnTable)
        ensures
            r@ == Seq::<bool>::empty(),
    {
        ConnTable { slots: Vec::new() }
    }

    /// Takes the lowest free slot, adding one if every slot is taken, and
    /// returns it.
    pub fn register(&mut self) -> (r: usize)
        requires
            old(self)@.len() < usize::MAX,
        ensures
            r == first_free(old(self)@),
            r < old(self)@.len() ==> final(self)@ == old(self)@.update(r as int, true),
            r == old(self)@.len() ==> final(self)@ == old(self)@.push(true),
            final(self)@[r as int],
            live_count(final(self)@) == live_count(old(self)@) + 1,
    {
        proof {
            lemma_first_free(self@);
        }
        let n = self.slots.len();
        let mut i: usize = 0;
        while i < n && self.slots[i]
            invariant
                n == self.slots@.len(),
                self@ == old(self)@,
                0 <= i <= n,
                i <= first_free(self@),
                first_free(self@) <= n,
                first_free(self@) < n ==> !self@[first_free(self@)],
            decreases n - i,
        {
            i = i + 1;
        }
        let ghost before = self@;
        if i < n {
            self.slots.set(i, true);
            proof {
                lemma_live_count_update(before, i as int, true);
            }
        } else {
            self.slots.push(true);
            assert(self@.drop_last() =~= before);
        }
        i
    }

    /// Frees slot `id`, taken until now.
    pub fn release(&mut self, id: usize)
        requires
            id < old(self)@.len(),
            old(self)@[id as int],
        ensures
            final(self)@ == old(self)@.update(id as int, false),
            live_count(final(self)@) + 1 == live_count(old(self)@),
    {
        let ghost before = self@;
        self.slots.set(id, false);
        proof {
            lemma_live_count_update(before, id as int, false);
        }
    }

    /// The number of slots, taken or free.
    pub fn slot_count(&self) -> (r: usize)
        ensures
            r == self@.len(),
    {
        self.slots.len()
    }

    /// Whether slot `id` is taken.
    pub fn is_live(&self, id: usize) -> (r: bool)
        ensures
            r == (id < self@.len() && self@[id as int]),
    {
        id < self.slots.len() && self.slots[id]
    }

    /// Whether no slot is taken.
    pub fn is_empty(&self) -> (r: bool)
        ensures
            r == (live_count(self@) == 0),
    {
        proof {
            lemma_live_count_zero(self@);
        }
        let n = self.slots.len();
        let mut i: usize = 0;
        while i < n
            invariant
                n == self.slots@.len(),
                0 <= i <= n,
                forall|j: int| 0 <= j < i ==> !self@[j],
            decreases n - i,
        {
            if self.slots[i] {
                proof {
                    lemma_live_count_zero(self@);
                }
                return false;
            }
            i = i + 1;
        }
        proof {
            lemma_live_count_zero(self@);
        }
        true
    }

    /// The taken slots, in order.
    pub fn live_ids(&self) -> (r: Vec<usize>)
        ensures
            forall|k: int| 0 <= k < r@.len() ==> (#[trigger] r@[k]) < self@.len() && self@[r@[k] as int],
            forall|i: int| 0 <= i < self@.len() && self@[i] ==> r@.contains(i as usize),
    {
        let n = self.slots.len();
        let mut r: Vec<usize> = Vec::new();
        let mut i: usize = 0;
        while i < n
            invariant
                n == self.slots@.len(),
                0 <= i <= n,
                forall|k: int| 0 <= k < r@.len() ==> (#[trigger] r@[k]) < n && self@[r@[k] as int],
                forall|j: int| 0 <= j < i && self@[j] ==> r@.contains(j as usize),
            decreases n - i,
        {
            let ghost r0 = r@;
            if self.slots[i] {
                r.push(i);
                assert(r@[r@.len() - 1] == i);
            }
            assert forall|j: int| 0 <= j < i + 1 && self@[j] implies r@.contains(j as usize) by {
                if j < i {
                    let k = choose|k: int| 0 <= k < r0.len() && r0[k] == j as usize;
                    assert(r@[k] == j as usize);
                } else {
                    assert(r@[r@.len() - 1] == i);
                }
            }
            i = i + 1;
        }
        r
    }
}

proof fn lemma_live_count_update(s: Seq<bool>, i: int, v: bool)
    requires
        0 <= i < s.len(),
    ensures
        live_count(s.update(i, v)) + (if s[i] {
            1int
        } else {
            0int
        }) == live_count(s) + (if v {
            1int
        } else {
            0int
        }),
    decreases s.len(),
{
    if i < s.len() - 1 {
        lemma_live_count_update(s.drop_last(), i, v);
        assert(s.update(i, v).drop_last() =~= s.drop_last().update(i, v));
    } else {
        assert(s.update(i, v).drop_last() =~= s.drop_last());
    }
}

/// Where a listener stands.
#[derive(Clone, Copy, Debug, PartialEq, Eq, Structural)]
pub enum ListenerPhase {
    /// Accepting connections.
    Accepting,
    /// No longer accepting; waiting for the live relays to finish.
    Draining,
    /// Every relay has finished.
    Stopped,
}

/// What happened at a listener.
#[derive(Clone, Copy, Debug, PartialEq, Eq, Structural)]
pub enum ListenerEvent {
    /// A connection was accepted.
    Accepted,
    /// Accepting failed, for instance for want of resources.
    AcceptFailed,
    /// Shutdown was requested.
    ShutdownRequested,
    /// The relay of the connection in this slot finished.
    RelayFinished(usize),
}

/// What the listener does next.
#[derive(Clone, Copy, Debug, PartialEq, Eq, Structural)]
pub enum ListenerAction {
    /// Relay the accepted connection, tracked under this slot.
    Spawn(usize),
    /// Close the accepted connection without relaying it.
    Reject,
    /// Go on waiting.
    Continue,
    /// Every relay has finished: the listener is done.
    Stop,
}

/// The state of one listener.
#[derive(Debug)]
pub struct Listener {
    phase: ListenerPhase,
    conns: ConnTable,
}

impl Listener {
    pub closed spec fn phase(&self) -> ListenerPhase {
        self.phase
    }

    /// The connection table: slot `i` is taken while its relay runs.
    pub closed spec fn conns(&self) -> Seq<bool> {
        self.conns@
    }

    /// A stopped listener has no live relay.
    pub open spec fn wf(&self) -> bool {
        self.phase() == ListenerPhase::Stopped ==> live_count(self.conns()) == 0
    }

    pub fn new() -> (r: Listener)
        ensures
            r.wf(),
            r.phase() == ListenerPhase::Accepting,
            r.conns() == Seq::<bool>::empty(),
    {
        Listener { phase: ListenerPhase::Accepting, conns: ConnTable::new() }
    }

    /// The current phase.
    pub fn current_phase(&self) -> (r: ListenerPhase)
        ensures
            r == self.phase(),
    {
        self.phase
    }

    /// The slots of the relays still running.
    pub fn live_ids(&self) -> (r: Vec<usize>)
        ensures
            forall|k: int|
                0 <= k < r@.len() ==> (#[trigger] r@[k]) < self.conns().len() && self.conns()[r@[k] as int],
            forall|i: int| 0 <= i < self.conns().len() && self.conns()[i] ==> r@.contains(i as usize),
    {
        self.conns.live_ids()
    }

    /// Decides what to do about event `ev`. Once shutdown has been
    /// requested no connection is relayed any more, and the listener stops
    /// only when no relay is left.
    pub fn on_event(&mut self, ev: ListenerEvent) -> (r: ListenerAction)
        requires
            old(self).wf(),
        ensures
            final(self).wf(),
            old(self).phase() != ListenerPhase::Accepting ==> !(r is Spawn) && final(self).phase()
                != ListenerPhase::Accepting,
            old(self).phase() == ListenerPhase::Stopped ==> final(self).phase() == ListenerPhase::Stopped,
            (final(self).phase() == ListenerPhase::Stopped) == (r == ListenerAction::Stop),
            final(self).phase() == ListenerPhase::Stopped ==> live_count(final(self).conns()) == 0,
            ev == ListenerEvent::Accepted ==> {
                if old(self).phase() == ListenerPhase::Accepting && old(self).conns().len() < usize::MAX {
                    &&& r == ListenerAction::Spawn(first_free(old(self).conns()) as usize)
                    &&& final(self).conns()[first_free(old(self).conns())]
                    &&& live_count(final(self).conns()) == live_count(old(self).conns()) + 1
                    &&& final(self).phase() == old(self).phase()
                } else {
                    &&& r == (if old(self).phase() == ListenerPhase::Stopped {
                        ListenerAction::Stop
                    } else {
                        ListenerAction::Reject
                    })
                    &&& final(self).conns() == old(self).conns()
                    &&& final(self).phase() == old(self).phase()
                }
            },
            ev == ListenerEvent::AcceptFailed ==> final(self).conns() == old(self).conns()
                && final(self).phase() == old(self).phase(),
            ev == ListenerEvent::ShutdownRequested ==> {
                &&& final(self).conns() == old(self).conns()
                &&& final(self).phase() == if live_count(old(self).conns()) == 0 {
                    ListenerPhase::Stopped
                } else {
                    ListenerPhase::Draining
                }
            },
            ev matches ListenerEvent::RelayFinished(id) ==> {
                &&& final(self).conns() == if id < old(self).conns().len() && old(self).conns()[id as int] {
                    old(self).conns().update(id as int, false)
                } else {
                    old(self).conns()
                }
                &&& final(self).phase() == if old(self).phase() == ListenerPhase::Accepting {
                    ListenerPhase::Accepting
                } else if live_count(final(self).conns()) == 0 {
                    ListenerPhase::Stopped
                } else {
                    ListenerPhase::Draining
                }
            },
    {
        match ev {
            ListenerEvent::Accepted => {
                if self.phase == ListenerPhase::Accepting && self.conns.slot_count() < usize::MAX {
                    let id = self.conns.register();
                    ListenerAction::Spawn(id)
                } else if self.phase == ListenerPhase::Stopped {
                    ListenerAction::Stop
                } else {
                    ListenerAction::Reject
                }
            },
            ListenerEvent::AcceptFailed => {
                if self.phase == ListenerPhase::Stopped {
                    ListenerAction::Stop
                } else {
                    ListenerAction::Continue
                }
            },
            ListenerEvent::ShutdownRequested => {
                if self.conns.is_empty() {
                    self.phase = ListenerPhase::Stopped;
                    ListenerAction::Stop
                } else {
                    self.phase = ListenerPhase::Draining;
                    ListenerAction::Continue
                }
            },
            ListenerEvent::RelayFinished(id) => {
                if self.conns.is_live(id) {
                    self.conns.release(id);
                }
                if self.phase == ListenerPhase::Accepting {
                    ListenerAction::Continue
                } else if self.conns.is_empty() {
                    self.phase = ListenerPhase::Stopped;
                    ListenerAction::Stop
                } else {
                    ListenerAction::Continue
                }
            },
        }
    }
}

/// Where the shutdown of the whole engine stands.
#[derive(Clone, Copy, Debug, PartialEq, Eq, Structural)]
pub enum CoordinatorPhase {
    Running,
    Draining,
    Stopped,
}

/// What the coordinator does next.
#[derive(Clone, Copy, Debug, PartialEq, Eq, Structural)]
pub enum CoordinatorAction {
    /// Send a shutdown request to every listener.
    NotifyListeners,
    /// Wait for the listeners that are still draining.
    Wait,
    /// Every listener is done: stop the meter.
    StopMeter,
    /// Nothing to do in this phase.
    Ignore,
}

/// The shutdown coordinator: it drains every listener before it stops the
/// meter.
#[derive(Debug)]
pub struct Coordinator {
    phase: CoordinatorPhase,
    listeners_left: usize,
    meter_stopping: bool,
}

impl Coordinator {
    pub closed spec fn phase(&self) -> CoordinatorPhase {
        self.phase
    }

    /// The listeners that have not finished draining.
    pub closed spec fn listeners_left(&self) -> nat {
        self.listeners_left as nat
    }

    /// Whether the meter has been asked to stop.
    pub closed spec fn meter_stopping(&self) -> bool {
        self.meter_stopping
    }

    /// The meter is asked to stop only once no listener is left, and the
    /// engine is stopped only once the meter has been asked to stop.
    pub open spec fn wf(&self) -> bool {
        &&& self.meter_stopping() ==> self.listeners_left() == 0 && self.phase() != CoordinatorPhase::Running
        &&& self.phase() == CoordinatorPhase::Stopped ==> self.meter_stopping()
    }

    /// A running engine with `n_listeners` listeners.
    pub fn new(n_listeners: usize) -> (r: Coordinator)
        ensures
            r.wf(),
            r.phase() == CoordinatorPhase::Running,
            r.listeners_left() == n_listeners,
            !r.meter_stopping(),
    {
        Coordinator { phase: CoordinatorPhase::Running, listeners_left: n_listeners, meter_stopping: false }
    }

    /// The current phase.
    pub fn current_phase(&self) -> (r: CoordinatorPhase)
        ensures
            r == self.phase(),
    {
        self.phase
    }

    /// Shutdown was triggered: a running engine starts draining its
    /// listeners, or, with none, stops its meter at once.
    pub fn trigger(&mut self) -> (r: CoordinatorAction)
        requires
            old(self).wf(),
        ensures
            final(self).wf(),
            final(self).listeners_left() == old(self).listeners_left(),
            old(self).phase() == CoordinatorPhase::Running ==> final(self).phase() == CoordinatorPhase::Draining
                && r == (if old(self).listeners_left() == 0 {
                CoordinatorAction::StopMeter
            } else {
                CoordinatorAction::NotifyListeners
            }) && final(self).meter_stopping() == (old(self).listeners_left() == 0),
            old(self).phase() != CoordinatorPhase::Running ==> r == CoordinatorAction::Ignore
                && final(self).phase() == old(self).phase() && final(self).meter_stopping() == old(self).meter_stopping(),
    {
        if self.phase != CoordinatorPhase::Running {
            return CoordinatorAction::Ignore;
        }
        self.phase = CoordinatorPhase::Draining;
        if self.listeners_left == 0 {
            self.meter_stopping = true;
            CoordinatorAction::StopMeter
        } else {
            CoordinatorAction::NotifyListeners
        }
    }

    /// A listener finished draining: once the last one has, the meter is
    /// stopped.
    pub fn listener_done(&mut self) -> (r: CoordinatorAction)
        requires
            old(self).wf(),
        ensures
            final(self).wf(),
            final(self).phase() == old(self).phase(),
            old(self).phase() == CoordinatorPhase::Draining && old(self).listeners_left() > 0 ==> {
                &&& final(self).listeners_left() == old(self).listeners_left() - 1
                &&& r == if final(self).listeners_left() == 0 {
                    CoordinatorAction::StopMeter
                } else {
                    CoordinatorAction::Wait
                }
                &&& final(self).meter_stopping() == (final(self).listeners_left() == 0)
            },
            !(old(self).phase() == CoordinatorPhase::Draining && old(self).listeners_left() > 0) ==> r
                == CoordinatorAction::Ignore && final(self).listeners_left() == old(self).listeners_left()
                && final(self).meter_stopping() == old(self).meter_stopping(),
            r == CoordinatorAction::StopMeter ==> final(self).listeners_left() == 0,
    {
        if self.phase != CoordinatorPhase::Draining || self.listeners_left == 0 {
            return CoordinatorAction::Ignore;
        }
        self.listeners_left = self.listeners_left - 1;
        if self.listeners_left == 0 {
            self.meter_stopping = true;
            CoordinatorAction::StopMeter
        } else {
            CoordinatorAction::Wait
        }
    }

    /// The meter has stopped: the engine is stopped, provided that the
    /// meter had been asked to stop.
    pub fn meter_done(&mut self) -> (r: bool)
        requires
            old(self).wf(),
        ensures
            final(self).wf(),
            r == old(self).meter_stopping(),
            final(self).listeners_left() == old(self).listeners_left(),
            final(self).meter_stopping() == old(self).meter_stopping(),
            final(self).phase() == if r {
                CoordinatorPhase::Stopped
            } else {
                old(self).phase()
            },
    {
        if self.meter_stopping {
            self.phase = CoordinatorPhase::Stopped;
            true
        } else {
            false
        }
    }
}

} // verus!
