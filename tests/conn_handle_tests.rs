use rust_portforward::conn_handle::{
    ConnTable, Coordinator, CoordinatorAction, CoordinatorPhase, Listener, ListenerAction,
    ListenerEvent, ListenerPhase,
};

#[test]
fn slots_are_reused_lowest_first() {
    let mut t = ConnTable::new();
    assert_eq!(t.register(), 0);
    assert_eq!(t.register(), 1);
    assert_eq!(t.register(), 2);
    t.release(1);
    assert!(!t.is_live(1));
    assert_eq!(t.live_ids(), vec![0, 2]);
    assert_eq!(t.register(), 1);
    assert_eq!(t.slot_count(), 3);
    t.release(0);
    t.release(1);
    t.release(2);
    assert!(t.is_empty());
}

#[test]
fn listener_drains_slow_relay_before_stopping() {
    let mut l = Listener::new();
    assert_eq!(l.on_event(ListenerEvent::Accepted), ListenerAction::Spawn(0));
    assert_eq!(l.on_event(ListenerEvent::AcceptFailed), ListenerAction::Continue);
    assert_eq!(l.on_event(ListenerEvent::Accepted), ListenerAction::Spawn(1));
    assert_eq!(l.on_event(ListenerEvent::RelayFinished(0)), ListenerAction::Continue);
    assert_eq!(l.on_event(ListenerEvent::ShutdownRequested), ListenerAction::Continue);
    assert_eq!(l.current_phase(), ListenerPhase::Draining);
    // A connection still waiting in the backlog is not relayed.
    assert_eq!(l.on_event(ListenerEvent::Accepted), ListenerAction::Reject);
    assert_eq!(l.live_ids(), vec![1]);
    assert_eq!(l.on_event(ListenerEvent::RelayFinished(1)), ListenerAction::Stop);
    assert_eq!(l.current_phase(), ListenerPhase::Stopped);
    assert_eq!(l.on_event(ListenerEvent::Accepted), ListenerAction::Stop);
}

#[test]
fn idle_listener_stops_at_once() {
    let mut l = Listener::new();
    assert_eq!(l.on_event(ListenerEvent::ShutdownRequested), ListenerAction::Stop);
    assert_eq!(l.current_phase(), ListenerPhase::Stopped);
}

#[test]
fn coordinator_stops_meter_after_listeners() {
    let mut c = Coordinator::new(2);
    assert!(!c.meter_done());
    assert_eq!(c.listener_done(), CoordinatorAction::Ignore);
    assert_eq!(c.trigger(), CoordinatorAction::NotifyListeners);
    assert_eq!(c.current_phase(), CoordinatorPhase::Draining);
    assert_eq!(c.trigger(), CoordinatorAction::Ignore);
    assert!(!c.meter_done());
    assert_eq!(c.listener_done(), CoordinatorAction::Wait);
    assert_eq!(c.listener_done(), CoordinatorAction::StopMeter);
    assert!(c.meter_done());
    assert_eq!(c.current_phase(), CoordinatorPhase::Stopped);
}

#[test]
fn coordinator_without_listeners() {
    let mut c = Coordinator::new(0);
    assert_eq!(c.trigger(), CoordinatorAction::StopMeter);
    assert!(c.meter_done());
    assert_eq!(c.current_phase(), CoordinatorPhase::Stopped);
}
