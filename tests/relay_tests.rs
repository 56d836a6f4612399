use rust_portforward::relay::{
    failed_targets, plan_fan_out, CloseOutcome, CopyAction, CopyLoop, HandleForwardError,
};

#[test]
fn copy_loop_forwards_every_chunk() {
    let (mut c, first) = CopyLoop::new();
    assert_eq!(first, CopyAction::Report(0));
    let buf = [1u8, 2, 3, 4, 5, 6, 7, 8];
    assert_eq!(c.on_read(&buf, 5), CopyAction::Write { start: 0, end: 5 });
    assert_eq!(c.on_written(3), CopyAction::Write { start: 3, end: 5 });
    assert_eq!(c.on_written(2), CopyAction::Report(5));
    assert_eq!(c.on_read(&buf, 8), CopyAction::Write { start: 0, end: 8 });
    assert_eq!(c.on_written(8), CopyAction::Report(8));
    assert_eq!(c.on_read(&buf, 0), CopyAction::HalfClose);
    assert_eq!(c.on_closed(CloseOutcome::Closed), Ok(()));
}

#[test]
fn copy_loop_with_one_byte_buffer() {
    let (mut c, _) = CopyLoop::new();
    let buf = [9u8];
    for _ in 0..3 {
        assert_eq!(c.on_read(&buf, 1), CopyAction::Write { start: 0, end: 1 });
        assert_eq!(c.on_written(1), CopyAction::Report(1));
    }
    assert_eq!(c.on_read(&buf, 0), CopyAction::HalfClose);
    assert_eq!(c.on_closed(CloseOutcome::NotConnected), Ok(()));
}

#[test]
fn copy_loop_failure_still_half_closes() {
    let (mut c, _) = CopyLoop::new();
    let buf = [0u8; 4];
    assert_eq!(c.on_read(&buf, 4), CopyAction::Write { start: 0, end: 4 });
    assert_eq!(c.on_failed("broken pipe".to_string()), CopyAction::HalfClose);
    assert_eq!(
        c.on_closed(CloseOutcome::NotConnected),
        Err(HandleForwardError { loop_error: Some("broken pipe".to_string()), shutdown_error: None })
    );
}

#[test]
fn copy_loop_gathers_both_errors() {
    let (mut c, _) = CopyLoop::new();
    assert_eq!(c.on_failed("reset".to_string()), CopyAction::HalfClose);
    assert_eq!(
        c.on_closed(CloseOutcome::Failed("bad fd".to_string())),
        Err(HandleForwardError {
            loop_error: Some("reset".to_string()),
            shutdown_error: Some("bad fd".to_string()),
        })
    );
}

#[test]
fn half_close_failure_alone_is_an_error() {
    let (mut c, _) = CopyLoop::new();
    assert_eq!(c.on_read(&[], 0), CopyAction::HalfClose);
    assert_eq!(
        c.on_closed(CloseOutcome::Failed("bad fd".to_string())),
        Err(HandleForwardError { loop_error: None, shutdown_error: Some("bad fd".to_string()) })
    );
}

#[test]
fn fan_out_skips_refusing_target() {
    let connected = vec![true, false, true];
    let plan = plan_fan_out(&connected).unwrap();
    assert_eq!(plan.live_targets(), &vec![0, 2]);
    assert_eq!(plan.return_index(), 0);
    assert_eq!(failed_targets(&connected), vec![1]);
}

#[test]
fn fan_out_with_no_target_closes_source() {
    let connected = vec![false, false, false];
    assert!(plan_fan_out(&connected).is_none());
    assert_eq!(failed_targets(&connected), vec![0, 1, 2]);
}

#[test]
fn fan_out_drops_failed_writer() {
    let mut plan = plan_fan_out(&vec![true, true, true]).unwrap();
    assert!(plan.drop_target(1));
    assert_eq!(plan.live_targets(), &vec![0, 2]);
    assert!(plan.drop_target(7));
    assert_eq!(plan.live_targets(), &vec![0, 2]);
    assert!(plan.drop_target(0));
    assert!(!plan.drop_target(2));
    assert!(plan.live_targets().is_empty());
    assert_eq!(plan.return_index(), 0);
}
