use open_lights_core::cue::LightType;
use open_lights_core::cue::gather_light_data;
use open_lights_core::scheduler::LightLifecycle;
use open_lights_core::scheduler::LightScheduler;
use open_lights_core::scheduler::SchedulerAction;

fn reference_scheduler() -> LightScheduler {
    let groups = gather_light_data("{\"1,2\": {\"0\": 1, \"5000\": 0}}").unwrap();
    LightScheduler::arm(groups).unwrap()
}

#[test]
fn empty_cue_set_never_arms() {
    // A track with no cue file has an empty cue set: no scheduler starts.
    assert!(LightScheduler::arm(Vec::new()).is_none());
    let groups = gather_light_data("{\"1\": {\"0\": 1}}").unwrap();
    assert!(LightScheduler::arm(groups).is_some());
}

#[test]
fn reference_cue_fires_on_then_off_then_nothing() {
    let mut s = reference_scheduler();
    // At the tick where the clock reads zero, both channels go on.
    let acts = s.tick(0, false);
    assert_eq!(
        acts,
        vec![
            SchedulerAction::SetChannel(1, LightType::On),
            SchedulerAction::SetChannel(2, LightType::On),
        ]
    );
    // Nothing more until the off event is due.
    assert_eq!(s.tick(4999, false), Vec::new());
    let acts = s.tick(5000, false);
    assert_eq!(
        acts,
        vec![
            SchedulerAction::SetChannel(1, LightType::Off),
            SchedulerAction::SetChannel(2, LightType::Off),
        ]
    );
    // No further actuation before track end.
    assert_eq!(s.tick(9999, false), Vec::new());
}

#[test]
fn each_event_fires_exactly_once() {
    let mut s = reference_scheduler();
    assert_eq!(s.tick(0, false).len(), 2);
    // The same clock reading again fires nothing: the cursor advanced.
    assert_eq!(s.tick(0, false), Vec::new());
    assert_eq!(s.groups[0].index, 1);
}

#[test]
fn a_late_start_fires_everything_due() {
    let mut s = reference_scheduler();
    // Both events are already due: they fire in timestamp order, one tick.
    let acts = s.tick(6000, false);
    assert_eq!(
        acts,
        vec![
            SchedulerAction::SetChannel(1, LightType::On),
            SchedulerAction::SetChannel(2, LightType::On),
            SchedulerAction::SetChannel(1, LightType::Off),
            SchedulerAction::SetChannel(2, LightType::Off),
        ]
    );
}

#[test]
fn reset_rewinds_and_sweeps_off_first() {
    let mut s = reference_scheduler();
    // Play up to the end, then seek to zero: the reset tick must sweep
    // everything off before any "on" fires again.
    s.tick(6000, false);
    let acts = s.tick(0, true);
    assert_eq!(acts[0], SchedulerAction::AllOff);
    assert_eq!(
        &acts[1..],
        &[
            SchedulerAction::SetChannel(1, LightType::On),
            SchedulerAction::SetChannel(2, LightType::On),
        ]
    );
    // The cursor sits past the re-fired first event only.
    assert_eq!(s.groups[0].index, 1);
}

#[test]
fn reset_returns_every_cursor_to_zero() {
    let groups = gather_light_data("{\"1\": {\"5000\": 1}, \"2\": {\"7000\": 1}}").unwrap();
    let mut s = LightScheduler::arm(groups).unwrap();
    assert_eq!(s.tick(8000, false).len(), 2);
    assert_eq!(s.groups[0].index, 1);
    assert_eq!(s.groups[1].index, 1);
    // A seek to zero: cursors rewind; nothing is due yet, so only the
    // all-off sweep goes out.
    let acts = s.tick(0, true);
    assert_eq!(acts, vec![SchedulerAction::AllOff]);
    assert_eq!(s.groups[0].index, 0);
    assert_eq!(s.groups[1].index, 0);
}

#[test]
fn lifecycle_gates_a_second_scheduler() {
    let mut fl = LightLifecycle::new();
    assert!(!fl.active);
    // Stopping with no scheduler running requests nothing.
    fl.request_stop();
    assert!(!fl.stop_requested);
    // First scheduler starts.
    fl.begin_run();
    assert!(fl.active);
    // Tearing down for the next track: the stop is requested and the new
    // scheduler may not start until the old one acknowledges.
    fl.request_stop();
    assert!(fl.stop_requested);
    assert!(fl.active);
    fl.acknowledge_stop();
    assert!(!fl.active && !fl.stop_requested);
    fl.begin_run();
    assert!(fl.active);
}
