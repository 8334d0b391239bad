use open_lights_core::notify::Notification;
use open_lights_core::notify::Timer;

#[test]
fn timer_runs_out_exactly_at_its_duration() {
    let t = Timer::new(100, 50);
    assert!(!t.update(100));
    assert!(!t.update(149));
    assert!(t.update(150));
    assert!(t.update(10_000));
}

#[test]
fn timer_before_its_start_has_no_elapsed_time() {
    let t = Timer::new(100, 50);
    assert!(!t.update(99));
    let instant = Timer::new(100, 0);
    assert!(instant.update(100));
    assert!(instant.update(99));
}

#[test]
fn notification_carries_its_timer() {
    let n = Notification {
        title: String::from("Bluetooth"),
        message: String::from("Paired"),
        timer: Timer::new(0, 5000),
        id: 7,
    };
    let m = n.clone();
    assert_eq!(m.title, "Bluetooth");
    assert_eq!(m.message, "Paired");
    assert_eq!(m.id, 7);
    assert!(!m.timer.update(4999));
    assert!(m.timer.update(5000));
}
