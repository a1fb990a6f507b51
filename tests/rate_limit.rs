use nn_trainer::frame_clock::{FrameClock, FRAME_INTERVAL_MS};

#[test]
fn first_offer_goes_out() {
    let mut c = FrameClock::new(FRAME_INTERVAL_MS);
    assert!(c.offer(1000));
    assert_eq!(c.last_sent_ms, Some(1000));
}

#[test]
fn offers_within_interval_are_held_back() {
    let mut c = FrameClock::new(50);
    assert!(c.offer(0));
    assert!(!c.offer(49));
    assert_eq!(c.last_sent_ms, Some(0));
    assert!(c.offer(50));
    assert!(!c.is_due(99));
    assert!(c.is_due(100));
}

#[test]
fn forced_send_restarts_interval() {
    let mut c = FrameClock::new(50);
    assert!(c.offer(0));
    c.force(30);
    assert_eq!(c.last_sent_ms, Some(30));
    assert!(!c.offer(60));
    assert!(c.offer(80));
}

#[test]
fn sends_in_window_stay_within_bound() {
    let f: u64 = 50;
    let span: u64 = 1000;
    let mut c = FrameClock::new(f);
    let mut sent: u64 = 0;
    let mut t: u64 = 5000;
    while t <= 5000 + span {
        if c.offer(t) {
            sent += 1;
        }
        t += 7;
    }
    assert!(sent <= span.div_ceil(f) + 1);
    assert!(sent >= 2);
}
