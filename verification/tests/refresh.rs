use ktop::input::Action;
use ktop::refresh::{Ticker, REFRESH_TICKS};

#[test]
fn ticker_collects_every_twentieth_sleep() {
    let mut t = Ticker::new();
    let mut collected = Vec::new();
    for i in 1..=45u32 {
        if t.on_sleep() {
            collected.push(i);
        }
    }
    assert_eq!(collected, vec![20, 40]);
    assert_eq!(t.tick, 5);
    assert_eq!(REFRESH_TICKS, 20);
}

#[test]
fn refresh_action_restarts_count() {
    let mut t = Ticker::new();
    for _ in 0..15 {
        assert!(!t.on_sleep());
    }
    assert!(!t.on_action(Action::Continue));
    assert_eq!(t.tick, 15);
    assert!(t.on_action(Action::Refresh));
    assert_eq!(t.tick, 0);
    for _ in 0..19 {
        assert!(!t.on_sleep());
    }
    assert!(t.on_sleep());
}
