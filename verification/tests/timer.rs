use bladedance::timer::{after_tick, TickOutcome, TimerManager};

#[test]
fn due_timers_come_off_in_order() {
    let mut m = TimerManager::new();
    assert_eq!(m.add_timer(1, 10, 100), 110);
    assert_eq!(m.add_timer(2, 5, 100), 105);
    assert_eq!(m.add_timer(3, 20, 100), 120);
    assert!(m.take_due(104).is_empty());
    assert_eq!(m.take_due(110), vec![(105, 2), (110, 1)]);
    assert_eq!(m.len(), 1);
    assert_eq!(m.entry_at(0), (120, 3));
}

#[test]
fn timers_due_together_are_all_kept() {
    let mut m = TimerManager::new();
    m.insert(50, 1);
    m.insert(50, 2);
    m.insert(40, 3);
    assert_eq!(m.len(), 3);
    assert_eq!(m.entry_at(0), (40, 3));
    assert_eq!(m.entry_at(1), (50, 1));
    assert_eq!(m.entry_at(2), (50, 2));
    assert!(!m.del_timer(2, 0));
    assert!(!m.del_timer(2, 40));
    assert!(m.del_timer(1, 50));
    assert_eq!(m.len(), 2);
    assert_eq!(m.take_due(50), vec![(40, 3), (50, 2)]);
}

#[test]
fn two_timers_added_for_one_time_are_both_due() {
    let mut m = TimerManager::new();
    assert_eq!(m.add_timer(7, 5, 100), 105);
    assert_eq!(m.add_timer(8, 5, 100), 105);
    assert_eq!(m.take_due(105), vec![(105, 7), (105, 8)]);
}

#[test]
fn tick_outcomes() {
    assert_eq!(after_tick(true, true, true, 100, 5), TickOutcome::Reschedule(105));
    assert_eq!(after_tick(false, true, true, 100, 5), TickOutcome::Skip);
    assert_eq!(after_tick(true, false, true, 100, 5), TickOutcome::Destroy);
    assert_eq!(after_tick(true, true, false, 100, 5), TickOutcome::Destroy);
}
