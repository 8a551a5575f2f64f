use rich_py::track::{thread_tick, BeginPlan, Bump, FinishPlan, NextStep, Tick, TrackState};

#[test]
fn track_begins_once_and_advances_after_each_value() {
    let mut t = TrackState::new(true);
    assert_eq!(t.next_step(), NextStep::Step { begin: true, bump: Bump::Nothing });
    assert_eq!(
        t.begin(None, 3, false, false),
        BeginPlan { start_progress: true, total: Some(3), add_task: true, spawn_thread: false }
    );
    t.yielded_value();
    assert_eq!(t.next_step(), NextStep::Step { begin: false, bump: Bump::AdvanceTask });
    t.yielded_value();
    assert_eq!(t.next_step(), NextStep::Step { begin: false, bump: Bump::AdvanceTask });
    assert_eq!(t.finish(), Some(FinishPlan { stop_thread: false, stop_progress: true }));
    assert_eq!(t.finish(), None);
    assert_eq!(t.next_step(), NextStep::Exhausted);
}

#[test]
fn track_counts_through_the_thread() {
    let mut t = TrackState::new(false);
    t.next_step();
    assert_eq!(
        t.begin(Some(8), 3, true, true),
        BeginPlan { start_progress: false, total: Some(8), add_task: false, spawn_thread: true }
    );
    assert!(t.has_thread);
    t.yielded_value();
    assert_eq!(t.next_step(), NextStep::Step { begin: false, bump: Bump::Counter });
    assert_eq!(t.next_step(), NextStep::Step { begin: false, bump: Bump::Counter });
    assert_eq!(t.counter, 2);
    assert!(t.pending_on_drop());
    assert_eq!(t.close(), Some(FinishPlan { stop_thread: true, stop_progress: false }));
    assert!(!t.pending_on_drop());
}

#[test]
fn closing_before_the_first_value_just_ends() {
    let mut t = TrackState::new(true);
    assert_eq!(t.close(), None);
    assert!(t.finished);
    assert_eq!(t.next_step(), NextStep::Exhausted);
}

#[test]
fn thread_tick_advances_by_the_count() {
    let mut last = 0i64;
    assert_eq!(thread_tick(false, true, 0, &mut last), Tick::Idle);
    assert_eq!(thread_tick(false, true, 3, &mut last), Tick::Advance(3));
    assert_eq!(last, 3);
    assert_eq!(thread_tick(false, true, 5, &mut last), Tick::Advance(2));
    assert_eq!(thread_tick(true, true, 9, &mut last), Tick::Stop(9));
    assert_eq!(thread_tick(false, false, 9, &mut last), Tick::Stop(9));
    assert_eq!(last, 5);
}

#[test]
fn begin_takes_the_length_hint() {
    let mut t = TrackState::new(false);
    t.next_step();
    let p = t.begin(None, 12, false, false);
    assert_eq!(p.total, Some(12));
    assert!(p.add_task);
    assert!(!p.spawn_thread);
    assert!(!t.has_thread);
    let mut t = TrackState::new(false);
    t.next_step();
    let p = t.begin(None, 0, true, false);
    assert_eq!(p.total, None);
    assert!(!p.add_task);
    let mut t = TrackState::new(false);
    t.next_step();
    assert_eq!(t.begin(Some(4), 12, false, false).total, Some(4));
}

#[test]
fn owned_display_starts_at_the_first_step() {
    let mut t = TrackState::new(true);
    assert_eq!(t.next_step(), NextStep::Step { begin: true, bump: Bump::Nothing });
    assert!(t.begin(None, 3, false, true).start_progress);
    assert_eq!(t.finish(), Some(FinishPlan { stop_thread: true, stop_progress: true }));
}

#[test]
fn a_whole_iteration_advances_once_per_value() {
    let mut t = TrackState::new(true);
    t.next_step();
    t.begin(None, 3, false, false);
    let mut advances = 0;
    for _ in 0..3 {
        t.yielded_value();
        if t.next_step() == (NextStep::Step { begin: false, bump: Bump::AdvanceTask }) {
            advances += 1;
        }
    }
    assert_eq!(advances, 3);
}

#[test]
fn thread_advances_add_up_to_the_last_count() {
    let mut last = 0i64;
    let mut sum = 0i64;
    for counter in [0i64, 2, 2, 5, 9] {
        if let Tick::Advance(n) = thread_tick(false, true, counter, &mut last) {
            assert_ne!(n, 0);
            sum += n;
        }
    }
    assert_eq!(sum, 9);
    assert_eq!(thread_tick(true, true, 11, &mut last), Tick::Stop(11));
}
