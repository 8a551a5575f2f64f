use rich_py::tasks::FileTotalError;
use rich_py::tasks::{Sample, Speed, TaskError, TaskTable, MAX_SAMPLES};

#[test]
fn task_ids_increase_from_zero() {
    let mut table = TaskTable::new(30);
    assert_eq!(table.add_task(Some(100), 0, true, true, 5), 0);
    assert_eq!(table.add_task(None, 0, true, false, 5), 1);
    assert_eq!(table.add_task(Some(10), 2, false, true, 6), 2);
    assert_eq!(table.task_ids(), vec![0, 1, 2]);
    assert_eq!(table.next_task_id(), 3);
    let t = table.task(1).unwrap();
    assert_eq!(t.total, None);
    assert_eq!(t.start_time, None);
    let t = table.task(2).unwrap();
    assert_eq!(t.completed, 2);
    assert!(!t.visible);
    assert_eq!(t.start_time, Some(6));
}

#[test]
fn removed_task_is_gone_and_ids_are_not_reused() {
    let mut table = TaskTable::new(30);
    table.add_task(Some(100), 0, true, true, 0);
    table.add_task(Some(100), 0, true, true, 0);
    assert_eq!(table.remove_task(0), Ok(()));
    assert!(table.task(0).is_none());
    assert_eq!(table.remove_task(0), Err(TaskError::Missing));
    assert_eq!(table.add_task(Some(1), 0, true, true, 0), 2);
    assert_eq!(table.task_ids(), vec![1, 2]);
}

#[test]
fn missing_task_is_a_key_error() {
    let mut table = TaskTable::new(30);
    assert_eq!(table.update(7, None, Some(1), None, None, 0), Err(TaskError::Missing));
    assert_eq!(table.advance(7, 1, 0), Err(TaskError::Missing));
    assert_eq!(table.reset(7, true, None, None, None, 0), Err(TaskError::Missing));
    assert_eq!(table.start_task(7, 0), Err(TaskError::Missing));
    assert_eq!(table.stop_task(7, 0), Err(TaskError::Missing));
}

#[test]
fn update_records_progress_and_finishes_at_total() {
    let mut table = TaskTable::new(30);
    let id = table.add_task(Some(10), 0, true, true, 100);
    table.update(id, None, None, Some(4), None, 105).unwrap();
    let t = table.task(id).unwrap();
    assert_eq!(t.completed, 4);
    assert_eq!(t.samples, vec![Sample { time: 105, completed: 4 }]);
    assert_eq!(t.finished_time, None);
    table.update(id, None, Some(10), None, Some(false), 110).unwrap();
    let t = table.task(id).unwrap();
    assert_eq!(t.completed, 10);
    assert!(!t.visible);
    assert_eq!(t.finished_time, Some(10));
    assert_eq!(t.samples.len(), 2);
    assert!(table.finished());
}

#[test]
fn update_with_a_new_total_starts_over() {
    let mut table = TaskTable::new(30);
    let id = table.add_task(Some(5), 0, true, true, 0);
    table.update(id, None, Some(5), None, None, 10).unwrap();
    assert_eq!(table.task(id).unwrap().finished_time, Some(10));
    table.update(id, Some(20), None, None, None, 12).unwrap();
    let t = table.task(id).unwrap();
    assert_eq!(t.total, Some(20));
    assert_eq!(t.finished_time, None);
    assert!(t.samples.is_empty());
    // The same total again keeps the progress.
    table.update(id, None, Some(20), None, None, 14).unwrap();
    table.update(id, Some(20), None, None, None, 15).unwrap();
    assert_eq!(table.task(id).unwrap().finished_time, Some(14));
}

#[test]
fn a_task_never_started_does_not_finish() {
    let mut table = TaskTable::new(30);
    let id = table.add_task(Some(3), 0, true, false, 0);
    table.update(id, None, Some(3), None, None, 9).unwrap();
    assert_eq!(table.task(id).unwrap().finished_time, None);
    assert!(!table.finished());
}

#[test]
fn overflowing_advance_is_refused() {
    let mut table = TaskTable::new(30);
    let id = table.add_task(None, i64::MAX, true, true, 0);
    assert_eq!(table.advance(id, 1, 1), Err(TaskError::Overflow));
    assert_eq!(table.update(id, None, None, Some(1), None, 1), Err(TaskError::Overflow));
    // An explicit count wins over the advance.
    assert_eq!(table.update(id, None, Some(3), Some(1), None, 1), Ok(()));
    assert_eq!(table.task(id).unwrap().completed, 3);
}

#[test]
fn advance_samples_and_speed() {
    let mut table = TaskTable::new(30);
    let id = table.add_task(Some(6), 0, true, true, 0);
    table.advance(id, 2, 10).unwrap();
    table.advance(id, 0, 20).unwrap();
    table.advance(id, 4, 30).unwrap();
    let t = table.task(id).unwrap();
    assert_eq!(t.samples.len(), 3);
    assert_eq!(t.finished_time, Some(30));
    assert_eq!(t.finished_speed, Some(Speed { completed: 4, span: 20 }));
    assert_eq!(t.speed(), Some(Speed { completed: 4, span: 20 }));
    assert_eq!(t.elapsed(99), Some(99));
    assert_eq!(t.remaining(), Some(0));
}

#[test]
fn old_samples_leave_the_window() {
    let mut table = TaskTable::new(10);
    let id = table.add_task(None, 0, true, true, 0);
    table.advance(id, 1, 0).unwrap();
    table.advance(id, 1, 5).unwrap();
    table.advance(id, 1, 16).unwrap();
    let times: Vec<i64> = table.task(id).unwrap().samples.iter().map(|s| s.time).collect();
    assert_eq!(times, vec![16]);
}

#[test]
fn the_window_keeps_the_last_thousand_samples() {
    let mut table = TaskTable::new(1_000_000);
    let id = table.add_task(None, 0, true, true, 0);
    for step in 0..1005 {
        table.advance(id, 1, step).unwrap();
    }
    let t = table.task(id).unwrap();
    assert_eq!(t.samples.len(), MAX_SAMPLES);
    assert_eq!(t.samples[0].time, 5);
}

#[test]
fn reset_clears_progress_and_restarts_the_clock() {
    let mut table = TaskTable::new(30);
    let id = table.add_task(Some(2), 0, true, true, 0);
    table.stop_task(id, 4).unwrap();
    table.advance(id, 2, 5).unwrap();
    table.reset(id, true, Some(8), None, Some(false), 50).unwrap();
    let t = table.task(id).unwrap();
    assert_eq!(t.completed, 0);
    assert_eq!(t.total, Some(8));
    assert_eq!(t.start_time, Some(50));
    assert_eq!(t.stop_time, Some(4));
    assert!(!t.visible);
    assert!(t.samples.is_empty());
    assert_eq!(t.finished_time, None);
    table.reset(id, false, None, Some(3), None, 60).unwrap();
    let t = table.task(id).unwrap();
    assert_eq!(t.start_time, None);
    assert_eq!(t.completed, 3);
}

#[test]
fn start_and_stop_task_clock() {
    let mut table = TaskTable::new(30);
    let id = table.add_task(None, 0, true, false, 0);
    table.stop_task(id, 7).unwrap();
    let t = table.task(id).unwrap();
    assert_eq!(t.start_time, Some(7));
    assert_eq!(t.stop_time, Some(7));
    table.start_task(id, 9).unwrap();
    assert_eq!(table.task(id).unwrap().start_time, Some(7));
    assert_eq!(table.task(id).unwrap().elapsed(100), Some(0));
}

#[test]
fn empty_table_counts_as_finished() {
    let table = TaskTable::new(30);
    assert!(table.finished());
    assert_eq!(table.len(), 0);
}

#[test]
fn visible_tasks_are_the_rows() {
    let mut table = TaskTable::new(30);
    table.add_task(None, 0, true, true, 0);
    table.add_task(None, 0, false, true, 0);
    table.add_task(None, 0, true, true, 0);
    assert_eq!(table.visible_ids(), vec![0, 2]);
    table.update(0, None, None, None, Some(false), 1).unwrap();
    assert_eq!(table.visible_ids(), vec![2]);
}

#[test]
fn wrap_file_total_comes_from_the_task() {
    let mut table = TaskTable::new(30);
    let sized = table.add_task(Some(4096), 0, true, true, 0);
    let unsized_task = table.add_task(None, 0, true, true, 0);
    assert_eq!(table.file_total(Some(10), Some(sized)), Ok(10));
    assert_eq!(table.file_total(None, Some(sized)), Ok(4096));
    assert_eq!(table.file_total(None, Some(unsized_task)), Err(FileTotalError::NoTotal));
    assert_eq!(table.file_total(None, Some(99)), Err(FileTotalError::Missing));
    assert_eq!(table.file_total(None, None), Err(FileTotalError::NoTotal));
}

#[test]
fn time_remaining_rounds_up_what_is_left_over_the_speed() {
    let mut table = TaskTable::new(1000);
    let id = table.add_task(Some(100), 0, true, true, 0);
    // One sample: no speed yet.
    table.advance(id, 10, 0).unwrap();
    assert_eq!(table.task(id).unwrap().time_remaining(1), None);
    // 20 steps in 10 ticks: 70 left at 2 per second is 35 s.
    table.advance(id, 20, 10).unwrap();
    assert_eq!(table.task(id).unwrap().time_remaining(1), Some((false, 35)));
    // At 2 ticks a second the speed is 4 per second: 17.5 s, rounded up.
    assert_eq!(table.task(id).unwrap().time_remaining(2), Some((false, 18)));
}

#[test]
fn time_remaining_of_a_falling_count_is_negative() {
    let mut table = TaskTable::new(1000);
    let id = table.add_task(Some(100), 0, true, true, 0);
    table.advance(id, 10, 0).unwrap();
    table.advance(id, -4, 3).unwrap();
    // 94 left at -4/3 per second: -70.5 s, rounded up to -70.
    assert_eq!(table.task(id).unwrap().time_remaining(1), Some((true, 70)));
}

#[test]
fn time_remaining_is_zero_once_finished_and_none_without_total() {
    let mut table = TaskTable::new(1000);
    let id = table.add_task(Some(10), 0, true, true, 0);
    table.advance(id, 10, 5).unwrap();
    assert_eq!(table.task(id).unwrap().time_remaining(1), Some((false, 0)));
    let open = table.add_task(None, 0, true, true, 0);
    table.advance(open, 1, 0).unwrap();
    table.advance(open, 1, 4).unwrap();
    assert_eq!(table.task(open).unwrap().time_remaining(1), None);
}

#[test]
fn open_adds_one_task_or_updates_the_given_one() {
    let mut table = TaskTable::new(30);
    let id = table.add_or_update(None, 512, 7).unwrap();
    assert_eq!(id, 0);
    assert_eq!(table.task_ids(), vec![0]);
    let t = table.task(0).unwrap();
    assert_eq!(t.total, Some(512));
    assert_eq!(t.completed, 0);
    assert_eq!(t.start_time, Some(7));
    assert_eq!(table.add_or_update(Some(0), 1024, 8), Ok(0));
    assert_eq!(table.task_ids(), vec![0]);
    assert_eq!(table.task(0).unwrap().total, Some(1024));
    assert_eq!(table.add_or_update(Some(5), 1, 9), Err(TaskError::Missing));
    assert_eq!(table.task_ids(), vec![0]);
}
