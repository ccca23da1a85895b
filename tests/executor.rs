use ledcore::executor::{ExecutorState, MAX_TASKS};

#[test]
fn all_tasks_run_to_completion() {
    let n: usize = 5;
    let mut state = ExecutorState::new();
    state.start(n);
    let mut polls = vec![0usize; n];
    let mut done = vec![false; n];
    let mut notifications = 1;
    while notifications > 0 {
        notifications = 0;
        while let Some(id) = state.next_task() {
            assert!(!done[id], "task polled after completion");
            polls[id] += 1;
            // task k completes after k wake cycles
            if polls[id] > id {
                done[id] = true;
                state.task_completed(id);
            } else if state.wake(id) {
                notifications += 1;
            }
        }
        if state.is_finished() {
            break;
        }
    }
    assert!(state.is_finished());
    assert!(done.iter().all(|d| *d));
    for (k, p) in polls.iter().enumerate() {
        assert_eq!(*p, k + 1);
    }
}

#[test]
fn start_queues_every_task_in_order() {
    let mut state = ExecutorState::new();
    state.start(3);
    assert!(state.is_running());
    assert_eq!(state.next_task(), Some(0));
    assert_eq!(state.next_task(), Some(1));
    assert_eq!(state.next_task(), Some(2));
    assert_eq!(state.next_task(), None);
    assert!(!state.is_finished());
}

#[test]
fn double_wake_enqueues_once() {
    let mut state = ExecutorState::new();
    state.start(2);
    assert_eq!(state.next_task(), Some(0));
    assert_eq!(state.next_task(), Some(1));
    assert!(state.wake(1));
    assert!(!state.wake(1));
    assert_eq!(state.next_task(), Some(1));
    assert_eq!(state.next_task(), None);
}

#[test]
fn wake_of_queued_task_is_collapsed() {
    let mut state = ExecutorState::new();
    state.start(1);
    assert!(!state.wake(0));
    assert_eq!(state.next_task(), Some(0));
    assert_eq!(state.next_task(), None);
}

#[test]
fn full_queue_never_overflows() {
    let mut state = ExecutorState::new();
    state.start(MAX_TASKS);
    for id in 0..MAX_TASKS {
        assert!(!state.wake(id));
    }
    for id in 0..MAX_TASKS {
        assert_eq!(state.next_task(), Some(id));
    }
    for id in (0..MAX_TASKS).rev() {
        assert!(state.wake(id));
        assert!(!state.wake(id));
    }
    for id in (0..MAX_TASKS).rev() {
        assert_eq!(state.next_task(), Some(id));
    }
    assert_eq!(state.next_task(), None);
}

#[test]
fn completed_task_is_never_returned() {
    let mut state = ExecutorState::new();
    state.start(2);
    assert_eq!(state.next_task(), Some(0));
    // the task wakes itself while being polled, then reports completion
    assert!(state.wake(0));
    state.task_completed(0);
    assert!(!state.wake(0));
    assert_eq!(state.next_task(), Some(1));
    assert_eq!(state.next_task(), None);
    state.task_completed(1);
    assert!(state.is_finished());
}

#[test]
fn wake_after_teardown_is_noop() {
    let mut state = ExecutorState::new();
    state.start(1);
    assert_eq!(state.next_task(), Some(0));
    state.task_completed(0);
    assert!(state.is_finished());
    state.teardown();
    assert!(!state.is_running());
    assert!(!state.wake(0));
    assert!(!state.wake(7));
    assert_eq!(state.next_task(), None);
}

#[test]
fn wake_before_any_run_is_noop() {
    let mut state = ExecutorState::new();
    assert!(!state.wake(0));
    assert_eq!(state.next_task(), None);
    assert!(state.is_finished());
}

#[test]
fn unknown_id_is_ignored() {
    let mut state = ExecutorState::new();
    state.start(2);
    assert_eq!(state.next_task(), Some(0));
    assert!(!state.wake(2));
    assert!(!state.wake(usize::MAX));
}
