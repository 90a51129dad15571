use weekfetch::models::Resource;
use weekfetch::queue::{
    select_auto_download, DownloadMode, DownloadQueue, SignalState, STATUS_CANCELLED,
    STATUS_PAUSED, STATUS_RUNNING,
};

fn task(id: i64) -> Resource {
    Resource {
        id,
        category: "docs".to_string(),
        title: format!("Task {}", id),
        description: String::new(),
        download_url: format!("https://host.example/files/{}.pdf", id),
        thumbnail_url: None,
        file_type: None,
        is_active: true,
        created_at: 1_700_000_000,
    }
}

#[test]
fn test_add_task_deduplicates() {
    let mut q = DownloadQueue::new();
    assert!(q.add_task(task(1)));
    assert!(!q.add_task(task(1)));
    assert_eq!(q.queue_len(), 1);
}

#[test]
fn test_add_task_skips_active_id() {
    // A task whose transfer is already running is not queued again: its
    // identifier stays in exactly one of queue and active set.
    let mut q = DownloadQueue::new();
    q.add_task(task(1));
    let started = q.start_next().unwrap();
    assert_eq!(started.id, 1);
    assert!(!q.add_task(task(1)));
    assert_eq!(q.queue_len(), 0);
    assert_eq!(q.active_count(), 1);
}

#[test]
fn test_priority_insert_moves_to_front() {
    // A priority re-submission of a queued task leaves exactly one copy, at
    // the front.
    let mut q = DownloadQueue::new();
    q.add_task(task(1));
    q.add_task(task(2));
    q.add_task(task(3));
    assert!(q.add_task_priority(task(2)));
    let (queued, _) = q.snapshot();
    assert_eq!(queued, vec![(2, 1), (1, 2), (3, 3)]);
}

#[test]
fn test_priority_insert_new_task() {
    let mut q = DownloadQueue::new();
    q.add_task(task(1));
    assert!(q.add_task_priority(task(5)));
    let (queued, _) = q.snapshot();
    assert_eq!(queued, vec![(5, 1), (1, 2)]);
}

#[test]
fn test_serial_mode_runs_one_at_a_time() {
    // mode=Serial: A, B, C submitted in order; A starts immediately, B and C
    // wait until A terminates, then B starts before C.
    let mut q = DownloadQueue::new();
    q.update_mode(DownloadMode::Queue);
    q.add_task(task(1)); // A
    q.add_task(task(2)); // B
    q.add_task(task(3)); // C

    let a = q.start_next().unwrap();
    assert_eq!(a.id, 1);
    assert!(q.start_next().is_none()); // at capacity
    assert_eq!(q.queue_len(), 2);

    q.complete(1);
    let b = q.start_next().unwrap();
    assert_eq!(b.id, 2); // B before C
    assert!(q.start_next().is_none());
    q.complete(2);
    let c = q.start_next().unwrap();
    assert_eq!(c.id, 3);
}

#[test]
fn test_parallel_mode_caps_at_four() {
    // mode=Parallel: of five tasks exactly four become active; the fifth
    // starts only after one of the four terminates.
    let mut q = DownloadQueue::new();
    q.update_mode(DownloadMode::Parallel);
    for id in 1..=5 {
        q.add_task(task(id));
    }
    let mut started = Vec::new();
    while let Some(t) = q.start_next() {
        started.push(t.id);
    }
    assert_eq!(started, vec![1, 2, 3, 4]);
    assert_eq!(q.active_count(), 4);
    assert_eq!(q.queue_len(), 1);

    q.complete(3);
    let fifth = q.start_next().unwrap();
    assert_eq!(fifth.id, 5);
    assert!(q.start_next().is_none());
}

#[test]
fn test_mode_limits() {
    assert_eq!(DownloadMode::Queue.limit(), 1);
    assert_eq!(DownloadMode::Parallel.limit(), 4);
}

#[test]
fn test_mode_change_applies_to_next_dispatch() {
    let mut q = DownloadQueue::new();
    q.add_task(task(1));
    q.add_task(task(2));
    assert!(q.start_next().is_some());
    assert!(q.start_next().is_none()); // serial: one slot
    q.update_mode(DownloadMode::Parallel);
    assert!(q.start_next().is_some()); // next decision sees the new limit
}

#[test]
fn test_signal_lifecycle_on_cancel() {
    // Cancelling an active transfer flips its signal; retiring the transfer
    // leaves no dangling registry entry.
    let mut q = DownloadQueue::new();
    q.add_task(task(7));
    q.start_next().unwrap();
    assert_eq!(q.signal_of(7), Some(SignalState::Running));

    assert!(q.cancel(7));
    assert_eq!(q.signal_of(7), Some(SignalState::Cancelled));

    q.complete(7);
    assert_eq!(q.signal_of(7), None);
    assert_eq!(q.active_count(), 0);
}

#[test]
fn test_pause_then_resume_signal() {
    let mut q = DownloadQueue::new();
    q.add_task(task(7));
    q.start_next().unwrap();
    assert!(q.pause(7));
    assert_eq!(q.signal_of(7), Some(SignalState::Paused));
}

#[test]
fn test_pause_inactive_is_noop() {
    // Pause and cancel only affect in-flight transfers, not queued tasks.
    let mut q = DownloadQueue::new();
    q.add_task(task(9));
    assert!(!q.pause(9));
    assert!(!q.cancel(9));
    assert_eq!(q.signal_of(9), None);
}

#[test]
fn test_worker_started_once() {
    let mut q = DownloadQueue::new();
    assert!(q.ensure_worker_started());
    assert!(!q.ensure_worker_started());
    assert!(!q.ensure_worker_started());
}

#[test]
fn test_snapshot_positions() {
    let mut q = DownloadQueue::new();
    q.add_task(task(10));
    q.add_task(task(20));
    q.start_next().unwrap();
    let (queued, active) = q.snapshot();
    assert_eq!(queued, vec![(20, 1)]);
    assert_eq!(active, vec![10]);
}

#[test]
fn test_signal_codes_round_trip() {
    assert_eq!(SignalState::Running.to_code(), STATUS_RUNNING);
    assert_eq!(SignalState::Paused.to_code(), STATUS_PAUSED);
    assert_eq!(SignalState::Cancelled.to_code(), STATUS_CANCELLED);
    for state in [SignalState::Running, SignalState::Paused, SignalState::Cancelled] {
        assert_eq!(SignalState::from_code(state.to_code()), Some(state));
    }
    assert_eq!(SignalState::from_code(9), None);
}

#[test]
fn test_select_auto_download_filters() {
    let resources = vec![task(1), task(2), task(3)];
    let allowed = vec!["docs".to_string()];
    let present = vec![false, true, false];
    let picked = select_auto_download(&resources, &allowed, &present);
    let ids: Vec<i64> = picked.iter().map(|r| r.id).collect();
    assert_eq!(ids, vec![1, 3]);

    let none_allowed = select_auto_download(&resources, &Vec::new(), &present);
    assert!(none_allowed.is_empty());
}
