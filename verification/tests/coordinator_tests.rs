use ninecopy::copy::{CopyCoordinator, ThreadReadySignal};
use ninecopy::scan::{PathEntry, ScanAction, ScanCoordinator, WorkItem};
use ninecopy::stats::Accumulator;

fn file_item(path: &str, size: u64) -> WorkItem {
    WorkItem::File(PathEntry { path: path.to_string(), size })
}

fn dir_item(path: &str) -> WorkItem {
    WorkItem::Directory(PathEntry { path: path.to_string(), size: 0 })
}

#[test]
fn scan_coordinator_counts_files_and_round_robins_directories() {
    let mut c = ScanCoordinator::new(3);
    assert_eq!(c.pending, 1);
    assert_eq!(c.sender_idx, 1);

    let act = c.step(file_item("/src/a.txt", 10));
    assert_eq!(act, ScanAction::Continue);
    assert_eq!(c.pending, 1);
    assert_eq!(c.acc.file_count_found, 1);
    assert_eq!(c.acc.byte_count_found, 10);

    // discovered directories go to workers 1, 2, 0, 1, ... in turn
    assert_eq!(c.step(dir_item("/src/d1")), ScanAction::Dispatch(1));
    assert_eq!(c.step(dir_item("/src/d2")), ScanAction::Dispatch(2));
    assert_eq!(c.step(dir_item("/src/d3")), ScanAction::Dispatch(0));
    assert_eq!(c.step(dir_item("/src/d4")), ScanAction::Dispatch(1));
    assert_eq!(c.pending, 5);
    // directories are queued but not counted as found files
    assert_eq!(c.acc.file_count_found, 1);
    assert_eq!(c.queue.len(), 5);

    for _ in 0..5 {
        assert_eq!(c.step(WorkItem::Done), ScanAction::Continue);
    }
    assert_eq!(c.pending, 0);
}

#[test]
fn scan_coordinator_single_worker_dispatches_to_worker_zero() {
    let mut c = ScanCoordinator::new(1);
    assert_eq!(c.sender_idx, 0);
    assert_eq!(c.step(dir_item("/src/d")), ScanAction::Dispatch(0));
    assert_eq!(c.step(dir_item("/src/d/e")), ScanAction::Dispatch(0));
}

#[test]
fn copy_coordinator_hands_out_the_queue_in_order_then_goes_idle() {
    let queue = vec![file_item("/src/a", 1), file_item("/src/b", 2)];
    let mut c = CopyCoordinator::new(queue, 2, Accumulator::found(2, 3));
    let first = c.step(ThreadReadySignal { worker: 0, delta: Accumulator::default() });
    match first {
        Some(WorkItem::File(e)) => assert_eq!(e.path, "/src/a"),
        _ => panic!("expected the first file item"),
    }
    let second = c.step(ThreadReadySignal { worker: 1, delta: Accumulator::default() });
    match second {
        Some(WorkItem::File(e)) => assert_eq!(e.path, "/src/b"),
        _ => panic!("expected the second file item"),
    }
    // deltas are merged as the workers report back with nothing left
    assert!(c.step(ThreadReadySignal { worker: 0, delta: Accumulator::copies(1, 1) }).is_none());
    assert_eq!(c.idle, 1);
    assert_ne!(c.idle, c.threads);
    assert!(c.step(ThreadReadySignal { worker: 1, delta: Accumulator::copies(1, 2) }).is_none());
    assert_eq!(c.idle, 2);
    assert_eq!(c.idle, c.threads);
    assert_eq!(c.acc.file_count_found, 2);
    assert_eq!(c.acc.file_count_copied, 2);
    assert_eq!(c.acc.byte_count_copied, 3);
}

#[test]
fn copy_coordinator_empty_queue_goes_idle_immediately() {
    let mut c = CopyCoordinator::new(Vec::new(), 2, Accumulator::default());
    assert!(c.step(ThreadReadySignal { worker: 0, delta: Accumulator::default() }).is_none());
    assert!(c.step(ThreadReadySignal { worker: 1, delta: Accumulator::default() }).is_none());
    assert_eq!(c.idle, c.threads);
}
