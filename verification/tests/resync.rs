use garage_store::block::BLOCK_RW_TIMEOUT_MSEC;
use garage_store::data;
use garage_store::error::Error;
use garage_store::resync::{
    block_decref, block_incref, entry_time, put_to_resync, worker_event_is_usable, worker_start,
    worker_step, QueueEntry, WorkerAction, WorkerEvent, WorkerState, RESYNC_IDLE_SLEEP_MSEC,
    RESYNC_RETRY_TIMEOUT_MSEC, RESYNC_WORKERS,
};

fn resync_entry_at(due: u64, hash: &data::Hash) -> QueueEntry {
    let mut key = due.to_be_bytes().to_vec();
    key.extend(hash.as_slice());
    QueueEntry { key, value: hash.to_vec() }
}

fn resync_out_of_order() -> (WorkerState, WorkerAction) {
    (
        WorkerState::Stopped,
        WorkerAction::Stop(Err(Error::Message("step out of order".to_string()))),
    )
}

#[test]
fn resync_constants() {
    assert_eq!(RESYNC_RETRY_TIMEOUT_MSEC, 10_000);
    assert_eq!(RESYNC_IDLE_SLEEP_MSEC, 1_000);
    assert_eq!(RESYNC_WORKERS, 2);
}

#[test]
fn queue_entry_layout() {
    let h = data::hash(b"block");
    let entry = put_to_resync(&h, 1_000, 234);
    assert_eq!(entry.key.len(), 40);
    assert_eq!(&entry.key[..8], &1_234u64.to_be_bytes()[..]);
    assert_eq!(&entry.key[8..], h.as_slice());
    assert_eq!(entry.value, h.to_vec());
    assert_eq!(entry, resync_entry_at(1_234, &h));
}

#[test]
fn queue_entry_at_the_end_of_time() {
    let h = data::Hash::filled(9);
    let entry = put_to_resync(&h, u64::MAX - 5, 5);
    assert_eq!(&entry.key[..8], &[255u8; 8][..]);
    assert_eq!(entry_time(&entry.key), u64::MAX);
}

#[test]
fn queue_entry_time_round_trip() {
    let h = data::Hash::filled(3);
    for due in [0u64, 1, 999, 1_600_000_000_000, u64::MAX] {
        assert_eq!(entry_time(&put_to_resync(&h, due, 0).key), due);
    }
    assert_eq!(entry_time(&[0, 0, 0, 0, 0, 0, 1, 2]), 258);
}

#[test]
fn queue_orders_by_time_then_hash() {
    let low = data::Hash::filled(1);
    let high = data::Hash::filled(200);
    assert!(put_to_resync(&high, 10, 0).key < put_to_resync(&low, 11, 0).key);
    assert!(put_to_resync(&high, 255, 0).key < put_to_resync(&low, 256, 0).key);
    assert!(put_to_resync(&low, 10, 0).key < put_to_resync(&high, 10, 0).key);
}

#[test]
fn incref_of_unreferenced_block_schedules_resync() {
    let h = data::hash(b"block");
    let expected = Some(resync_entry_at(5_000 + 2 * BLOCK_RW_TIMEOUT_MSEC, &h));
    assert_eq!(block_incref(&h, None, 5_000), expected);
    assert_eq!(block_incref(&h, Some(&0u64.to_be_bytes()), 5_000), expected);
}

#[test]
fn incref_of_referenced_block_schedules_nothing() {
    let h = data::hash(b"block");
    assert_eq!(block_incref(&h, Some(&1u64.to_be_bytes()), 5_000), None);
    assert_eq!(block_incref(&h, Some(&77u64.to_be_bytes()), u64::MAX), None);
}

#[test]
fn decref_to_zero_schedules_resync() {
    let h = data::hash(b"block");
    let expected = Some(resync_entry_at(5_000 + BLOCK_RW_TIMEOUT_MSEC, &h));
    assert_eq!(block_decref(&h, None, 5_000), expected);
    assert_eq!(block_decref(&h, Some(&0u64.to_be_bytes()), 5_000), expected);
}

#[test]
fn decref_above_zero_schedules_nothing() {
    let h = data::hash(b"block");
    assert_eq!(block_decref(&h, Some(&1u64.to_be_bytes()), 5_000), None);
}

#[test]
fn worker_starts_at_the_loop_head() {
    assert_eq!(worker_start(), (WorkerState::Idle, WorkerAction::CheckExit));
}

#[test]
fn worker_stops_on_shutdown() {
    assert_eq!(
        worker_step(WorkerState::Idle, WorkerEvent::ExitFlag(true)),
        (WorkerState::Stopped, WorkerAction::Stop(Ok(())))
    );
}

#[test]
fn worker_pops_when_running() {
    assert_eq!(
        worker_step(WorkerState::Idle, WorkerEvent::ExitFlag(false)),
        (WorkerState::Popping, WorkerAction::PopMin)
    );
}

#[test]
fn worker_sleeps_on_empty_queue() {
    assert_eq!(
        worker_step(WorkerState::Popping, WorkerEvent::Popped { entry: Ok(None), now: 5 }),
        (WorkerState::Sleeping, WorkerAction::Sleep(1_000))
    );
    assert_eq!(
        worker_step(WorkerState::Sleeping, WorkerEvent::Slept),
        (WorkerState::Idle, WorkerAction::CheckExit)
    );
}

#[test]
fn worker_resyncs_a_due_entry() {
    let h = data::hash(b"block");
    for now in [1_000u64, 1_001, u64::MAX] {
        assert_eq!(
            worker_step(
                WorkerState::Popping,
                WorkerEvent::Popped { entry: Ok(Some(resync_entry_at(1_000, &h))), now }
            ),
            (WorkerState::Resyncing(h), WorkerAction::Resync(h))
        );
    }
}

#[test]
fn worker_reinserts_an_early_entry_verbatim() {
    let h = data::hash(b"block");
    let mut entry = resync_entry_at(1_000, &h);
    // Whatever follows the time in the key is kept as it is.
    entry.key.extend([1, 2, 3]);
    for now in [0u64, 999] {
        assert_eq!(
            worker_step(
                WorkerState::Popping,
                WorkerEvent::Popped { entry: Ok(Some(entry.clone())), now }
            ),
            (WorkerState::Reinserting, WorkerAction::Insert(entry.clone()))
        );
    }
    assert_eq!(
        worker_step(WorkerState::Reinserting, WorkerEvent::Inserted(Ok(()))),
        (WorkerState::Sleeping, WorkerAction::Sleep(1_000))
    );
}

#[test]
fn worker_goes_on_after_a_resync() {
    let h = data::hash(b"block");
    assert_eq!(
        worker_step(
            WorkerState::Resyncing(h),
            WorkerEvent::Resynced { result: Ok(()), now: 7 }
        ),
        (WorkerState::Idle, WorkerAction::CheckExit)
    );
}

#[test]
fn worker_retries_a_failed_resync_after_ten_seconds() {
    let h = data::hash(b"block");
    let failed = Err(Error::Message("no quorum".to_string()));
    assert_eq!(
        worker_step(
            WorkerState::Resyncing(h),
            WorkerEvent::Resynced { result: failed, now: 50_000 }
        ),
        (
            WorkerState::Requeueing,
            WorkerAction::Insert(resync_entry_at(60_000, &h))
        )
    );
    assert_eq!(
        worker_step(WorkerState::Requeueing, WorkerEvent::Inserted(Ok(()))),
        (WorkerState::Idle, WorkerAction::CheckExit)
    );
}

#[test]
fn worker_ends_when_the_queue_fails() {
    let e = Error::Message("disk full".to_string());
    assert_eq!(
        worker_step(
            WorkerState::Popping,
            WorkerEvent::Popped { entry: Err(e.clone()), now: 1 }
        ),
        (WorkerState::Stopped, WorkerAction::Stop(Err(e.clone())))
    );
    assert_eq!(
        worker_step(WorkerState::Reinserting, WorkerEvent::Inserted(Err(e.clone()))),
        (WorkerState::Stopped, WorkerAction::Stop(Err(e.clone())))
    );
    assert_eq!(
        worker_step(WorkerState::Requeueing, WorkerEvent::Inserted(Err(e.clone()))),
        (WorkerState::Stopped, WorkerAction::Stop(Err(e)))
    );
}

#[test]
fn worker_refuses_events_out_of_order() {
    assert_eq!(worker_step(WorkerState::Idle, WorkerEvent::Slept), resync_out_of_order());
    assert_eq!(
        worker_step(WorkerState::Popping, WorkerEvent::ExitFlag(false)),
        resync_out_of_order()
    );
    assert_eq!(
        worker_step(WorkerState::Stopped, WorkerEvent::ExitFlag(false)),
        resync_out_of_order()
    );
    assert_eq!(
        worker_step(WorkerState::Sleeping, WorkerEvent::Inserted(Ok(()))),
        resync_out_of_order()
    );
}

#[test]
fn worker_runs_a_whole_round() {
    let h = data::hash(b"block");
    let (mut state, mut action) = worker_start();
    let mut trace = vec![];
    for _ in 0..8 {
        let event = match &action {
            WorkerAction::CheckExit => WorkerEvent::ExitFlag(trace.len() >= 6),
            WorkerAction::PopMin => WorkerEvent::Popped {
                entry: Ok(if trace.len() < 3 { Some(resync_entry_at(10, &h)) } else { None }),
                now: 20,
            },
            WorkerAction::Resync(_) => WorkerEvent::Resynced { result: Ok(()), now: 21 },
            WorkerAction::Insert(_) => WorkerEvent::Inserted(Ok(())),
            WorkerAction::Sleep(_) => WorkerEvent::Slept,
            WorkerAction::Stop(_) => break,
        };
        let next = worker_step(state, event);
        state = next.0;
        action = next.1;
        trace.push(state);
    }
    assert_eq!(
        trace,
        vec![
            WorkerState::Popping,
            WorkerState::Resyncing(h),
            WorkerState::Idle,
            WorkerState::Popping,
            WorkerState::Sleeping,
            WorkerState::Idle,
            WorkerState::Stopped,
        ]
    );
    assert_eq!(action, WorkerAction::Stop(Ok(())));
}

#[test]
fn worker_usable_events() {
    let h = data::hash(b"block");
    let popped = |entry: QueueEntry| WorkerEvent::Popped { entry: Ok(Some(entry)), now: 0 };
    assert!(worker_event_is_usable(&popped(resync_entry_at(1, &h))));
    assert!(!worker_event_is_usable(&popped(QueueEntry { key: vec![0; 7], value: h.to_vec() })));
    assert!(!worker_event_is_usable(&popped(QueueEntry { key: vec![0; 8], value: vec![0; 31] })));
    assert!(worker_event_is_usable(&popped(QueueEntry { key: vec![0; 8], value: h.to_vec() })));
    assert!(worker_event_is_usable(&WorkerEvent::Popped { entry: Ok(None), now: u64::MAX }));
    let failed = |now: u64| WorkerEvent::Resynced {
        result: Err(Error::Message("failed".to_string())),
        now,
    };
    assert!(worker_event_is_usable(&failed(u64::MAX - 10_000)));
    assert!(!worker_event_is_usable(&failed(u64::MAX - 9_999)));
    assert!(worker_event_is_usable(&WorkerEvent::Resynced { result: Ok(()), now: u64::MAX }));
    assert!(worker_event_is_usable(&WorkerEvent::Slept));
    assert!(worker_event_is_usable(&WorkerEvent::ExitFlag(true)));
}
