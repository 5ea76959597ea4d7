//! The resync queue and the worker loop that consumes it.
//!
//! An entry of the queue names a block and the time from which the block
//! is to be reconciled. Entries are keyed by time, so the queue yields the
//! earliest first. A worker takes the earliest entry, puts it back if it
//! is not due yet, and else has the block reconciled.
//!
//! The worker loop is a state machine that only decides. The caller
//! performs each action (an operation on the queue, a reconciliation, a
//! sleep) and hands the outcome back as the next event.

use crate::block::BLOCK_RW_TIMEOUT_MSEC;
use crate::data;
use crate::data::{be_bytes, be_u64, is_first_difference, lemma_be_bytes_ordered, lemma_be_roundtrip,
    lex_lt, u64_from_bytes, u64_to_be_bytes};
use crate::error::Error;
use crate::rc::{opt_bytes, rc_entry_readable, rc_is_zero, rc_value};
use vstd::prelude::*;

verus! {

/// Delay before a block whose reconciliation failed is tried again, in milliseconds.
pub const RESYNC_RETRY_TIMEOUT_MSEC: u64 = 10_000;

/// Pause of the worker while the queue holds nothing that is due, in milliseconds.
pub const RESYNC_IDLE_SLEEP_MSEC: u64 = 1_000;

/// Number of workers that consume the queue side by side.
pub const RESYNC_WORKERS: usize = 2;

/// One entry of the resync queue.
#[derive(Clone, Debug, PartialEq, Eq)]
pub struct QueueEntry {
    /// The time at which the entry is due, as eight big-endian bytes, then the hash.
    pub key: Vec<u8>,
    /// The hash of the block to reconcile.
    pub value: Vec<u8>,
}

/// The key of the entry that schedules block `hash` at time `due`. Keys
/// compare as bytes, so the tree yields the earliest entry first.
pub open spec fn queue_key(due: u64, hash: Seq<u8>) -> Seq<u8> {
    be_bytes(due) + hash
}

/// The time at which the entry with that key is due.
pub open spec fn queue_key_time(key: Seq<u8>) -> int
    recommends
        key.len() >= 8,
{
    be_u64(key.subrange(0, 8))
}

/// A popped entry that can be decoded: a time in the key, a hash as value.
pub open spec fn queue_entry_readable(entry: QueueEntry) -> bool {
    entry.key@.len() >= 8 && entry.value@.len() == 32
}

/// The due time of a key is the time it was built from.
pub proof fn lemma_queue_key_time(due: u64, hash: Seq<u8>)
    ensures
        queue_key(due, hash).len() == 8 + hash.len(),
        queue_key_time(queue_key(due, hash)) == due,
{
    lemma_be_roundtrip(due);
    assert(queue_key(due, hash).subrange(0, 8) =~= be_bytes(due));
}

/// Keys sort by due time first: the entry that is due earlier comes
/// first in byte order, whatever the hashes.
pub proof fn lemma_queue_keys_sort_by_time(due1: u64, hash1: Seq<u8>, due2: u64, hash2: Seq<u8>)
    requires
        due1 < due2,
    ensures
        lex_lt(queue_key(due1, hash1), queue_key(due2, hash2)),
{
    lemma_be_bytes_ordered(due1, due2);
    let a = be_bytes(due1);
    let b = be_bytes(due2);
    let k = choose|k: int| is_first_difference(a, b, k) && a[k] < b[k];
    let key1 = queue_key(due1, hash1);
    let key2 = queue_key(due2, hash2);
    assert forall|j: int| 0 <= j <= k implies key1[j] == a[j] && key2[j] == b[j] by {}
    assert(is_first_difference(key1, key2, k) && key1[k] < key2[k]);
}

/// Keys of one due time sort by hash.
pub proof fn lemma_queue_keys_sort_by_hash(due: u64, hash1: Seq<u8>, hash2: Seq<u8>)
    requires
        hash1.len() == hash2.len(),
    ensures
        lex_lt(queue_key(due, hash1), queue_key(due, hash2)) <==> lex_lt(hash1, hash2),
{
    let key1 = queue_key(due, hash1);
    let key2 = queue_key(due, hash2);
    let t = be_bytes(due);
    assert forall|j: int| 0 <= j < 8 implies key1[j] == t[j] && key2[j] == t[j] by {}
    assert forall|j: int| 0 <= j < hash1.len() implies key1[8 + j] == hash1[j] && key2[8 + j]
        == hash2[j] by {}
    if lex_lt(hash1, hash2) {
        let k = choose|k: int| is_first_difference(hash1, hash2, k) && hash1[k] < hash2[k];
        assert(is_first_difference(key1, key2, 8 + k) && key1[8 + k] < key2[8 + k]) by {
            assert forall|j: int| 0 <= j < 8 + k implies key1[j] == key2[j] by {
                if j >= 8 {
                    assert(hash1[j - 8] == hash2[j - 8]);
                }
            }
        }
    }
    if lex_lt(key1, key2) {
        let k = choose|k: int| is_first_difference(key1, key2, k) && key1[k] < key2[k];
        assert(k >= 8);
        assert(is_first_difference(hash1, hash2, k - 8) && hash1[k - 8] < hash2[k - 8]) by {
            assert forall|j: int| 0 <= j < k - 8 implies hash1[j] == hash2[j] by {
                assert(key1[8 + j] == key2[8 + j]);
            }
        }
    }
}

/// Builds the queue entry that schedules a resync of block `hash`
/// `delay_msec` milliseconds after `now`. Inserting it twice is harmless:
/// reconciliation converges.
pub fn put_to_resync(hash: &data::Hash, now: u64, delay_msec: u64) -> (entry: QueueEntry)
    requires
        now + delay_msec <= u64::MAX,
    ensures
        entry.key@ == queue_key((now + delay_msec) as u64, hash@),
        entry.value@ == hash@,
        queue_entry_readable(entry),
        queue_key_time(entry.key@) == now + delay_msec,
{
    let due: u64 = now + delay_msec;
    let mut key = u64_to_be_bytes(due);
    let value = hash.to_vec();
    let mut i: usize = 0;
    while i < 32
        invariant
            i <= 32,
            value@ == hash@,
            key@ == be_bytes(due) + hash@.take(i as int),
        decreases 32 - i,
    {
        key.push(value[i]);
        i += 1;
        assert(key@ =~= be_bytes(due) + hash@.take(i as int));
    }
    proof {
        assert(hash@.take(32) =~= hash@);
        lemma_queue_key_time(due, hash@);
    }
    QueueEntry { key, value }
}

/// The time at which a queue entry is due, read from its key.
pub fn entry_time(key: &[u8]) -> (due: u64)
    requires
        key@.len() >= 8,
    ensures
        due == queue_key_time(key@),
{
    u64_from_bytes(&key[0..8])
}

/// Decides what follows the count of one more reference to block `hash`,
/// given the entry of its count before the increment was merged: a block
/// that was not referenced is scheduled for a resync, late enough for a
/// write that may be under way to end first.
pub fn block_incref(hash: &data::Hash, old_rc: Option<&[u8]>, now: u64) -> (resync: Option<
    QueueEntry,
>)
    requires
        rc_entry_readable(opt_bytes(old_rc)),
        rc_value(opt_bytes(old_rc)) == 0 ==> now + 2 * BLOCK_RW_TIMEOUT_MSEC <= u64::MAX,
    ensures
        resync.is_some() == (rc_value(opt_bytes(old_rc)) == 0),
        resync matches Some(entry) ==> entry.key@ == queue_key(
            (now + 2 * BLOCK_RW_TIMEOUT_MSEC) as u64,
            hash@,
        ) && entry.value@ == hash@,
{
    if rc_is_zero(old_rc) {
        Some(put_to_resync(hash, now, 2 * BLOCK_RW_TIMEOUT_MSEC))
    } else {
        None
    }
}

/// Decides what follows the count of one reference less to block `hash`,
/// given the entry of its count after the decrement was merged: a block
/// that is no longer referenced is scheduled for a resync, which will
/// consider its deletion.
pub fn block_decref(hash: &data::Hash, new_rc: Option<&[u8]>, now: u64) -> (resync: Option<
    QueueEntry,
>)
    requires
        rc_entry_readable(opt_bytes(new_rc)),
        rc_value(opt_bytes(new_rc)) == 0 ==> now + BLOCK_RW_TIMEOUT_MSEC <= u64::MAX,
    ensures
        resync.is_some() == (rc_value(opt_bytes(new_rc)) == 0),
        resync matches Some(entry) ==> entry.key@ == queue_key(
            (now + BLOCK_RW_TIMEOUT_MSEC) as u64,
            hash@,
        ) && entry.value@ == hash@,
{
    if rc_is_zero(new_rc) {
        Some(put_to_resync(hash, now, BLOCK_RW_TIMEOUT_MSEC))
    } else {
        None
    }
}

/// Where the worker loop stands.
#[derive(Clone, Copy, Debug, PartialEq, Eq)]
pub enum WorkerState {
    /// At the head of the loop, about to look at the shutdown signal.
    Idle,
    /// Waiting for the earliest entry of the queue.
    Popping,
    /// Waiting for the reconciliation of that block.
    Resyncing(data::Hash),
    /// Waiting for an entry that is not due to be back in the queue.
    Reinserting,
    /// Waiting for the entry that retries a failed block to be in the queue.
    Requeueing,
    /// Waiting for the pause to end.
    Sleeping,
    /// The loop has ended.
    Stopped,
}

/// What the caller observed while carrying out the last action.
#[derive(Debug, PartialEq, Eq)]
pub enum WorkerEvent {
    /// The shutdown signal, as it stands now.
    ExitFlag(bool),
    /// The earliest entry, taken off the queue, and the time after taking it.
    Popped { entry: Result<Option<QueueEntry>, Error>, now: u64 },
    /// How the reconciliation ended, and the time after it.
    Resynced { result: Result<(), Error>, now: u64 },
    /// Whether the entry handed out for insertion is in the queue.
    Inserted(Result<(), Error>),
    /// The pause is over.
    Slept,
}

/// What the caller must do next.
#[derive(Debug, PartialEq, Eq)]
pub enum WorkerAction {
    /// Read the shutdown signal.
    CheckExit,
    /// Take the earliest entry off the queue.
    PopMin,
    /// Reconcile that block.
    Resync(data::Hash),
    /// Insert that entry into the queue.
    Insert(QueueEntry),
    /// Pause for that many milliseconds.
    Sleep(u64),
    /// End the loop with that result.
    Stop(Result<(), Error>),
}

/// The result with which a machine ends if it is handed an event that
/// does not answer its last action.
pub open spec fn out_of_order(result: Result<(), Error>) -> bool {
    result matches Err(Error::Message(text)) && text@ == "step out of order"@
}

/// An event whose numbers the worker can use: a popped entry decodes, and
/// the retry time of a failed block fits in 64 bits.
pub open spec fn worker_event_usable(event: WorkerEvent) -> bool {
    match event {
        WorkerEvent::Popped { entry: Ok(Some(e)), .. } => queue_entry_readable(e),
        WorkerEvent::Resynced { result: Err(_), now } => now + RESYNC_RETRY_TIMEOUT_MSEC
            <= u64::MAX,
        _ => true,
    }
}

/// Whether the worker can use the numbers of an event.
pub fn worker_event_is_usable(event: &WorkerEvent) -> (usable: bool)
    ensures
        usable == worker_event_usable(*event),
{
    match event {
        WorkerEvent::Popped { entry: Ok(Some(e)), .. } => e.key.len() >= 8 && e.value.len()
            == 32,
        WorkerEvent::Resynced { result: Err(_), now } => *now <= u64::MAX
            - RESYNC_RETRY_TIMEOUT_MSEC,
        _ => true,
    }
}

/// The transition relation of the worker loop.
///
/// At the head of the loop the shutdown signal ends it. Else the earliest
/// entry is taken off the queue. An empty queue means a pause. An entry
/// that is due is reconciled, and queued again after the retry delay
/// if that failed; the loop then goes on without a pause. An entry that is
/// not due goes back into the queue as it was, and the worker pauses.
/// A failure of the queue itself ends the loop.
pub open spec fn worker_step_spec(
    state: WorkerState,
    event: WorkerEvent,
    next: WorkerState,
    action: WorkerAction,
) -> bool {
    match (state, event) {
        (WorkerState::Idle, WorkerEvent::ExitFlag(must_exit)) => if must_exit {
            next == WorkerState::Stopped && action == WorkerAction::Stop(Ok(()))
        } else {
            next == WorkerState::Popping && action == WorkerAction::PopMin
        },
        (WorkerState::Popping, WorkerEvent::Popped { entry, now }) => match entry {
            Err(e) => next == WorkerState::Stopped && action == WorkerAction::Stop(Err(e)),
            Ok(None) => next == WorkerState::Sleeping && action == WorkerAction::Sleep(
                RESYNC_IDLE_SLEEP_MSEC,
            ),
            Ok(Some(e)) => if now >= queue_key_time(e.key@) {
                &&& next matches WorkerState::Resyncing(h) && h@ == e.value@
                &&& action matches WorkerAction::Resync(h) && h@ == e.value@
            } else {
                &&& next == WorkerState::Reinserting
                &&& action matches WorkerAction::Insert(back) && back.key@ == e.key@
                    && back.value@ == e.value@
            },
        },
        (WorkerState::Resyncing(hash), WorkerEvent::Resynced { result, now }) => match result {
            Ok(_) => next == WorkerState::Idle && action == WorkerAction::CheckExit,
            Err(_) => {
                &&& next == WorkerState::Requeueing
                &&& action matches WorkerAction::Insert(retry) && retry.key@ == queue_key(
                    (now + RESYNC_RETRY_TIMEOUT_MSEC) as u64,
                    hash@,
                ) && retry.value@ == hash@
            },
        },
        (WorkerState::Reinserting, WorkerEvent::Inserted(done)) => match done {
            Ok(_) => next == WorkerState::Sleeping && action == WorkerAction::Sleep(
                RESYNC_IDLE_SLEEP_MSEC,
            ),
            Err(e) => next == WorkerState::Stopped && action == WorkerAction::Stop(Err(e)),
        },
        (WorkerState::Requeueing, WorkerEvent::Inserted(done)) => match done {
            Ok(_) => next == WorkerState::Idle && action == WorkerAction::CheckExit,
            Err(e) => next == WorkerState::Stopped && action == WorkerAction::Stop(Err(e)),
        },
        (WorkerState::Sleeping, WorkerEvent::Slept) => next == WorkerState::Idle && action
            == WorkerAction::CheckExit,
        _ => next == WorkerState::Stopped && (action matches WorkerAction::Stop(r)
            && out_of_order(r)),
    }
}

/// The state in which a worker starts, and its first action.
pub fn worker_start() -> (out: (WorkerState, WorkerAction))
    ensures
        out.0 == WorkerState::Idle,
        out.1 == WorkerAction::CheckExit,
{
    (WorkerState::Idle, WorkerAction::CheckExit)
}

fn worker_out_of_order() -> (out: (WorkerState, WorkerAction))
    ensures
        out.0 == WorkerState::Stopped,
        out.1 matches WorkerAction::Stop(r) && out_of_order(r),
{
    (
        WorkerState::Stopped,
        WorkerAction::Stop(Err(Error::Message(String::from_str("step out of order")))),
    )
}

/// One step of the worker loop: from the state and what the last action
/// gave to the next state and the next action.
pub fn worker_step(state: WorkerState, event: WorkerEvent) -> (out: (WorkerState, WorkerAction))
    requires
        worker_event_usable(event),
    ensures
        worker_step_spec(state, event, out.0, out.1),
{
    match state {
        WorkerState::Idle => match event {
            WorkerEvent::ExitFlag(must_exit) => {
                if must_exit {
                    (WorkerState::Stopped, WorkerAction::Stop(Ok(())))
                } else {
                    (WorkerState::Popping, WorkerAction::PopMin)
                }
            },
            _ => worker_out_of_order(),
        },
        WorkerState::Popping => match event {
            WorkerEvent::Popped { entry, now } => match entry {
                Err(e) => (WorkerState::Stopped, WorkerAction::Stop(Err(e))),
                Ok(None) => (WorkerState::Sleeping, WorkerAction::Sleep(RESYNC_IDLE_SLEEP_MSEC)),
                Ok(Some(e)) => {
                    let due = entry_time(e.key.as_slice());
                    if now >= due {
                        let hash = data::Hash::from_slice(e.value.as_slice()).unwrap();
                        (WorkerState::Resyncing(hash), WorkerAction::Resync(hash))
                    } else {
                        (WorkerState::Reinserting, WorkerAction::Insert(e))
                    }
                },
            },
            _ => worker_out_of_order(),
        },
        WorkerState::Resyncing(hash) => match event {
            WorkerEvent::Resynced { result, now } => match result {
                Ok(_) => (WorkerState::Idle, WorkerAction::CheckExit),
                Err(_) => {
                    let retry = put_to_resync(&hash, now, RESYNC_RETRY_TIMEOUT_MSEC);
                    (WorkerState::Requeueing, WorkerAction::Insert(retry))
                },
            },
            _ => worker_out_of_order(),
        },
        WorkerState::Reinserting => match event {
            WorkerEvent::Inserted(done) => match done {
                Ok(_) => (WorkerState::Sleeping, WorkerAction::Sleep(RESYNC_IDLE_SLEEP_MSEC)),
                Err(e) => (WorkerState::Stopped, WorkerAction::Stop(Err(e))),
            },
            _ => worker_out_of_order(),
        },
        WorkerState::Requeueing => match event {
            WorkerEvent::Inserted(done) => match done {
                Ok(_) => (WorkerState::Idle, WorkerAction::CheckExit),
                Err(e) => (WorkerState::Stopped, WorkerAction::Stop(Err(e))),
            },
            _ => worker_out_of_order(),
        },
        WorkerState::Sleeping => match event {
            WorkerEvent::Slept => (WorkerState::Idle, WorkerAction::CheckExit),
            _ => worker_out_of_order(),
        },
        WorkerState::Stopped => worker_out_of_order(),
    }
}

/// A block is reconciled only once it is due: the worker hands out a
/// block for reconciliation only in answer to a popped entry that names it
/// and whose time has come.
pub proof fn lemma_resync_only_when_due(
    state: WorkerState,
    event: WorkerEvent,
    next: WorkerState,
    action: WorkerAction,
)
    requires
        worker_step_spec(state, event, next, action),
        action is Resync,
    ensures
        event matches WorkerEvent::Popped { entry: Ok(Some(e)), now } && now >= queue_key_time(
            e.key@,
        ) && (action matches WorkerAction::Resync(h) && h@ == e.value@),
{
}

/// An entry that is not due goes back as it was: same key, same value,
/// and nothing else is asked of the queue in that step.
pub proof fn lemma_early_entry_reinserted_verbatim(
    entry: QueueEntry,
    now: u64,
    next: WorkerState,
    action: WorkerAction,
)
    requires
        now < queue_key_time(entry.key@),
        worker_step_spec(
            WorkerState::Popping,
            WorkerEvent::Popped { entry: Ok(Some(entry)), now },
            next,
            action,
        ),
    ensures
        action matches WorkerAction::Insert(back) && back.key@ == entry.key@ && back.value@
            == entry.value@,
        next == WorkerState::Reinserting,
{
}

} // verus!
