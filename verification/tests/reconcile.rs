use garage_store::block::{
    read_block, rpc_get_block, write_block, FileRead, Message, PutBlockMessage, WritePlan,
    BLOCK_RW_TIMEOUT_MSEC,
};
use garage_store::block_ref::{BlockRef, BlockRefTable, RcChange};
use garage_store::data;
use garage_store::error::Error;
use garage_store::rc::rc_merge;
use garage_store::reconcile::{
    resync_start, resync_step, tally_need_replies, ResyncAction, ResyncEvent, ResyncState,
};
use garage_store::replication::{LayoutHistory, LayoutVersion};
use garage_store::resync::{block_decref, block_incref, entry_time};
use garage_store::version_table::{Version, VersionBlock, VersionTable};

fn reconcile_node(n: u8) -> data::Uuid {
    data::Hash::filled(n)
}

fn reconcile_failed(text: &str) -> Result<Message, Error> {
    Err(Error::Message(text.to_string()))
}

fn reconcile_derailed() -> (ResyncState, ResyncAction) {
    (
        ResyncState::Finished,
        ResyncAction::Finish(Err(Error::Message("step out of order".to_string()))),
    )
}

fn reconcile_no_quorum() -> (ResyncState, ResyncAction) {
    (
        ResyncState::Finished,
        ResyncAction::Finish(Err(Error::Message(
            "Should delete block, but not enough nodes confirm that they have it.".to_string(),
        ))),
    )
}

// Two partitions, split at 0x80; the nodes of the first are 1, 2, .. and
// those of the second 11, 12, ..
fn reconcile_layout(rf: usize) -> LayoutHistory {
    let mut second = [0u8; 32];
    second[0] = 0x80;
    let low = (1..=rf as u8).map(reconcile_node);
    let high = (11..=10 + rf as u8).map(reconcile_node);
    LayoutHistory {
        versions: vec![LayoutVersion {
            version: 1,
            replication_factor: rf,
            partition_starts: vec![data::Hash::filled(0), data::Hash::new(second)],
            ring: low.chain(high).collect(),
        }],
        all_ack: 1,
    }
}

fn reconcile_block() -> data::Hash {
    data::Hash::filled(0x33)
}

fn reconcile_step(state: ResyncState, event: ResyncEvent, rf: usize) -> (ResyncState, ResyncAction) {
    resync_step(state, event, &reconcile_block(), &reconcile_layout(rf), rf)
}

fn reconcile_probe(exists: bool, needed: bool) -> (ResyncState, ResyncAction) {
    let (state, action) = reconcile_step(resync_start(), ResyncEvent::Begin, 3);
    assert_eq!((&state, &action), (&ResyncState::Probing, &ResyncAction::Probe));
    reconcile_step(state, ResyncEvent::Probed { exists, needed: Ok(needed) }, 3)
}

fn reconcile_polling(rf: usize) -> ResyncState {
    ResyncState::Polling { who: (1..=rf as u8).map(reconcile_node).collect() }
}

fn reconcile_answers(replies: Vec<Result<Message, Error>>, rf: usize) -> (ResyncState, ResyncAction) {
    reconcile_step(reconcile_polling(rf), ResyncEvent::Answers { replies }, rf)
}

#[test]
fn resync_does_nothing_when_settled() {
    assert_eq!(
        reconcile_probe(false, false),
        (ResyncState::Finished, ResyncAction::Finish(Ok(())))
    );
    assert_eq!(
        reconcile_probe(true, true),
        (ResyncState::Finished, ResyncAction::Finish(Ok(())))
    );
}

#[test]
fn resync_fetches_a_missing_block() {
    assert_eq!(
        reconcile_probe(false, true),
        (ResyncState::Fetching, ResyncAction::FetchBlock)
    );
    let (state, action) = reconcile_step(
        ResyncState::Fetching,
        ResyncEvent::Fetched(Ok(vec![1, 2, 3])),
        3,
    );
    assert_eq!(
        (&state, &action),
        (&ResyncState::Storing, &ResyncAction::StoreBlock { data: vec![1, 2, 3] })
    );
    assert_eq!(
        reconcile_step(state, ResyncEvent::Stored(Ok(())), 3),
        (ResyncState::Finished, ResyncAction::Finish(Ok(())))
    );
}

#[test]
fn resync_reports_a_failed_fetch() {
    let e = Error::Message("Unable to read block: no valid blocks returned".to_string());
    assert_eq!(
        reconcile_step(ResyncState::Fetching, ResyncEvent::Fetched(Err(e.clone())), 3),
        (ResyncState::Finished, ResyncAction::Finish(Err(e.clone())))
    );
    assert_eq!(
        reconcile_step(ResyncState::Storing, ResyncEvent::Stored(Err(e.clone())), 3),
        (ResyncState::Finished, ResyncAction::Finish(Err(e)))
    );
}

#[test]
fn resync_reports_a_failed_probe() {
    let e = Error::Message("tree closed".to_string());
    assert_eq!(
        reconcile_step(
            ResyncState::Probing,
            ResyncEvent::Probed { exists: true, needed: Err(e.clone()) },
            3
        ),
        (ResyncState::Finished, ResyncAction::Finish(Err(e)))
    );
}

#[test]
fn resync_deletes_an_unreferenced_block() {
    assert_eq!(
        reconcile_probe(true, false),
        (ResyncState::CheckingRefs, ResyncAction::QueryLiveRefs)
    );
    assert_eq!(
        reconcile_step(ResyncState::CheckingRefs, ResyncEvent::LiveRefs(Ok(false)), 3),
        (ResyncState::Removing, ResyncAction::RemoveFile)
    );
    assert_eq!(
        reconcile_step(ResyncState::Removing, ResyncEvent::Removed(Ok(())), 3),
        (ResyncState::Purging, ResyncAction::PurgeQueue)
    );
    assert_eq!(
        reconcile_step(ResyncState::Purging, ResyncEvent::Purged(Ok(())), 3),
        (ResyncState::Finished, ResyncAction::Finish(Ok(())))
    );
}

#[test]
fn resync_asks_the_replicas_when_references_live() {
    let replicas = vec![reconcile_node(1), reconcile_node(2), reconcile_node(3)];
    assert_eq!(
        reconcile_step(ResyncState::CheckingRefs, ResyncEvent::LiveRefs(Ok(true)), 3),
        (
            ResyncState::Polling { who: replicas.clone() },
            ResyncAction::AskReplicas { who: replicas }
        )
    );
    // A block of the upper half of the hash space lives on the other nodes.
    let high = vec![reconcile_node(11), reconcile_node(12)];
    assert_eq!(
        resync_step(
            ResyncState::CheckingRefs,
            ResyncEvent::LiveRefs(Ok(true)),
            &data::Hash::filled(0x80),
            &reconcile_layout(3),
            2
        ),
        (
            ResyncState::Polling { who: high.clone() },
            ResyncAction::AskReplicas { who: high }
        )
    );
    let e = Error::Message("table unavailable".to_string());
    assert_eq!(
        reconcile_step(ResyncState::CheckingRefs, ResyncEvent::LiveRefs(Err(e.clone())), 3),
        (ResyncState::Finished, ResyncAction::Finish(Err(e)))
    );
}

#[test]
fn resync_reports_failed_removal() {
    let e = Error::Message("permission denied".to_string());
    assert_eq!(
        reconcile_step(ResyncState::Removing, ResyncEvent::Removed(Err(e.clone())), 3),
        (ResyncState::Finished, ResyncAction::Finish(Err(e.clone())))
    );
    assert_eq!(
        reconcile_step(ResyncState::Purging, ResyncEvent::Purged(Err(e.clone())), 3),
        (ResyncState::Finished, ResyncAction::Finish(Err(e)))
    );
}

#[test]
fn tally_counts_errors_and_needs() {
    let who = vec![reconcile_node(1), reconcile_node(2), reconcile_node(3), reconcile_node(4)];
    let replies = vec![
        Ok(Message::NeedBlockReply(true)),
        reconcile_failed("timeout"),
        Ok(Message::NeedBlockReply(false)),
        Ok(Message::NeedBlockReply(true)),
    ];
    assert_eq!(
        tally_need_replies(&who, &replies),
        (vec![reconcile_node(1), reconcile_node(4)], 1)
    );
    assert_eq!(tally_need_replies(&vec![], &vec![]), (vec![], 0));
}

#[test]
fn tally_counts_malformed_replies_as_errors() {
    let who = vec![reconcile_node(1), reconcile_node(2), reconcile_node(3)];
    let replies = vec![
        Ok(Message::Success),
        Ok(Message::GetBlock(data::Hash::filled(0))),
        Ok(Message::NeedBlockReply(false)),
    ];
    assert_eq!(tally_need_replies(&who, &replies), (vec![], 2));
}

#[test]
fn cascade_deletion() {
    // A version with one block is created: the reference goes live, the count goes to one.
    let bytes = vec![0u8; 4096];
    let h = data::hash(&bytes);
    let v = data::Hash::filled(0x11);
    let version = Version::new(
        v,
        "bucket".to_string(),
        "key".to_string(),
        false,
        vec![VersionBlock { offset: 0, hash: h }],
    );
    let live = BlockRef { block: h, version: v, deleted: false };
    assert_eq!(BlockRefTable.updated(None, Some(live)), RcChange::Incref(h));
    let old_rc: Option<Vec<u8>> = None;
    let rc = rc_merge(h.as_slice(), old_rc.as_deref(), &[1]);
    assert_eq!(rc, Some(1u64.to_be_bytes().to_vec()));
    assert!(block_incref(&h, old_rc.as_deref(), 1_000).is_some());

    // The version is deleted: its references are withdrawn.
    let mut deleted = version.clone();
    deleted.merge(&Version::new(v, "bucket".to_string(), "key".to_string(), true, vec![]));
    assert!(deleted.deleted);
    assert!(deleted.blocks().is_empty());
    let refs = VersionTable.updated(Some(version), Some(deleted));
    assert_eq!(refs, vec![BlockRef { block: h, version: v, deleted: true }]);

    // The withdrawn reference takes the count to zero, which schedules a resync.
    let mut row = live;
    row.merge(&refs[0]);
    assert_eq!(BlockRefTable.updated(Some(live), Some(row)), RcChange::Decref(h));
    let rc = rc_merge(h.as_slice(), rc.as_deref(), &[0]);
    assert_eq!(rc, None);
    let entry = block_decref(&h, rc.as_deref(), 100_000).unwrap();
    assert_eq!(entry_time(&entry.key), 100_000 + BLOCK_RW_TIMEOUT_MSEC);
    assert_eq!(entry.value, h.to_vec());

    // At that time the file exists and is not needed; all three replicas answer "no".
    assert_eq!(
        reconcile_probe(true, false),
        (ResyncState::CheckingRefs, ResyncAction::QueryLiveRefs)
    );
    let (polling, ask) =
        reconcile_step(ResyncState::CheckingRefs, ResyncEvent::LiveRefs(Ok(true)), 3);
    assert_eq!(
        ask,
        ResyncAction::AskReplicas {
            who: vec![reconcile_node(1), reconcile_node(2), reconcile_node(3)]
        }
    );
    let replies = vec![
        Ok(Message::NeedBlockReply(false)),
        Ok(Message::NeedBlockReply(false)),
        Ok(Message::NeedBlockReply(false)),
    ];
    assert_eq!(
        reconcile_step(polling, ResyncEvent::Answers { replies }, 3),
        (ResyncState::Removing, ResyncAction::RemoveFile)
    );
}

#[test]
fn quorum_failure_safety() {
    // One timeout and one replica in need: the deletion goes on, after a push.
    let replies = vec![
        Ok(Message::NeedBlockReply(false)),
        reconcile_failed("timeout"),
        Ok(Message::NeedBlockReply(true)),
    ];
    let (state, action) = reconcile_answers(replies, 3);
    assert_eq!(
        (&state, &action),
        (
            &ResyncState::Pushing { need_nodes: vec![reconcile_node(3)], errors: 1 },
            &ResyncAction::PushBlock { to: vec![reconcile_node(3)] }
        )
    );
    assert_eq!(
        reconcile_step(
            state,
            ResyncEvent::Pushed { read: Ok(()), sent: vec![Ok(Message::Success)] },
            3
        ),
        (ResyncState::Removing, ResyncAction::RemoveFile)
    );

    // Two timeouts: the deletion is given up, and the worker will retry.
    let replies = vec![
        reconcile_failed("timeout"),
        reconcile_failed("timeout"),
        Ok(Message::NeedBlockReply(false)),
    ];
    assert_eq!(reconcile_answers(replies, 3), reconcile_no_quorum());
}

#[test]
fn quorum_thresholds() {
    let no = || Ok(Message::NeedBlockReply(false));
    let lost = || reconcile_failed("timeout");
    let removing = (ResyncState::Removing, ResyncAction::RemoveFile);
    assert_eq!(reconcile_answers(vec![no()], 1), removing);
    assert_eq!(reconcile_answers(vec![lost()], 1), reconcile_no_quorum());
    assert_eq!(reconcile_answers(vec![no(), lost()], 2), reconcile_no_quorum());
    assert_eq!(reconcile_answers(vec![no(), no(), lost(), lost()], 4), reconcile_no_quorum());
    assert_eq!(reconcile_answers(vec![no(), no(), no(), lost()], 4), removing);
    assert_eq!(reconcile_answers(vec![no(), no(), no(), lost(), lost()], 5), removing);
    assert_eq!(
        reconcile_answers(vec![no(), no(), lost(), lost(), lost()], 5),
        reconcile_no_quorum()
    );
}

#[test]
fn malformed_answers_count_against_the_quorum() {
    let replies = vec![
        Ok(Message::Success),
        Ok(Message::Success),
        Ok(Message::NeedBlockReply(false)),
    ];
    assert_eq!(reconcile_answers(replies, 3), reconcile_no_quorum());
}

#[test]
fn push_must_reach_every_node_in_need() {
    let pushing = || ResyncState::Pushing {
        need_nodes: vec![reconcile_node(1), reconcile_node(2)],
        errors: 0,
    };
    let first = Error::Message("first".to_string());
    let sent = vec![
        Ok(Message::Success),
        Err(first.clone()),
    ];
    assert_eq!(
        reconcile_step(pushing(), ResyncEvent::Pushed { read: Ok(()), sent }, 3),
        (ResyncState::Finished, ResyncAction::Finish(Err(first.clone())))
    );
    let sent = vec![Err(first.clone()), reconcile_failed("second")];
    assert_eq!(
        reconcile_step(pushing(), ResyncEvent::Pushed { read: Ok(()), sent }, 3),
        (ResyncState::Finished, ResyncAction::Finish(Err(first)))
    );
    let sent = vec![Ok(Message::Success), Ok(Message::Success)];
    assert_eq!(
        reconcile_step(pushing(), ResyncEvent::Pushed { read: Ok(()), sent }, 3),
        (ResyncState::Removing, ResyncAction::RemoveFile)
    );
    // One answer is missing.
    let sent = vec![Ok(Message::Success)];
    assert_eq!(
        reconcile_step(pushing(), ResyncEvent::Pushed { read: Ok(()), sent }, 3),
        reconcile_derailed()
    );
}

#[test]
fn push_needs_the_block_to_be_readable() {
    let h = data::hash(b"block");
    let pushing = ResyncState::Pushing { need_nodes: vec![reconcile_node(1)], errors: 0 };
    let sent = vec![Ok(Message::Success)];
    assert_eq!(
        reconcile_step(
            pushing,
            ResyncEvent::Pushed { read: Err(Error::CorruptData(h)), sent },
            3
        ),
        (ResyncState::Finished, ResyncAction::Finish(Err(Error::CorruptData(h))))
    );
}

#[test]
fn answers_must_match_the_replicas() {
    let replies = vec![Ok(Message::NeedBlockReply(false)), Ok(Message::NeedBlockReply(false))];
    assert_eq!(
        reconcile_step(reconcile_polling(3), ResyncEvent::Answers { replies }, 3),
        reconcile_derailed()
    );
}

#[test]
fn resync_refuses_events_out_of_order() {
    assert_eq!(
        reconcile_step(ResyncState::Start, ResyncEvent::Removed(Ok(())), 3),
        reconcile_derailed()
    );
    assert_eq!(
        reconcile_step(ResyncState::Finished, ResyncEvent::Begin, 3),
        reconcile_derailed()
    );
    assert_eq!(
        reconcile_step(ResyncState::Removing, ResyncEvent::Purged(Ok(())), 3),
        reconcile_derailed()
    );
    assert_eq!(
        reconcile_step(ResyncState::Fetching, ResyncEvent::Stored(Ok(())), 3),
        reconcile_derailed()
    );
}

#[test]
fn corruption_self_heal() {
    // The file of the block is overwritten: the read finds it out.
    let bytes = vec![0u8; 4096];
    let h = data::hash(&bytes);
    let plan = read_block(&h, FileRead::Contents(vec![0xffu8; 4096]));
    assert_eq!(plan.reply, Err(Error::CorruptData(h)));
    assert!(plan.remove_file);
    assert_eq!(plan.resync_delay, Some(0));

    // The resync finds the block needed and missing, and fetches it from the others.
    assert_eq!(
        reconcile_probe(false, true),
        (ResyncState::Fetching, ResyncAction::FetchBlock)
    );
    let replies = vec![
        reconcile_failed("timeout"),
        Ok(Message::PutBlock(PutBlockMessage { hash: h, data: bytes.clone() })),
    ];
    let fetched = rpc_get_block(&h, &replies);
    assert_eq!(fetched, Ok(bytes.clone()));
    let (state, action) = reconcile_step(ResyncState::Fetching, ResyncEvent::Fetched(fetched), 3);
    assert_eq!(action, ResyncAction::StoreBlock { data: bytes.clone() });
    assert_eq!(write_block(false), WritePlan::Store);
    assert_eq!(
        reconcile_step(state, ResyncEvent::Stored(Ok(())), 3),
        (ResyncState::Finished, ResyncAction::Finish(Ok(())))
    );

    // The next read hands out the right bytes.
    assert_eq!(
        read_block(&h, FileRead::Contents(bytes.clone())).reply,
        Ok(Message::PutBlock(PutBlockMessage { hash: h, data: bytes }))
    );
}
