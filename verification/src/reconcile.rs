//! Reconciliation of one block: the state machine behind a resync.
//!
//! A block that is wanted here and missing is fetched from its replicas. A
//! block that is present and unwanted is deleted, but only after the
//! deletion protocol: if a live reference still names it somewhere, its
//! replicas are asked whether they need it, too many missing answers
//! abort, and every replica that needs it receives it first.
//!
//! The machine only decides. The caller performs each action (a look at
//! the file and the count, a query of the reference table, a round of
//! messages, a file operation) and hands the outcome back as the next
//! event.

use crate::block::Message;
use crate::data;
use crate::error::Error;
use crate::replication::LayoutHistory;
use crate::resync::out_of_order;
use vstd::prelude::*;

verus! {

/// Where the reconciliation of a block stands.
#[derive(Clone, Debug, PartialEq, Eq)]
pub enum ResyncState {
    /// Nothing was done yet.
    Start,
    /// Waiting for the presence of the file and for the reference count.
    Probing,
    /// Present and unwanted here: waiting to learn whether a live reference names the block.
    CheckingRefs,
    /// Waiting for the answers of the replicas of the block, which are `who`.
    Polling { who: Vec<data::Uuid> },
    /// Waiting for the block to reach the replicas that need it. `errors`
    /// counts the replicas that gave no well-formed answer.
    Pushing { need_nodes: Vec<data::Uuid>, errors: usize },
    /// Waiting for the file to be removed.
    Removing,
    /// Waiting for the block's stale queue entry to be removed.
    Purging,
    /// Wanted and missing here: waiting for the block from the replicas.
    Fetching,
    /// Waiting for the fetched block to be written.
    Storing,
    /// The reconciliation has ended.
    Finished,
}

/// What the caller observed while carrying out the last action.
#[derive(Debug, PartialEq, Eq)]
pub enum ResyncEvent {
    /// The reconciliation is asked for.
    Begin,
    /// Whether the file exists, and whether the reference count is above zero.
    Probed { exists: bool, needed: Result<bool, Error> },
    /// Whether some reference to the block is live.
    LiveRefs(Result<bool, Error>),
    /// What each replica answered, in the order in which they were given.
    Answers { replies: Vec<Result<Message, Error>> },
    /// Whether the block could be read here, and what each replica in
    /// need answered to receiving it.
    Pushed { read: Result<(), Error>, sent: Vec<Result<Message, Error>> },
    /// Whether the file is removed.
    Removed(Result<(), Error>),
    /// Whether the queue entry is removed.
    Purged(Result<(), Error>),
    /// The block as the replicas gave it.
    Fetched(Result<Vec<u8>, Error>),
    /// Whether the fetched block is written.
    Stored(Result<(), Error>),
}

/// What the caller must do next.
#[derive(Debug, PartialEq, Eq)]
pub enum ResyncAction {
    /// Look for the file and read the reference count.
    Probe,
    /// Ask the reference table for one live reference to the block.
    QueryLiveRefs,
    /// Ask each of these nodes, the replicas of the block, whether it needs it.
    AskReplicas { who: Vec<data::Uuid> },
    /// Read the block and send it to these nodes.
    PushBlock { to: Vec<data::Uuid> },
    /// Remove the file of the block.
    RemoveFile,
    /// Remove the queue entry stored under the block's hash.
    PurgeQueue,
    /// Fetch the block from its replicas.
    FetchBlock,
    /// Write these bytes as the block.
    StoreBlock { data: Vec<u8> },
    /// End with that result. An error makes the worker try again later.
    Finish(Result<(), Error>),
}

/// A replica answered that it needs the block.
pub open spec fn answer_needs(reply: Result<Message, Error>) -> bool {
    reply matches Ok(Message::NeedBlockReply(true))
}

/// A replica gave a well-formed answer, yes or no.
pub open spec fn answer_given(reply: Result<Message, Error>) -> bool {
    reply matches Ok(Message::NeedBlockReply(_))
}

/// Among the first `n` replies, the number that are no well-formed answer:
/// failures, timeouts and messages of another kind.
pub open spec fn count_errors(replies: Seq<Result<Message, Error>>, n: int) -> nat
    decreases n,
{
    if n <= 0 {
        0
    } else {
        count_errors(replies, n - 1) + if answer_given(replies[n - 1]) {
            0nat
        } else {
            1nat
        }
    }
}

/// Among the first `n` replicas, in order, those that answered that they
/// need the block.
pub open spec fn nodes_in_need(
    who: Seq<data::Uuid>,
    replies: Seq<Result<Message, Error>>,
    n: int,
) -> Seq<data::Uuid>
    decreases n,
{
    if n <= 0 {
        Seq::empty()
    } else if answer_needs(replies[n - 1]) {
        nodes_in_need(who, replies, n - 1).push(who[n - 1])
    } else {
        nodes_in_need(who, replies, n - 1)
    }
}

/// Too many replicas gave no answer for a deletion to go on: more than
/// half of the others.
pub open spec fn quorum_lost(errors: int, replication_factor: int) -> bool {
    errors > (replication_factor - 1) / 2
}

/// Every reply reports success.
pub open spec fn all_sent(sent: Seq<Result<Message, Error>>) -> bool {
    forall|i: int| 0 <= i < sent.len() ==> sent[i] is Ok
}

/// `i` is the first reply that reports a failure.
pub open spec fn first_failure(sent: Seq<Result<Message, Error>>, i: int) -> bool {
    &&& 0 <= i < sent.len()
    &&& sent[i] is Err
    &&& forall|j: int| 0 <= j < i ==> sent[j] is Ok
}

impl ResyncState {
    /// What a state records is consistent: the replicas that are asked
    /// are as many as the replication factor says, and a push is under way
    /// only for replicas in need and only when enough replicas answered.
    pub open spec fn wf(&self, replication_factor: int) -> bool {
        match self {
            ResyncState::Polling { who } => who@.len() == replication_factor,
            ResyncState::Pushing { need_nodes, errors } => need_nodes@.len() > 0 && !quorum_lost(
                *errors as int,
                replication_factor,
            ),
            _ => true,
        }
    }
}

/// The machine ends with that result.
pub open spec fn finishes(next: ResyncState, action: ResyncAction, result: Result<(), Error>) -> bool {
    next == ResyncState::Finished && action == ResyncAction::Finish(result)
}

/// The machine ends because the event does not answer its last action.
pub open spec fn derails(next: ResyncState, action: ResyncAction) -> bool {
    next == ResyncState::Finished && (action matches ResyncAction::Finish(r) && out_of_order(r))
}

/// The message with which a deletion is given up for want of answers.
pub open spec fn quorum_lost_error(e: Error) -> bool {
    e matches Error::Message(text) && text@
        == "Should delete block, but not enough nodes confirm that they have it."@
}

/// The transition relation of the reconciliation of block `hash`, for a
/// cluster that keeps `replication_factor` copies of each block on the
/// nodes that `layout` names.
///
/// With `exists` for the presence of the file and `needed` for a count
/// above zero: nothing is done when both hold or neither does; a block
/// that is needed and missing is fetched and stored; a block that exists
/// and is not needed goes through the deletion protocol. Any failure of
/// an action ends the reconciliation with that failure.
pub open spec fn resync_step_spec(
    state: ResyncState,
    event: ResyncEvent,
    hash: data::Hash,
    layout: LayoutHistory,
    replication_factor: int,
    next: ResyncState,
    action: ResyncAction,
) -> bool {
    match (state, event) {
        (ResyncState::Start, ResyncEvent::Begin) => next == ResyncState::Probing && action
            == ResyncAction::Probe,
        (ResyncState::Probing, ResyncEvent::Probed { exists, needed }) => match needed {
            Err(e) => finishes(next, action, Err(e)),
            Ok(needed) => if exists && !needed {
                next == ResyncState::CheckingRefs && action == ResyncAction::QueryLiveRefs
            } else if needed && !exists {
                next == ResyncState::Fetching && action == ResyncAction::FetchBlock
            } else {
                finishes(next, action, Ok(()))
            },
        },
        (ResyncState::CheckingRefs, ResyncEvent::LiveRefs(live)) => match live {
            Err(e) => finishes(next, action, Err(e)),
            Ok(false) => next == ResyncState::Removing && action == ResyncAction::RemoveFile,
            Ok(true) => {
                let replicas = layout.spec_current().nodes_of_spec(hash@, replication_factor);
                &&& next matches ResyncState::Polling { who } && who@ == replicas
                &&& action matches ResyncAction::AskReplicas { who } && who@ == replicas
            },
        },
        (ResyncState::Polling { who }, ResyncEvent::Answers { replies }) => {
            let n = replies@.len() as int;
            if who@.len() != n {
                derails(next, action)
            } else if quorum_lost(count_errors(replies@, n) as int, replication_factor) {
                next == ResyncState::Finished && (action matches ResyncAction::Finish(Err(e))
                    && quorum_lost_error(e))
            } else if nodes_in_need(who@, replies@, n).len() == 0 {
                next == ResyncState::Removing && action == ResyncAction::RemoveFile
            } else {
                &&& next matches ResyncState::Pushing { need_nodes, errors } && need_nodes@
                    == nodes_in_need(who@, replies@, n) && errors == count_errors(replies@, n)
                &&& action matches ResyncAction::PushBlock { to } && to@ == nodes_in_need(
                    who@,
                    replies@,
                    n,
                )
            }
        },
        (ResyncState::Pushing { need_nodes, errors }, ResyncEvent::Pushed { read, sent }) => {
            match read {
                Err(e) => finishes(next, action, Err(e)),
                Ok(_) => if sent@.len() != need_nodes@.len() {
                    derails(next, action)
                } else if all_sent(sent@) {
                    next == ResyncState::Removing && action == ResyncAction::RemoveFile
                } else {
                    exists|i: int| #[trigger]
                        first_failure(sent@, i) && (sent@[i] matches Err(e) && finishes(
                            next,
                            action,
                            Err(e),
                        ))
                },
            }
        },
        (ResyncState::Removing, ResyncEvent::Removed(done)) => match done {
            Err(e) => finishes(next, action, Err(e)),
            Ok(_) => next == ResyncState::Purging && action == ResyncAction::PurgeQueue,
        },
        (ResyncState::Purging, ResyncEvent::Purged(done)) => finishes(next, action, done),
        (ResyncState::Fetching, ResyncEvent::Fetched(block)) => match block {
            Err(e) => finishes(next, action, Err(e)),
            Ok(data) => next == ResyncState::Storing && action == ResyncAction::StoreBlock {
                data,
            },
        },
        (ResyncState::Storing, ResyncEvent::Stored(done)) => finishes(next, action, done),
        _ => derails(next, action),
    }
}

/// Counts the replicas that gave no well-formed answer and lists, in
/// order, those that answered that they need the block.
pub fn tally_need_replies(
    who: &Vec<data::Uuid>,
    replies: &Vec<Result<Message, Error>>,
) -> (out: (Vec<data::Uuid>, usize))
    requires
        who@.len() == replies@.len(),
    ensures
        out.0@ == nodes_in_need(who@, replies@, replies@.len() as int),
        out.1 == count_errors(replies@, replies@.len() as int),
        out.1 <= replies@.len(),
{
    let mut need_nodes: Vec<data::Uuid> = Vec::new();
    let mut errors: usize = 0;
    let mut i: usize = 0;
    while i < replies.len()
        invariant
            i <= replies@.len(),
            who@.len() == replies@.len(),
            need_nodes@ == nodes_in_need(who@, replies@, i as int),
            errors == count_errors(replies@, i as int),
            errors <= i,
        decreases replies@.len() - i,
    {
        match &replies[i] {
            Ok(Message::NeedBlockReply(needed)) => {
                if *needed {
                    need_nodes.push(who[i]);
                }
            },
            _ => {
                errors += 1;
            },
        }
        i += 1;
    }
    (need_nodes, errors)
}

fn resync_out_of_order() -> (out: (ResyncState, ResyncAction))
    ensures
        derails(out.0, out.1),
{
    (
        ResyncState::Finished,
        ResyncAction::Finish(Err(Error::Message(String::from_str("step out of order")))),
    )
}

/// The first reply that reports a failure, if there is one.
fn find_first_failure(sent: &Vec<Result<Message, Error>>) -> (found: Option<usize>)
    ensures
        match found {
            Some(i) => first_failure(sent@, i as int),
            None => all_sent(sent@),
        },
{
    let mut i: usize = 0;
    while i < sent.len()
        invariant
            i <= sent@.len(),
            forall|j: int| 0 <= j < i ==> sent@[j] is Ok,
        decreases sent@.len() - i,
    {
        if sent[i].is_err() {
            return Some(i);
        }
        i += 1;
    }
    None
}

fn copy_nodes(nodes: &Vec<data::Uuid>) -> (copy: Vec<data::Uuid>)
    ensures
        copy@ == nodes@,
{
    let mut copy: Vec<data::Uuid> = Vec::new();
    let mut i: usize = 0;
    while i < nodes.len()
        invariant
            i <= nodes@.len(),
            copy@ == nodes@.take(i as int),
        decreases nodes@.len() - i,
    {
        copy.push(nodes[i]);
        i += 1;
        assert(copy@ =~= nodes@.take(i as int));
    }
    assert(nodes@.take(nodes@.len() as int) =~= nodes@);
    copy
}

/// The state in which a reconciliation starts. Its first event is `Begin`.
pub fn resync_start() -> (state: ResyncState)
    ensures
        state == ResyncState::Start,
{
    ResyncState::Start
}

/// One step of the reconciliation of block `hash`: from the state and
/// what the last action gave to the next state and the next action.
/// `layout` is the layout as the node knows it now.
pub fn resync_step(
    state: ResyncState,
    event: ResyncEvent,
    hash: &data::Hash,
    layout: &LayoutHistory,
    replication_factor: usize,
) -> (out: (ResyncState, ResyncAction))
    requires
        layout.wf(),
        1 <= replication_factor <= layout.spec_current().replication_factor,
    ensures
        resync_step_spec(state, event, *hash, *layout, replication_factor as int, out.0, out.1),
        out.0.wf(replication_factor as int),
{
    match state {
        ResyncState::Start => match event {
            ResyncEvent::Begin => (ResyncState::Probing, ResyncAction::Probe),
            _ => resync_out_of_order(),
        },
        ResyncState::Probing => match event {
            ResyncEvent::Probed { exists, needed } => match needed {
                Err(e) => (ResyncState::Finished, ResyncAction::Finish(Err(e))),
                Ok(needed) => {
                    if exists && !needed {
                        (ResyncState::CheckingRefs, ResyncAction::QueryLiveRefs)
                    } else if needed && !exists {
                        (ResyncState::Fetching, ResyncAction::FetchBlock)
                    } else {
                        (ResyncState::Finished, ResyncAction::Finish(Ok(())))
                    }
                },
            },
            _ => resync_out_of_order(),
        },
        ResyncState::CheckingRefs => match event {
            ResyncEvent::LiveRefs(live) => match live {
                Err(e) => (ResyncState::Finished, ResyncAction::Finish(Err(e))),
                Ok(needed_by_others) => {
                    if needed_by_others {
                        let who = layout.current().nodes_of(hash, replication_factor);
                        let asked = copy_nodes(&who);
                        (ResyncState::Polling { who }, ResyncAction::AskReplicas { who: asked })
                    } else {
                        (ResyncState::Removing, ResyncAction::RemoveFile)
                    }
                },
            },
            _ => resync_out_of_order(),
        },
        ResyncState::Polling { who } => match event {
            ResyncEvent::Answers { replies } => {
                if who.len() != replies.len() {
                    return resync_out_of_order();
                }
                let (need_nodes, errors) = tally_need_replies(&who, &replies);
                if errors > (replication_factor - 1) / 2 {
                    (
                        ResyncState::Finished,
                        ResyncAction::Finish(
                            Err(
                                Error::Message(
                                    String::from_str(
                                        "Should delete block, but not enough nodes confirm that they have it.",
                                    ),
                                ),
                            ),
                        ),
                    )
                } else if need_nodes.len() > 0 {
                    let to = copy_nodes(&need_nodes);
                    (ResyncState::Pushing { need_nodes, errors }, ResyncAction::PushBlock { to })
                } else {
                    (ResyncState::Removing, ResyncAction::RemoveFile)
                }
            },
            _ => resync_out_of_order(),
        },
        ResyncState::Pushing { need_nodes, errors } => match event {
            ResyncEvent::Pushed { read, sent } => match read {
                Err(e) => (ResyncState::Finished, ResyncAction::Finish(Err(e))),
                Ok(_) => {
                    if sent.len() != need_nodes.len() {
                        return resync_out_of_order();
                    }
                    match find_first_failure(&sent) {
                        Some(i) => {
                            let mut sent = sent;
                            match sent.remove(i) {
                                Err(e) => {
                                    return (ResyncState::Finished, ResyncAction::Finish(Err(e)));
                                },
                                Ok(_) => {},
                            }
                        },
                        None => {},
                    }
                    (ResyncState::Removing, ResyncAction::RemoveFile)
                },
            },
            _ => resync_out_of_order(),
        },
        ResyncState::Removing => match event {
            ResyncEvent::Removed(done) => match done {
                Err(e) => (ResyncState::Finished, ResyncAction::Finish(Err(e))),
                Ok(_) => (ResyncState::Purging, ResyncAction::PurgeQueue),
            },
            _ => resync_out_of_order(),
        },
        ResyncState::Purging => match event {
            ResyncEvent::Purged(done) => (ResyncState::Finished, ResyncAction::Finish(done)),
            _ => resync_out_of_order(),
        },
        ResyncState::Fetching => match event {
            ResyncEvent::Fetched(block) => match block {
                Err(e) => (ResyncState::Finished, ResyncAction::Finish(Err(e))),
                Ok(data) => (ResyncState::Storing, ResyncAction::StoreBlock { data }),
            },
            _ => resync_out_of_order(),
        },
        ResyncState::Storing => match event {
            ResyncEvent::Stored(done) => (ResyncState::Finished, ResyncAction::Finish(done)),
            _ => resync_out_of_order(),
        },
        ResyncState::Finished => resync_out_of_order(),
    }
}

/// Every replica that answered that it needs the block is among the
/// nodes that the block is pushed to, and only such replicas are.
pub proof fn lemma_nodes_in_need_exact(
    who: Seq<data::Uuid>,
    replies: Seq<Result<Message, Error>>,
    n: int,
)
    requires
        0 <= n <= replies.len(),
        n <= who.len(),
    ensures
        forall|i: int|
            0 <= i < n && answer_needs(#[trigger] replies[i]) ==> nodes_in_need(
                who,
                replies,
                n,
            ).contains(who[i]),
        forall|node: data::Uuid| #[trigger]
            nodes_in_need(who, replies, n).contains(node) ==> exists|i: int|
                0 <= i < n && answer_needs(replies[i]) && who[i] == node,
        nodes_in_need(who, replies, n).len() <= n,
    decreases n,
{
    if n > 0 {
        lemma_nodes_in_need_exact(who, replies, n - 1);
        let before = nodes_in_need(who, replies, n - 1);
        let now = nodes_in_need(who, replies, n);
        if answer_needs(replies[n - 1]) {
            assert(now == before.push(who[n - 1]));
            assert(now[now.len() - 1] == who[n - 1]);
            assert forall|i: int| 0 <= i < n && answer_needs(#[trigger] replies[i]) implies now.contains(
                who[i],
            ) by {
                if i < n - 1 {
                    let k = choose|k: int| 0 <= k < before.len() && before[k] == who[i];
                    assert(now[k] == who[i]);
                }
            }
            assert forall|node: data::Uuid| #[trigger] now.contains(node) implies exists|i: int|
                0 <= i < n && answer_needs(replies[i]) && who[i] == node by {
                let k = choose|k: int| 0 <= k < now.len() && now[k] == node;
                if k < before.len() {
                    assert(before[k] == node);
                    assert(before.contains(node));
                } else {
                    assert(answer_needs(replies[n - 1]) && who[n - 1] == node);
                }
            }
        } else {
            assert(now == before);
        }
    }
}

/// Among the first `n` replies, the number of well-formed answers.
pub open spec fn count_answers(replies: Seq<Result<Message, Error>>, n: int) -> nat
    decreases n,
{
    if n <= 0 {
        0
    } else {
        count_answers(replies, n - 1) + if answer_given(replies[n - 1]) {
            1nat
        } else {
            0nat
        }
    }
}

/// Each reply is a well-formed answer or counts as an error.
pub proof fn lemma_answers_and_errors(replies: Seq<Result<Message, Error>>, n: int)
    requires
        0 <= n <= replies.len(),
    ensures
        count_answers(replies, n) + count_errors(replies, n) == n,
    decreases n,
{
    if n > 0 {
        lemma_answers_and_errors(replies, n - 1);
    }
}

/// When a deletion is not given up and each of the `replication_factor`
/// replicas was asked, a strict majority of them gave a well-formed
/// answer.
pub proof fn lemma_majority_answered(
    replies: Seq<Result<Message, Error>>,
    replication_factor: int,
)
    requires
        replication_factor >= 1,
        replies.len() == replication_factor,
        !quorum_lost(count_errors(replies, replication_factor) as int, replication_factor),
    ensures
        2 * count_answers(replies, replication_factor) > replication_factor,
{
    lemma_answers_and_errors(replies, replication_factor);
}

/// Among the first `n` replies, the number of answers that the block is
/// not needed.
pub open spec fn count_refusals(replies: Seq<Result<Message, Error>>, n: int) -> nat
    decreases n,
{
    if n <= 0 {
        0
    } else {
        count_refusals(replies, n - 1) + if replies[n - 1] matches Ok(
            Message::NeedBlockReply(false),
        ) {
            1nat
        } else {
            0nat
        }
    }
}

/// When no replica needs the block, every well-formed answer says so.
pub proof fn lemma_answers_are_refusals(replies: Seq<Result<Message, Error>>, n: int)
    requires
        0 <= n <= replies.len(),
        forall|i: int| 0 <= i < n ==> !answer_needs(#[trigger] replies[i]),
    ensures
        count_refusals(replies, n) == count_answers(replies, n),
    decreases n,
{
    if n > 0 {
        lemma_answers_are_refusals(replies, n - 1);
        assert(!answer_needs(replies[n - 1]));
    }
}

/// When a deletion is not given up, each of the `replication_factor`
/// replicas was asked and none of them needs the block, a strict majority
/// of them answered that they do not need it.
pub proof fn lemma_majority_refused(replies: Seq<Result<Message, Error>>, replication_factor: int)
    requires
        replication_factor >= 1,
        replies.len() == replication_factor,
        !quorum_lost(count_errors(replies, replication_factor) as int, replication_factor),
        forall|i: int| 0 <= i < replies.len() ==> !answer_needs(#[trigger] replies[i]),
    ensures
        2 * count_refusals(replies, replication_factor) > replication_factor,
{
    lemma_majority_answered(replies, replication_factor);
    lemma_answers_are_refusals(replies, replication_factor);
}

/// The deletion protocol starts only for a block that is present and
/// that no reference counts here: a block whose count is above zero when
/// the reconciliation looks at it is fetched or left alone.
pub proof fn lemma_deletion_starts_unreferenced(
    state: ResyncState,
    event: ResyncEvent,
    hash: data::Hash,
    layout: LayoutHistory,
    replication_factor: int,
    next: ResyncState,
    action: ResyncAction,
)
    requires
        resync_step_spec(state, event, hash, layout, replication_factor, next, action),
        next is CheckingRefs || action is QueryLiveRefs,
    ensures
        state is Probing,
        event == (ResyncEvent::Probed { exists: true, needed: Ok(false) }),
{
}

/// The machine moves along the deletion protocol one step at a time: it
/// asks the replicas only after the reference table, and pushes or
/// removes only after what the protocol puts before.
pub proof fn lemma_protocol_order(
    state: ResyncState,
    event: ResyncEvent,
    hash: data::Hash,
    layout: LayoutHistory,
    replication_factor: int,
    next: ResyncState,
    action: ResyncAction,
)
    requires
        resync_step_spec(state, event, hash, layout, replication_factor, next, action),
    ensures
        next is Polling ==> state is CheckingRefs,
        next is Pushing ==> state is Polling,
        next is Removing ==> state is CheckingRefs || state is Polling || state is Pushing,
        next is Purging ==> state is Removing,
        next is Storing ==> state is Fetching,
        next is Fetching ==> state is Probing,
{
    match (state, event) {
        (ResyncState::Pushing { need_nodes, errors }, ResyncEvent::Pushed { read, sent }) => {
            match read {
                Ok(_) => {
                    if sent@.len() == need_nodes@.len() && !all_sent(sent@) {
                        let i = choose|i: int| #[trigger]
                            first_failure(sent@, i) && (sent@[i] matches Err(e) && finishes(
                                next,
                                action,
                                Err(e),
                            ));
                    }
                },
                Err(_) => {},
            }
        },
        _ => {},
    }
}

/// A block's file is removed only with a confirmation: the machine asks
/// for the removal in answer to one of three events only.
///
/// Either no live reference names the block. Or each replica was asked,
/// none of them needs the block, and a strict majority of them answered
/// so. Or, after a round of answers in which at most half of the other
/// replicas failed to answer and some replicas needed the block, the
/// block was read here and every one of those replicas confirmed that it
/// received it.
pub proof fn lemma_removal_is_confirmed(
    state: ResyncState,
    event: ResyncEvent,
    hash: data::Hash,
    layout: LayoutHistory,
    replication_factor: int,
    next: ResyncState,
    action: ResyncAction,
)
    requires
        replication_factor >= 1,
        state.wf(replication_factor),
        resync_step_spec(state, event, hash, layout, replication_factor, next, action),
        action is RemoveFile,
    ensures
        ({
            ||| state is CheckingRefs && event == ResyncEvent::LiveRefs(Ok(false))
            ||| {
                &&& state is Polling
                &&& event matches ResyncEvent::Answers { replies }
                &&& replies@.len() == replication_factor
                &&& forall|i: int| 0 <= i < replies@.len() ==> !answer_needs(#[trigger] replies@[i])
                &&& 2 * count_refusals(replies@, replication_factor) > replication_factor
            }
            ||| {
                &&& state matches ResyncState::Pushing { need_nodes, errors }
                &&& !quorum_lost(errors as int, replication_factor)
                &&& event matches ResyncEvent::Pushed { read, sent }
                &&& read is Ok
                &&& sent@.len() == need_nodes@.len()
                &&& all_sent(sent@)
            }
        }),
{
    match (state, event) {
        (ResyncState::Polling { who }, ResyncEvent::Answers { replies }) => {
            let n = replies@.len() as int;
            lemma_nodes_in_need_exact(who@, replies@, n);
            assert forall|i: int| 0 <= i < n implies !answer_needs(#[trigger] replies@[i]) by {
                if answer_needs(replies@[i]) {
                    assert(nodes_in_need(who@, replies@, n).contains(who@[i]));
                }
            }
            lemma_majority_refused(replies@, replication_factor);
        },
        (ResyncState::Pushing { need_nodes, errors }, ResyncEvent::Pushed { read, sent }) => {
            match read {
                Ok(_) => {
                    if sent@.len() == need_nodes@.len() && !all_sent(sent@) {
                        let i = choose|i: int| #[trigger]
                            first_failure(sent@, i) && (sent@[i] matches Err(e) && finishes(
                                next,
                                action,
                                Err(e),
                            ));
                    }
                },
                Err(_) => {},
            }
        },
        _ => {},
    }
}

/// A push goes to the replicas that answered that they need the block,
/// all of them and no other node, and starts only when a strict majority
/// of the replicas gave a well-formed answer.
pub proof fn lemma_push_reaches_all_in_need(
    who: Vec<data::Uuid>,
    replies: Vec<Result<Message, Error>>,
    hash: data::Hash,
    layout: LayoutHistory,
    replication_factor: int,
    next: ResyncState,
    action: ResyncAction,
)
    requires
        replication_factor >= 1,
        (ResyncState::Polling { who }).wf(replication_factor),
        resync_step_spec(
            ResyncState::Polling { who },
            ResyncEvent::Answers { replies },
            hash,
            layout,
            replication_factor,
            next,
            action,
        ),
        action is PushBlock,
    ensures
        replies@.len() == replication_factor,
        2 * count_answers(replies@, replication_factor) > replication_factor,
        action matches ResyncAction::PushBlock { to } && (forall|i: int|
            0 <= i < replies@.len() && answer_needs(#[trigger] replies@[i]) ==> to@.contains(
                who@[i],
            )) && (forall|node: data::Uuid| #[trigger]
            to@.contains(node) ==> exists|i: int|
                0 <= i < replies@.len() && answer_needs(replies@[i]) && who@[i] == node),
{
    lemma_nodes_in_need_exact(who@, replies@, replies@.len() as int);
    lemma_majority_answered(replies@, replication_factor);
}

/// A step from a consistent state leads to a consistent state.
pub proof fn lemma_step_keeps_wf(
    state: ResyncState,
    event: ResyncEvent,
    hash: data::Hash,
    layout: LayoutHistory,
    replication_factor: int,
    next: ResyncState,
    action: ResyncAction,
)
    requires
        layout.wf(),
        1 <= replication_factor <= layout.spec_current().replication_factor,
        resync_step_spec(state, event, hash, layout, replication_factor, next, action),
    ensures
        next.wf(replication_factor),
{
    if next is Polling {
        lemma_protocol_order(state, event, hash, layout, replication_factor, next, action);
        layout.spec_current().lemma_nodes_of_len(hash@, replication_factor);
    }
    if next is Pushing {
        lemma_protocol_order(state, event, hash, layout, replication_factor, next, action);
    }
}

/// A run of the reconciliation of block `hash`: it starts in `Start`,
/// and each step takes the state and the event of its turn to the next
/// state and to the action of its turn, under the layout of its turn.
pub open spec fn is_run(
    states: Seq<ResyncState>,
    events: Seq<ResyncEvent>,
    actions: Seq<ResyncAction>,
    layouts: Seq<LayoutHistory>,
    hash: data::Hash,
    replication_factor: int,
) -> bool {
    &&& states.len() == events.len() + 1
    &&& actions.len() == events.len()
    &&& layouts.len() == events.len()
    &&& states[0] == ResyncState::Start
    &&& forall|i: int|
        0 <= i < events.len() ==> {
            &&& (#[trigger] layouts[i]).wf()
            &&& replication_factor <= layouts[i].spec_current().replication_factor
            &&& resync_step_spec(
                states[i],
                events[i],
                hash,
                layouts[i],
                replication_factor,
                states[i + 1],
                actions[i],
            )
        }
}

/// Within the deletion protocol: waiting for the reference table, for the
/// answers of the replicas, or for the pushes to them.
pub open spec fn in_deletion(state: ResyncState) -> bool {
    state is CheckingRefs || state is Polling || state is Pushing
}

/// Every state of a run is consistent, and a run is within the deletion
/// protocol only after it found the block present and not counted here.
pub proof fn lemma_run_history(
    states: Seq<ResyncState>,
    events: Seq<ResyncEvent>,
    actions: Seq<ResyncAction>,
    layouts: Seq<LayoutHistory>,
    hash: data::Hash,
    replication_factor: int,
    k: int,
)
    requires
        replication_factor >= 1,
        is_run(states, events, actions, layouts, hash, replication_factor),
        0 <= k <= events.len(),
    ensures
        states[k].wf(replication_factor),
        in_deletion(states[k]) ==> exists|j: int|
            0 <= j < k && #[trigger] events[j] == (ResyncEvent::Probed {
                exists: true,
                needed: Ok(false),
            }),
    decreases k,
{
    if k > 0 {
        lemma_run_history(states, events, actions, layouts, hash, replication_factor, k - 1);
        let i = k - 1;
        assert(layouts[i].wf());
        lemma_step_keeps_wf(
            states[i],
            events[i],
            hash,
            layouts[i],
            replication_factor,
            states[k],
            actions[i],
        );
        lemma_protocol_order(
            states[i],
            events[i],
            hash,
            layouts[i],
            replication_factor,
            states[k],
            actions[i],
        );
        if in_deletion(states[k]) {
            if states[k] is CheckingRefs {
                lemma_deletion_starts_unreferenced(
                    states[i],
                    events[i],
                    hash,
                    layouts[i],
                    replication_factor,
                    states[k],
                    actions[i],
                );
                assert(events[i] == (ResyncEvent::Probed { exists: true, needed: Ok(false) }));
            } else {
                assert(in_deletion(states[i]));
                let j = choose|j: int|
                    0 <= j < i && #[trigger] events[j] == (ResyncEvent::Probed {
                        exists: true,
                        needed: Ok(false),
                    });
                assert(0 <= j < k);
            }
        }
    }
}

/// No block is deleted before its time: whenever a run asks for the
/// removal of the block's file, the run has found the file present while
/// no reference counted here, and the removal is confirmed. Either the
/// reference table knows no live reference to the block. Or each replica
/// was asked, none needs the block, and a strict majority of them said
/// so. Or at most half of the other replicas failed to answer, and every
/// replica that needs the block has confirmed that it received it.
pub proof fn lemma_run_removes_safely(
    states: Seq<ResyncState>,
    events: Seq<ResyncEvent>,
    actions: Seq<ResyncAction>,
    layouts: Seq<LayoutHistory>,
    hash: data::Hash,
    replication_factor: int,
    k: int,
)
    requires
        replication_factor >= 1,
        is_run(states, events, actions, layouts, hash, replication_factor),
        0 <= k < events.len(),
        actions[k] is RemoveFile,
    ensures
        exists|j: int|
            0 <= j < k && #[trigger] events[j] == (ResyncEvent::Probed {
                exists: true,
                needed: Ok(false),
            }),
        ({
            ||| states[k] is CheckingRefs && events[k] == ResyncEvent::LiveRefs(Ok(false))
            ||| {
                &&& states[k] is Polling
                &&& events[k] matches ResyncEvent::Answers { replies }
                &&& replies@.len() == replication_factor
                &&& forall|i: int| 0 <= i < replies@.len() ==> !answer_needs(#[trigger] replies@[i])
                &&& 2 * count_refusals(replies@, replication_factor) > replication_factor
            }
            ||| {
                &&& states[k] matches ResyncState::Pushing { need_nodes, errors }
                &&& !quorum_lost(errors as int, replication_factor)
                &&& events[k] matches ResyncEvent::Pushed { read, sent }
                &&& read is Ok
                &&& sent@.len() == need_nodes@.len()
                &&& all_sent(sent@)
            }
        }),
{
    lemma_run_history(states, events, actions, layouts, hash, replication_factor, k);
    assert(layouts[k].wf());
    lemma_removal_is_confirmed(
        states[k],
        events[k],
        hash,
        layouts[k],
        replication_factor,
        states[k + 1],
        actions[k],
    );
    assert(in_deletion(states[k]));
}

} // verus!
