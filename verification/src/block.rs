//! Decisions of the block manager about one block: where its file lives,
//! whether bytes read from disk or received from a peer are the block, and
//! when a write or a fetch has succeeded.

use crate::data;
use crate::data::{hex_encode, hex_string, sha256};
use crate::error::Error;
use crate::rc::{opt_bytes, rc_entry_readable, rc_is_needed, rc_value};
use vstd::prelude::*;

verus! {

/// Time allowed to one block transfer between nodes, in milliseconds.
pub const BLOCK_RW_TIMEOUT_MSEC: u64 = 42_000;

/// Time allowed to one presence probe between nodes, in milliseconds.
pub const NEED_BLOCK_QUERY_TIMEOUT_MSEC: u64 = 5_000;

/// A block with its name, as it travels between nodes.
#[derive(Clone, Debug, PartialEq, Eq)]
pub struct PutBlockMessage {
    pub hash: data::Hash,
    pub data: Vec<u8>,
}

/// The messages that block managers exchange.
#[derive(Clone, Debug, PartialEq, Eq)]
pub enum Message {
    /// The request was carried out.
    Success,
    /// Asks for the block of that name.
    GetBlock(data::Hash),
    /// Carries a block, as a request to store it or as the answer to `GetBlock`.
    PutBlock(PutBlockMessage),
    /// Asks whether the receiver wants the block of that name and lacks it.
    NeedBlockQuery(data::Hash),
    /// The answer to `NeedBlockQuery`.
    NeedBlockReply(bool),
}

/// The two directory names under which the file of block `hash` lives.
pub open spec fn block_dir_spec(hash: Seq<u8>) -> Seq<Seq<char>> {
    seq![hex_string(hash.subrange(0, 1)), hex_string(hash.subrange(1, 2))]
}

/// Directory names and file name of block `hash`, below the data directory.
pub open spec fn block_path_spec(hash: Seq<u8>) -> Seq<Seq<char>> {
    block_dir_spec(hash).push(hex_string(hash))
}

/// What a list of strings spells.
pub open spec fn names(path: Seq<String>) -> Seq<Seq<char>> {
    path.map_values(|s: String| s@)
}

/// The directory of a block's file, as path components below the data
/// directory: the first byte of the hash in hexadecimal, then the second.
pub fn block_dir(hash: &data::Hash) -> (dir: Vec<String>)
    ensures
        names(dir@) == block_dir_spec(hash@),
{
    let bytes = hash.as_slice();
    let mut dir: Vec<String> = Vec::new();
    dir.push(hex_encode(&bytes[0..1]));
    dir.push(hex_encode(&bytes[1..2]));
    assert(names(dir@) =~= block_dir_spec(hash@));
    dir
}

/// The file of a block, as path components below the data directory: its
/// directory, then the whole hash in hexadecimal.
pub fn block_path(hash: &data::Hash) -> (path: Vec<String>)
    ensures
        names(path@) == block_path_spec(hash@),
{
    let mut path = block_dir(hash);
    path.push(hex_encode(hash.as_slice()));
    assert(names(path@) =~= block_path_spec(hash@));
    path
}

/// What to do with a block that is to be written.
#[derive(Clone, Copy, Debug, PartialEq, Eq, Structural)]
pub enum WritePlan {
    /// A file of that name exists: leave it, report success.
    AlreadyStored,
    /// Create the file with the block's bytes, then report success.
    Store,
}

/// Decides a write once the block's directory exists and the presence of
/// its file is known. A block is never rewritten.
pub fn write_block(file_exists: bool) -> (plan: WritePlan)
    ensures
        plan == if file_exists {
            WritePlan::AlreadyStored
        } else {
            WritePlan::Store
        },
{
    if file_exists {
        WritePlan::AlreadyStored
    } else {
        WritePlan::Store
    }
}

/// The bytes in a block's file once a write plan is carried out, given
/// the bytes that it held before, if it was there.
pub open spec fn file_after_write(before: Option<Seq<u8>>, plan: WritePlan, bytes: Seq<u8>) -> Option<
    Seq<u8>,
> {
    match plan {
        WritePlan::AlreadyStored => before,
        WritePlan::Store => Some(bytes),
    }
}

/// The plan that `write_block` makes for a file that holds `before`.
pub open spec fn write_plan_for(before: Option<Seq<u8>>) -> WritePlan {
    if before.is_some() {
        WritePlan::AlreadyStored
    } else {
        WritePlan::Store
    }
}

/// Writing a block twice is writing it once: the second write finds the
/// file and leaves it as the first one left it.
pub proof fn lemma_write_twice(before: Option<Seq<u8>>, bytes: Seq<u8>)
    ensures
        ({
            let once = file_after_write(before, write_plan_for(before), bytes);
            &&& once.is_some()
            &&& write_plan_for(once) == WritePlan::AlreadyStored
            &&& file_after_write(once, write_plan_for(once), bytes) == once
        }),
{
}

/// A block that is written and then read comes back: where the file was
/// absent, or held the block already, a read after the write of bytes
/// that hash to `hash` hands them out under that name. `digest` is what
/// the read computes of the bytes that it finds.
pub proof fn lemma_write_then_read(
    hash: data::Hash,
    bytes: Seq<u8>,
    before: Option<Seq<u8>>,
    file: Vec<u8>,
    digest: Seq<u8>,
    plan: ReadPlan,
)
    requires
        before matches Some(held) ==> held == bytes,
        Some(file@) == file_after_write(before, write_plan_for(before), bytes),
        checked_read(hash, digest, file, plan),
    ensures
        sha256(bytes) == hash@ && digest == sha256(file@) ==> {
            &&& plan.reply matches Ok(Message::PutBlock(m)) && m.hash == hash && m.data@ == bytes
            &&& !plan.remove_file
            &&& plan.resync_delay.is_none()
        },
{
}

/// What the attempt to read a block's file gave.
#[derive(Clone, Debug, PartialEq, Eq)]
pub enum FileRead {
    /// The file could not be opened.
    OpenFailed(Error),
    /// The file was opened and could not be read to its end.
    ReadFailed(Error),
    /// The bytes of the file.
    Contents(Vec<u8>),
}

/// The answer to a read, with what must be done beside it.
#[derive(Debug, PartialEq, Eq)]
pub struct ReadPlan {
    /// What the reader gets.
    pub reply: Result<Message, Error>,
    /// Whether the block's file must be removed.
    pub remove_file: bool,
    /// Whether a resync of the block must be queued, and after how many milliseconds.
    pub resync_delay: Option<u64>,
}

/// The plan for a read whose file held `contents`, given the digest of
/// those bytes: the block if the digest is its name, else removal, a
/// resync at once and `CorruptData`.
pub open spec fn checked_read(
    hash: data::Hash,
    digest: Seq<u8>,
    contents: Vec<u8>,
    plan: ReadPlan,
) -> bool {
    if digest == hash@ {
        &&& plan.reply == Ok::<Message, Error>(
            Message::PutBlock(PutBlockMessage { hash: hash, data: contents }),
        )
        &&& !plan.remove_file
        &&& plan.resync_delay.is_none()
    } else {
        &&& plan.reply == Err::<Message, Error>(Error::CorruptData(hash))
        &&& plan.remove_file
        &&& plan.resync_delay == Some(0u64)
    }
}

/// Judges bytes read from the file of block `hash` by their digest.
pub fn check_block(hash: &data::Hash, digest: &data::Hash, contents: Vec<u8>) -> (plan: ReadPlan)
    ensures
        checked_read(*hash, digest@, contents, plan),
{
    if digest.same(hash) {
        ReadPlan {
            reply: Ok(Message::PutBlock(PutBlockMessage { hash: *hash, data: contents })),
            remove_file: false,
            resync_delay: None,
        }
    } else {
        ReadPlan {
            reply: Err(Error::CorruptData(*hash)),
            remove_file: true,
            resync_delay: Some(0),
        }
    }
}

/// Answers a read of block `hash` from what the file system gave.
///
/// A file that cannot be opened queues a resync at once: the block may be
/// wanted here. Bytes that do not hash to `hash` are removed and refetched.
/// Only bytes that hash to `hash` are handed out.
pub fn read_block(hash: &data::Hash, file: FileRead) -> (plan: ReadPlan)
    ensures
        match file {
            FileRead::OpenFailed(e) => {
                &&& plan.reply == Err::<Message, Error>(e)
                &&& !plan.remove_file
                &&& plan.resync_delay == Some(0u64)
            },
            FileRead::ReadFailed(e) => {
                &&& plan.reply == Err::<Message, Error>(e)
                &&& !plan.remove_file
                &&& plan.resync_delay.is_none()
            },
            FileRead::Contents(contents) => checked_read(*hash, sha256(contents@), contents, plan),
        },
        plan.reply matches Ok(Message::PutBlock(m)) ==> m.hash == *hash && sha256(m.data@)
            == hash@,
        plan.reply is Ok ==> plan.reply matches Ok(Message::PutBlock(_)),
{
    match file {
        FileRead::OpenFailed(e) => ReadPlan {
            reply: Err(e),
            remove_file: false,
            resync_delay: Some(0),
        },
        FileRead::ReadFailed(e) => ReadPlan { reply: Err(e), remove_file: false, resync_delay: None },
        FileRead::Contents(contents) => {
            let digest = data::hash(contents.as_slice());
            check_block(hash, &digest, contents)
        },
    }
}

/// Whether this node wants a block and lacks it: its count is above zero
/// and its file is absent. A block that nothing references here is never
/// needed, present or not.
pub fn need_block(rc_entry: Option<&[u8]>, file_exists: bool) -> (needed: bool)
    requires
        rc_entry_readable(opt_bytes(rc_entry)),
    ensures
        needed == (rc_value(opt_bytes(rc_entry)) > 0 && !file_exists),
        rc_value(opt_bytes(rc_entry)) == 0 ==> !needed,
{
    rc_is_needed(rc_entry) && !file_exists
}

/// Whether a peer's reply to `GetBlock` carries bytes of the given digest
/// that are the block `hash`.
pub open spec fn reply_carries(reply: Result<Message, Error>, hash: Seq<u8>) -> bool {
    reply matches Ok(Message::PutBlock(m)) && sha256(m.data@) == hash
}

/// Whether a peer's reply to `GetBlock` is a block whose bytes have the
/// digest `hash`. Any other message, and any failure, is passed over.
pub fn reply_is_block(hash: &data::Hash, reply: &Result<Message, Error>) -> (valid: bool)
    ensures
        valid == reply_carries(*reply, hash@),
{
    match reply {
        Ok(Message::PutBlock(m)) => {
            let digest = data::hash(m.data.as_slice());
            digest.same(hash)
        },
        _ => false,
    }
}

/// Picks the fetched block among the replies of the replicas, taken in the
/// order in which they arrived: the bytes of the first reply that carries
/// the block. Fails when no reply does, so that the caller retries later.
pub fn rpc_get_block(hash: &data::Hash, replies: &Vec<Result<Message, Error>>) -> (res: Result<
    Vec<u8>,
    Error,
>)
    ensures
        res is Ok <==> exists|i: int| 0 <= i < replies@.len() && reply_carries(replies@[i], hash@),
        res matches Ok(block) ==> exists|i: int|
            {
                &&& 0 <= i < replies@.len()
                &&& reply_carries(replies@[i], hash@)
                &&& replies@[i] matches Ok(Message::PutBlock(m)) && m.data@ == block@
                &&& forall|j: int| 0 <= j < i ==> !reply_carries(replies@[j], hash@)
            },
        res matches Ok(block) ==> sha256(block@) == hash@,
        res matches Err(e) ==> e matches Error::Message(text) && text@
            == "Unable to read block: no valid blocks returned"@,
{
    let mut i: usize = 0;
    while i < replies.len()
        invariant
            i <= replies@.len(),
            forall|j: int| 0 <= j < i ==> !reply_carries(replies@[j], hash@),
        decreases replies@.len() - i,
    {
        if reply_is_block(hash, &replies[i]) {
            match &replies[i] {
                Ok(Message::PutBlock(m)) => {
                    let block = m.data.clone();
                    assert(block@ =~= m.data@);
                    assert(reply_carries(replies@[i as int], hash@));
                    return Ok(block);
                },
                _ => {},
            }
        }
        i += 1;
    }
    Err(Error::Message(String::from_str("Unable to read block: no valid blocks returned")))
}

/// Successes that a write to the replicas of a block must gather: more
/// than half of them.
pub open spec fn put_quorum(replication_factor: int) -> int {
    (replication_factor + 1) / 2
}

/// Number of replies that are not failures.
pub open spec fn count_ok(replies: Seq<Result<Message, Error>>) -> nat
    decreases replies.len(),
{
    if replies.len() == 0 {
        0
    } else {
        count_ok(replies.drop_last()) + if replies.last() is Ok {
            1nat
        } else {
            0nat
        }
    }
}

/// Judges a write of a block to its replicas from their replies: it
/// succeeds when at least `put_quorum` of them accepted.
pub fn rpc_put_block(replication_factor: usize, replies: &Vec<Result<Message, Error>>) -> (res:
    Result<(), Error>)
    requires
        replication_factor < usize::MAX,
    ensures
        res is Ok <==> count_ok(replies@) >= put_quorum(replication_factor as int),
        res matches Err(e) ==> e matches Error::Message(text) && text@ == "Too many failures"@,
{
    let quorum = (replication_factor + 1) / 2;
    let mut accepted: usize = 0;
    let mut i: usize = 0;
    while i < replies.len()
        invariant
            i <= replies@.len(),
            accepted == count_ok(replies@.take(i as int)),
            accepted <= i,
        decreases replies@.len() - i,
    {
        proof {
            assert(replies@.take(i + 1).drop_last() =~= replies@.take(i as int));
        }
        if replies[i].is_ok() {
            accepted += 1;
        }
        i += 1;
    }
    proof {
        assert(replies@.take(i as int) =~= replies@);
    }
    if accepted >= quorum {
        Ok(())
    } else {
        Err(Error::Message(String::from_str("Too many failures")))
    }
}

} // verus!
