//! References from versions to blocks. A live reference says that a
//! version contains a block; the number of live references to a block is
//! its reference count.

use crate::data;
use crate::rc::{rc_after, RC_DECREMENT, RC_INCREMENT};
use vstd::prelude::*;

verus! {

/// The edge from a version to one of its blocks.
#[derive(Clone, Copy, Debug, PartialEq, Eq)]
pub struct BlockRef {
    /// Hash of the block; the partition key.
    pub block: data::Hash,
    /// Identifier of the version that contains the block; the sort key.
    pub version: data::Uuid,
    /// Whether the reference was withdrawn. Never goes back to `false`.
    pub deleted: bool,
}

impl BlockRef {
    /// The merge of `other` into `self`: withdrawn if either is.
    pub open spec fn merge_spec(self, other: BlockRef) -> BlockRef {
        BlockRef { deleted: self.deleted || other.deleted, ..self }
    }

    /// The key that places a reference in the cluster: the hash of its block.
    pub fn partition_key(&self) -> (key: &data::Hash)
        ensures
            *key == self.block,
    {
        &self.block
    }

    /// The key that tells apart the references to one block: the version.
    pub fn sort_key(&self) -> (key: &data::Uuid)
        ensures
            *key == self.version,
    {
        &self.version
    }

    /// Merges another state of this reference into this one.
    pub fn merge(&mut self, other: &BlockRef)
        ensures
            *final(self) == old(self).merge_spec(*other),
    {
        if other.deleted {
            self.deleted = true;
        }
    }
}

/// Merging a reference with itself changes nothing.
pub proof fn lemma_ref_merge_idempotent(a: BlockRef)
    ensures
        a.merge_spec(a) == a,
{
}

/// Two states of one reference merge to the same reference in either order.
pub proof fn lemma_ref_merge_commutative(a: BlockRef, b: BlockRef)
    requires
        a.block == b.block,
        a.version == b.version,
    ensures
        a.merge_spec(b) == b.merge_spec(a),
{
}

/// Merging references is associative.
pub proof fn lemma_ref_merge_associative(a: BlockRef, b: BlockRef, c: BlockRef)
    ensures
        a.merge_spec(b).merge_spec(c) == a.merge_spec(b.merge_spec(c)),
{
}

/// A withdrawn reference stays withdrawn through every merge.
pub proof fn lemma_ref_withdrawal_is_final(a: BlockRef, b: BlockRef)
    requires
        a.deleted || b.deleted,
    ensures
        a.merge_spec(b).deleted,
{
}

/// What a change of a reference asks of the block manager.
#[derive(Clone, Copy, Debug, PartialEq, Eq)]
pub enum RcChange {
    /// Nothing: the reference is as live as before.
    Keep,
    /// Count one more reference to that block.
    Incref(data::Hash),
    /// Count one reference less to that block.
    Decref(data::Hash),
}

/// The row exists and is not withdrawn.
pub open spec fn is_live(row: Option<BlockRef>) -> bool {
    row matches Some(r) && !r.deleted
}

/// What the change of a row from `old` to `new` asks of the block
/// manager: a reference that became live counts one more, one that
/// stopped being live counts one less.
pub open spec fn rc_change_spec(old: Option<BlockRef>, new: Option<BlockRef>) -> RcChange {
    if !is_live(old) && is_live(new) {
        RcChange::Incref(new->0.block)
    } else if is_live(old) && !is_live(new) {
        RcChange::Decref(old->0.block)
    } else {
        RcChange::Keep
    }
}

/// The table of block references.
#[derive(Clone, Copy, Debug, PartialEq, Eq)]
pub struct BlockRefTable;

impl BlockRefTable {
    /// Called after each merge applied here, with the row before and
    /// after it. Returns the change of reference count that follows.
    pub fn updated(&self, old: Option<BlockRef>, new: Option<BlockRef>) -> (change: RcChange)
        ensures
            change == rc_change_spec(old, new),
    {
        let was_before = match old {
            Some(r) => !r.deleted,
            None => false,
        };
        let is_after = match new {
            Some(r) => !r.deleted,
            None => false,
        };
        if is_after && !was_before {
            match new {
                Some(r) => RcChange::Incref(r.block),
                None => RcChange::Keep,
            }
        } else if was_before && !is_after {
            match old {
                Some(r) => RcChange::Decref(r.block),
                None => RcChange::Keep,
            }
        } else {
            RcChange::Keep
        }
    }

    /// The scan filter "not deleted": whether a reference is live.
    pub fn matches_filter(entry: &BlockRef, _filter: &()) -> (live: bool)
        ensures
            live == !entry.deleted,
    {
        !entry.deleted
    }
}

/// The rows of a reference table are stored under their own keys, and
/// they are finitely many.
pub open spec fn table_wf(table: Map<(data::Hash, data::Uuid), BlockRef>) -> bool {
    &&& table.dom().finite()
    &&& forall|k: (data::Hash, data::Uuid)| #[trigger]
        table.contains_key(k) ==> table[k].block == k.0 && table[k].version == k.1
}

/// The keys of the live references to block `hash`.
pub open spec fn live_refs(
    table: Map<(data::Hash, data::Uuid), BlockRef>,
    hash: data::Hash,
) -> Set<(data::Hash, data::Uuid)> {
    table.dom().filter(|k: (data::Hash, data::Uuid)| k.0 == hash && !table[k].deleted)
}

/// The row stored under the key of `row`, if any.
pub open spec fn row_before(
    table: Map<(data::Hash, data::Uuid), BlockRef>,
    row: BlockRef,
) -> Option<BlockRef> {
    if table.contains_key((row.block, row.version)) {
        Some(table[(row.block, row.version)])
    } else {
        None
    }
}

/// The row stored under the key of `row` once `row` is written: `row`
/// itself, or its merge into the row that was there.
pub open spec fn row_after(table: Map<(data::Hash, data::Uuid), BlockRef>, row: BlockRef) -> BlockRef {
    match row_before(table, row) {
        Some(current) => current.merge_spec(row),
        None => row,
    }
}

/// The table after `row` is written to it.
pub open spec fn table_write(
    table: Map<(data::Hash, data::Uuid), BlockRef>,
    row: BlockRef,
) -> Map<(data::Hash, data::Uuid), BlockRef> {
    table.insert((row.block, row.version), row_after(table, row))
}

/// The reference count of a block: zero where none is recorded.
pub open spec fn count_of(counts: Map<data::Hash, int>, hash: data::Hash) -> int {
    if counts.contains_key(hash) {
        counts[hash]
    } else {
        0
    }
}

/// The reference counts after a change is applied through the merge
/// operator of the count tree.
pub open spec fn counts_after(counts: Map<data::Hash, int>, change: RcChange) -> Map<
    data::Hash,
    int,
> {
    match change {
        RcChange::Keep => counts,
        RcChange::Incref(hash) => counts.insert(
            hash,
            rc_after(count_of(counts, hash), RC_INCREMENT),
        ),
        RcChange::Decref(hash) => counts.insert(
            hash,
            rc_after(count_of(counts, hash), RC_DECREMENT),
        ),
    }
}

/// Every count is the number of live references to its block.
pub open spec fn counts_match(
    counts: Map<data::Hash, int>,
    table: Map<(data::Hash, data::Uuid), BlockRef>,
) -> bool {
    forall|hash: data::Hash| count_of(counts, hash) == #[trigger] live_refs(table, hash).len()
}

/// The reference counts follow the live references: if every count is
/// the number of live references to its block, it still is after a row is
/// written to the table and the change that the table reports for it is
/// applied to the counts.
pub proof fn lemma_counts_follow_refs(
    table: Map<(data::Hash, data::Uuid), BlockRef>,
    counts: Map<data::Hash, int>,
    row: BlockRef,
)
    requires
        table_wf(table),
        counts_match(counts, table),
    ensures
        table_wf(table_write(table, row)),
        counts_match(
            counts_after(counts, rc_change_spec(row_before(table, row), Some(row_after(table, row)))),
            table_write(table, row),
        ),
{
    let key = (row.block, row.version);
    let before = row_before(table, row);
    let after = row_after(table, row);
    let table2 = table_write(table, row);
    let change = rc_change_spec(before, Some(after));
    let counts2 = counts_after(counts, change);
    assert(after.block == row.block && after.version == row.version);
    assert forall|hash: data::Hash| count_of(counts2, hash) == #[trigger] live_refs(
        table2,
        hash,
    ).len() by {
        let was = live_refs(table, hash);
        let now = live_refs(table2, hash);
        table.dom().lemma_len_filter(|k: (data::Hash, data::Uuid)| k.0 == hash && !table[k].deleted);
        assert(count_of(counts, hash) == was.len());
        if hash != row.block {
            assert(now =~= was);
        } else if !is_live(before) && !after.deleted {
            assert(!was.contains(key));
            assert(now =~= was.insert(key));
        } else if is_live(before) && after.deleted {
            assert(was.contains(key));
            assert(now =~= was.remove(key));
        } else {
            assert(now =~= was);
        }
    }
}

/// Raising the count of a block and lowering it again leaves every count
/// as it was.
pub proof fn lemma_incref_decref_restores(counts: Map<data::Hash, int>, hash: data::Hash)
    requires
        forall|h: data::Hash| count_of(counts, h) >= 0,
    ensures
        forall|h: data::Hash|
            count_of(
                counts_after(counts_after(counts, RcChange::Incref(hash)), RcChange::Decref(hash)),
                h,
            ) == count_of(counts, h),
{
}

} // verus!
