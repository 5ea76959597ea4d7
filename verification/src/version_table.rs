//! Object versions and the blocks that compose them.
//!
//! A version lists its blocks by strictly increasing offset. Versions
//! of one identifier merge as a join: block lists unite by offset, and a
//! deleted version absorbs everything. When a version becomes deleted its
//! block references are withdrawn, which releases the blocks.

use crate::block_ref::BlockRef;
use crate::data;
use vstd::prelude::*;

verus! {

/// One block of a version: where it starts in the object and which block it is.
#[derive(Clone, Copy, Debug, PartialEq, Eq)]
pub struct VersionBlock {
    pub offset: u64,
    pub hash: data::Hash,
}

/// The sort key of tables whose rows have none.
#[derive(Clone, Copy, Debug, PartialEq, Eq)]
pub struct EmptyKey;

/// A version of an object.
#[derive(Clone, Debug, PartialEq, Eq)]
pub struct Version {
    /// Identifier of the version; the partition key.
    pub uuid: data::Uuid,
    /// Whether the version was deleted. A deleted version has no blocks.
    pub deleted: bool,
    /// The blocks of the version, by strictly increasing offset.
    pub blocks: Vec<VersionBlock>,
    /// Bucket of the object that this is a version of.
    pub bucket: String,
    /// Key of the object that this is a version of.
    pub key: String,
}

/// What a version is: its identity, whether it is deleted, and which
/// block it holds at which offset.
pub struct VersionView {
    pub uuid: data::Uuid,
    pub deleted: bool,
    pub blocks: Map<u64, data::Hash>,
    pub bucket: Seq<char>,
    pub key: Seq<char>,
}

/// Offsets grow strictly along the list.
pub open spec fn strictly_increasing(blocks: Seq<VersionBlock>) -> bool {
    forall|i: int, j: int| 0 <= i < j < blocks.len() ==> blocks[i].offset < blocks[j].offset
}

/// No two blocks of the list share an offset.
pub open spec fn distinct_offsets(blocks: Seq<VersionBlock>) -> bool {
    forall|i: int, j: int| 0 <= i < j < blocks.len() ==> blocks[i].offset != blocks[j].offset
}

/// `i` is an index of a block at that offset.
pub open spec fn at_offset(blocks: Seq<VersionBlock>, offset: u64, i: int) -> bool {
    0 <= i < blocks.len() && blocks[i].offset == offset
}

/// Some block of the list starts at that offset.
pub open spec fn has_offset(blocks: Seq<VersionBlock>, offset: u64) -> bool {
    exists|i: int| at_offset(blocks, offset, i)
}

/// The list as a map from offset to block hash.
pub open spec fn blocks_map(blocks: Seq<VersionBlock>) -> Map<u64, data::Hash> {
    Map::new(
        |offset: u64| has_offset(blocks, offset),
        |offset: u64| blocks[choose|i: int| at_offset(blocks, offset, i)].hash,
    )
}

/// Each block of a list without repeated offsets is found under its offset.
pub proof fn lemma_blocks_map_index(blocks: Seq<VersionBlock>, i: int)
    requires
        distinct_offsets(blocks),
        0 <= i < blocks.len(),
    ensures
        blocks_map(blocks).contains_key(blocks[i].offset),
        blocks_map(blocks)[blocks[i].offset] == blocks[i].hash,
{
    let offset = blocks[i].offset;
    assert(at_offset(blocks, offset, i));
    let k = choose|k: int| at_offset(blocks, offset, k);
    assert(k == i);
}

/// A strictly increasing list repeats no offset.
pub proof fn lemma_increasing_is_distinct(blocks: Seq<VersionBlock>)
    requires
        strictly_increasing(blocks),
    ensures
        distinct_offsets(blocks),
{
}

/// Inserting a block at an offset that the list lacks adds exactly that
/// entry to the map.
pub proof fn lemma_blocks_map_insert(blocks: Seq<VersionBlock>, pos: int, new: VersionBlock)
    requires
        distinct_offsets(blocks),
        !has_offset(blocks, new.offset),
        0 <= pos <= blocks.len(),
    ensures
        distinct_offsets(blocks.insert(pos, new)),
        blocks_map(blocks.insert(pos, new)) == blocks_map(blocks).insert(new.offset, new.hash),
{
    let after = blocks.insert(pos, new);
    assert(after.len() == blocks.len() + 1);
    assert(after[pos] == new);
    assert forall|i: int| 0 <= i < pos implies after[i] == blocks[i] by {}
    assert forall|i: int| pos < i < after.len() implies after[i] == blocks[i - 1] by {}
    assert forall|i: int, j: int| 0 <= i < j < after.len() implies after[i].offset
        != after[j].offset by {
        let bi = if i < pos { i } else { i - 1 };
        let bj = if j < pos { j } else { j - 1 };
        if i == pos {
            assert(at_offset(blocks, after[j].offset, bj));
        } else if j == pos {
            assert(at_offset(blocks, after[i].offset, bi));
        } else {
            assert(blocks[bi].offset != blocks[bj].offset);
        }
    }
    let lhs = blocks_map(after);
    let rhs = blocks_map(blocks).insert(new.offset, new.hash);
    assert forall|offset: u64| lhs.contains_key(offset) <==> rhs.contains_key(offset) by {
        if has_offset(after, offset) {
            let i = choose|i: int| at_offset(after, offset, i);
            if i < pos {
                assert(at_offset(blocks, offset, i));
            } else if i > pos {
                assert(at_offset(blocks, offset, i - 1));
            }
        }
        if has_offset(blocks, offset) {
            let i = choose|i: int| at_offset(blocks, offset, i);
            if i < pos {
                assert(at_offset(after, offset, i));
            } else {
                assert(at_offset(after, offset, i + 1));
            }
        }
        if offset == new.offset {
            assert(at_offset(after, offset, pos));
        }
    }
    assert forall|offset: u64| lhs.contains_key(offset) implies lhs[offset] == rhs[offset] by {
        let i = choose|i: int| at_offset(after, offset, i);
        lemma_blocks_map_index(after, i);
        if i < pos {
            lemma_blocks_map_index(blocks, i);
        } else if i > pos {
            lemma_blocks_map_index(blocks, i - 1);
        }
    }
    assert(lhs =~= rhs);
}

/// Two strictly increasing lists that hold the same blocks at the same
/// offsets are the same list.
pub proof fn lemma_sorted_blocks_unique(a: Seq<VersionBlock>, b: Seq<VersionBlock>)
    requires
        strictly_increasing(a),
        strictly_increasing(b),
        blocks_map(a) == blocks_map(b),
    ensures
        a == b,
    decreases a.len(),
{
    if a.len() == 0 {
        if b.len() > 0 {
            assert(at_offset(b, b[0].offset, 0));
            assert(blocks_map(b).contains_key(b[0].offset));
            let i = choose|i: int| at_offset(a, b[0].offset, i);
        }
        assert(a =~= b);
    } else {
        let la = a.last();
        assert(at_offset(a, la.offset, a.len() - 1));
        assert(blocks_map(b).contains_key(la.offset));
        let ib = choose|i: int| at_offset(b, la.offset, i);
        assert(at_offset(b, la.offset, ib));
        let lb = b.last();
        assert(at_offset(b, lb.offset, b.len() - 1));
        assert(blocks_map(a).contains_key(lb.offset));
        let ia = choose|i: int| at_offset(a, lb.offset, i);
        assert(at_offset(a, lb.offset, ia));
        // Each list ends in its largest offset, and each last offset
        // occurs in the other list.
        assert(la.offset == lb.offset) by {
            if ib < b.len() - 1 {
                assert(b[ib].offset < lb.offset);
            }
            if ia < a.len() - 1 {
                assert(a[ia].offset < la.offset);
            }
        }
        lemma_blocks_map_index(a, a.len() - 1);
        lemma_blocks_map_index(b, b.len() - 1);
        assert(la.hash == lb.hash);
        let a0 = a.drop_last();
        let b0 = b.drop_last();
        assert forall|offset: u64| blocks_map(a0).contains_key(offset) <==> blocks_map(
            b0,
        ).contains_key(offset) by {
            if has_offset(a0, offset) {
                let i = choose|i: int| at_offset(a0, offset, i);
                assert(at_offset(a, offset, i));
                assert(a[i].offset < la.offset);
                assert(blocks_map(a).contains_key(offset));
                assert(blocks_map(b).contains_key(offset));
                let k = choose|k: int| at_offset(b, offset, k);
                assert(at_offset(b, offset, k));
                assert(at_offset(b0, offset, k));
            }
            if has_offset(b0, offset) {
                let i = choose|i: int| at_offset(b0, offset, i);
                assert(at_offset(b, offset, i));
                assert(b[i].offset < lb.offset);
                assert(blocks_map(b).contains_key(offset));
                assert(blocks_map(a).contains_key(offset));
                let k = choose|k: int| at_offset(a, offset, k);
                assert(at_offset(a, offset, k));
                assert(at_offset(a0, offset, k));
            }
        }
        assert forall|offset: u64| blocks_map(a0).contains_key(offset) implies blocks_map(
            a0,
        )[offset] == blocks_map(b0)[offset] by {
            let i = choose|i: int| at_offset(a0, offset, i);
            let k = choose|k: int| at_offset(b0, offset, k);
            lemma_blocks_map_index(a0, i);
            lemma_blocks_map_index(b0, k);
            lemma_blocks_map_index(a, i);
            lemma_blocks_map_index(b, k);
        }
        assert(blocks_map(a0) =~= blocks_map(b0));
        lemma_sorted_blocks_unique(a0, b0);
        assert(a =~= a0.push(la));
        assert(b =~= b0.push(lb));
    }
}

/// Looks for the block at `offset` in a strictly increasing list: `Ok`
/// with its index, or `Err` with the index at which a block of that offset
/// belongs.
fn find_offset(blocks: &Vec<VersionBlock>, offset: u64) -> (found: Result<usize, usize>)
    requires
        strictly_increasing(blocks@),
    ensures
        match found {
            Ok(i) => at_offset(blocks@, offset, i as int),
            Err(i) => {
                &&& !has_offset(blocks@, offset)
                &&& i <= blocks@.len()
                &&& forall|j: int| 0 <= j < i ==> blocks@[j].offset < offset
                &&& forall|j: int| i <= j < blocks@.len() ==> offset < blocks@[j].offset
            },
        },
{
    let mut lo: usize = 0;
    let mut hi: usize = blocks.len();
    while lo < hi
        invariant
            lo <= hi <= blocks@.len(),
            strictly_increasing(blocks@),
            forall|j: int| 0 <= j < lo ==> blocks@[j].offset < offset,
            forall|j: int| hi <= j < blocks@.len() ==> offset < blocks@[j].offset,
        decreases hi - lo,
    {
        let mid = lo + (hi - lo) / 2;
        let at = blocks[mid].offset;
        if at == offset {
            return Ok(mid);
        } else if at < offset {
            assert forall|j: int| 0 <= j < mid + 1 implies blocks@[j].offset < offset by {
                if j < mid {
                    assert(blocks@[j].offset < blocks@[mid as int].offset);
                }
            }
            lo = mid + 1;
        } else {
            assert forall|j: int| mid <= j < blocks@.len() implies offset < blocks@[j].offset by {
                if j > mid {
                    assert(blocks@[mid as int].offset < blocks@[j].offset);
                }
            }
            hi = mid;
        }
    }
    assert(!has_offset(blocks@, offset)) by {
        if has_offset(blocks@, offset) {
            let i = choose|i: int| at_offset(blocks@, offset, i);
            assert(at_offset(blocks@, offset, i));
        }
    }
    Err(lo)
}

/// Puts `new` into a strictly increasing list unless a block already
/// starts at its offset, in which case the list stays as it is.
fn insert_block(blocks: &mut Vec<VersionBlock>, new: VersionBlock) -> (added: bool)
    requires
        strictly_increasing(old(blocks)@),
    ensures
        strictly_increasing(final(blocks)@),
        added == !has_offset(old(blocks)@, new.offset),
        added ==> blocks_map(final(blocks)@) == blocks_map(old(blocks)@).insert(
            new.offset,
            new.hash,
        ),
        added ==> final(blocks)@.len() == old(blocks)@.len() + 1,
        !added ==> final(blocks)@ == old(blocks)@,
{
    match find_offset(blocks, new.offset) {
        Ok(_) => false,
        Err(pos) => {
            proof {
                let before = blocks@;
                let after = before.insert(pos as int, new);
                lemma_increasing_is_distinct(before);
                lemma_blocks_map_insert(before, pos as int, new);
                assert(after[pos as int] == new);
                assert forall|i: int| 0 <= i < pos implies after[i] == before[i] by {}
                assert forall|i: int| pos < i < after.len() implies after[i] == before[i - 1] by {}
                assert forall|i: int, j: int| 0 <= i < j < after.len() implies after[i].offset
                    < after[j].offset by {
                    let bi = if i < pos { i } else { i - 1 };
                    let bj = if j < pos { j } else { j - 1 };
                    if i != pos && j != pos {
                        assert(before[bi].offset < before[bj].offset);
                    }
                }
            }
            blocks.insert(pos, new);
            true
        },
    }
}

/// Whether no two blocks of the list share an offset.
pub fn has_distinct_offsets(blocks: &Vec<VersionBlock>) -> (distinct: bool)
    ensures
        distinct == distinct_offsets(blocks@),
{
    let mut j: usize = 0;
    while j < blocks.len()
        invariant
            j <= blocks@.len(),
            forall|a: int, b: int| 0 <= a < b < j ==> blocks@[a].offset != blocks@[b].offset,
        decreases blocks@.len() - j,
    {
        let mut i: usize = 0;
        while i < j
            invariant
                i <= j < blocks@.len(),
                forall|a: int| 0 <= a < i ==> blocks@[a].offset != blocks@[j as int].offset,
            decreases j - i,
        {
            if blocks[i].offset == blocks[j].offset {
                return false;
            }
            i += 1;
        }
        j += 1;
    }
    true
}

/// Whether offsets grow strictly along the list.
pub fn is_strictly_increasing(blocks: &Vec<VersionBlock>) -> (increasing: bool)
    ensures
        increasing == strictly_increasing(blocks@),
{
    let mut k: usize = 1;
    while k < blocks.len()
        invariant
            1 <= k,
            forall|a: int, b: int|
                0 <= a < b < k && b < blocks@.len() ==> blocks@[a].offset < blocks@[b].offset,
        decreases blocks@.len() - k,
    {
        if blocks[k - 1].offset >= blocks[k].offset {
            return false;
        }
        assert forall|a: int, b: int| 0 <= a < b < k + 1 && b < blocks@.len() implies blocks@[a].offset
            < blocks@[b].offset by {
            if b == k && a < k - 1 {
                assert(blocks@[a].offset < blocks@[k - 1].offset);
            }
        }
        k += 1;
    }
    true
}

impl View for Version {
    type V = VersionView;

    open spec fn view(&self) -> VersionView {
        VersionView {
            uuid: self.uuid,
            deleted: self.deleted,
            blocks: blocks_map(self.spec_blocks()),
            bucket: self.bucket@,
            key: self.key@,
        }
    }
}

impl VersionView {
    /// A deleted version has no blocks.
    pub open spec fn wf(self) -> bool {
        self.deleted ==> self.blocks == Map::<u64, data::Hash>::empty()
    }

    /// Both are versions of one object under one identifier.
    pub open spec fn same_row(self, other: VersionView) -> bool {
        self.uuid == other.uuid && self.bucket == other.bucket && self.key == other.key
    }

    /// Wherever both hold a block at one offset, it is the same block.
    pub open spec fn agrees_with(self, other: VersionView) -> bool {
        forall|offset: u64|
            self.blocks.contains_key(offset) && other.blocks.contains_key(offset)
                ==> self.blocks[offset] == other.blocks[offset]
    }
}

/// The merge of `other` into `mine`.
///
/// A deleted `other` deletes `mine` and empties its blocks. Two live
/// versions unite their blocks by offset, and where both hold a block at
/// one offset the block of `mine` stays. A deleted `mine` stays as it is.
pub open spec fn merge_spec(mine: VersionView, other: VersionView) -> VersionView {
    if other.deleted {
        VersionView { deleted: true, blocks: Map::empty(), ..mine }
    } else if !mine.deleted {
        VersionView { blocks: other.blocks.union_prefer_right(mine.blocks), ..mine }
    } else {
        mine
    }
}

impl Version {
    /// The blocks of the version, in order.
    pub open spec fn spec_blocks(&self) -> Seq<VersionBlock> {
        self.blocks@
    }

    /// The invariant of a version: offsets grow strictly along its
    /// blocks, and a deleted version has none.
    pub open spec fn wf(&self) -> bool {
        &&& strictly_increasing(self.spec_blocks())
        &&& self.deleted ==> self.spec_blocks().len() == 0
    }

    /// Whether this version is well formed.
    pub fn is_well_formed(&self) -> (ok: bool)
        ensures
            ok == self.wf(),
    {
        is_strictly_increasing(&self.blocks) && (!self.deleted || self.blocks.len() == 0)
    }

    /// A well-formed version has a well-formed view.
    pub proof fn lemma_view_wf(&self)
        requires
            self.wf(),
        ensures
            self@.wf(),
    {
        if self.deleted {
            assert(blocks_map(self.spec_blocks()) =~= Map::<u64, data::Hash>::empty()) by {
                assert forall|offset: u64| !has_offset(self.spec_blocks(), offset) by {
                    if has_offset(self.spec_blocks(), offset) {
                        let i = choose|i: int| at_offset(self.spec_blocks(), offset, i);
                        assert(at_offset(self.spec_blocks(), offset, i));
                    }
                }
            }
        }
    }

    /// Two well-formed versions with the same blocks at the same offsets
    /// list them alike.
    pub proof fn lemma_blocks_determined(&self, other: &Version)
        requires
            self.wf(),
            other.wf(),
            self@.blocks == other@.blocks,
        ensures
            self.spec_blocks() == other.spec_blocks(),
    {
        lemma_sorted_blocks_unique(self.spec_blocks(), other.spec_blocks());
    }

    /// Builds a version from its blocks, given in any order.
    pub fn new(
        uuid: data::Uuid,
        bucket: String,
        key: String,
        deleted: bool,
        blocks: Vec<VersionBlock>,
    ) -> (ret: Version)
        requires
            distinct_offsets(blocks@),
            deleted ==> blocks@.len() == 0,
        ensures
            ret.wf(),
            ret.uuid == uuid,
            ret.bucket == bucket,
            ret.key == key,
            ret.deleted == deleted,
            ret@.blocks == blocks_map(blocks@),
            ret.spec_blocks().len() == blocks@.len(),
    {
        let mut ret = Version { uuid, deleted, blocks: Vec::new(), bucket, key };
        assert(blocks_map(ret.blocks@) =~= blocks_map(blocks@.take(0))) by {
            assert forall|offset: u64| !has_offset(Seq::<VersionBlock>::empty(), offset) by {
                if has_offset(Seq::<VersionBlock>::empty(), offset) {
                    let i = choose|i: int| at_offset(Seq::<VersionBlock>::empty(), offset, i);
                    assert(at_offset(Seq::<VersionBlock>::empty(), offset, i));
                }
            }
            assert(blocks@.take(0) =~= Seq::<VersionBlock>::empty());
        }
        let mut i: usize = 0;
        while i < blocks.len()
            invariant
                i <= blocks@.len(),
                distinct_offsets(blocks@),
                deleted ==> blocks@.len() == 0,
                ret.wf(),
                ret.uuid == uuid,
                ret.bucket == bucket,
                ret.key == key,
                ret.deleted == deleted,
                ret.blocks@.len() == i,
                blocks_map(ret.blocks@) == blocks_map(blocks@.take(i as int)),
            decreases blocks@.len() - i,
        {
            let b = blocks[i];
            proof {
                let seen = blocks@.take(i as int);
                let more = blocks@.take(i + 1);
                assert(more =~= seen.insert(i as int, b));
                assert(!has_offset(seen, b.offset)) by {
                    if has_offset(seen, b.offset) {
                        let k = choose|k: int| at_offset(seen, b.offset, k);
                        assert(at_offset(seen, b.offset, k));
                        assert(blocks@[k].offset != blocks@[i as int].offset);
                    }
                }
                assert(distinct_offsets(seen));
                lemma_blocks_map_insert(seen, i as int, b);
                assert(!has_offset(ret.blocks@, b.offset)) by {
                    assert(!blocks_map(seen).contains_key(b.offset));
                }
            }
            let added = insert_block(&mut ret.blocks, b);
            assert(added);
            i += 1;
        }
        assert(blocks@.take(blocks@.len() as int) =~= blocks@);
        ret
    }

    /// Builds a version from its blocks if they can be those of a
    /// version: no two at one offset, and none for a deleted version.
    pub fn try_new(
        uuid: data::Uuid,
        bucket: String,
        key: String,
        deleted: bool,
        blocks: Vec<VersionBlock>,
    ) -> (ret: Option<Version>)
        ensures
            ret.is_some() == (distinct_offsets(blocks@) && (deleted ==> blocks@.len() == 0)),
            ret matches Some(v) ==> {
                &&& v.wf()
                &&& v.uuid == uuid
                &&& v.bucket == bucket
                &&& v.key == key
                &&& v.deleted == deleted
                &&& v@.blocks == blocks_map(blocks@)
                &&& v.spec_blocks().len() == blocks@.len()
            },
    {
        if (deleted && blocks.len() > 0) || !has_distinct_offsets(&blocks) {
            None
        } else {
            Some(Version::new(uuid, bucket, key, deleted, blocks))
        }
    }

    /// Adds a block unless the version already holds one at its offset.
    pub fn add_block(&mut self, new: VersionBlock) -> (res: Result<(), ()>)
        requires
            old(self).wf(),
            !old(self).deleted,
        ensures
            final(self).wf(),
            res is Ok <==> !old(self)@.blocks.contains_key(new.offset),
            res is Ok ==> final(self)@ == (VersionView {
                blocks: old(self)@.blocks.insert(new.offset, new.hash),
                ..old(self)@
            }),
            res is Ok ==> final(self).spec_blocks().len() == old(self).spec_blocks().len() + 1,
            res is Err ==> final(self)@ == old(self)@ && final(self).spec_blocks() == old(
                self,
            ).spec_blocks(),
            final(self).uuid == old(self).uuid,
            final(self).deleted == old(self).deleted,
            final(self).bucket == old(self).bucket,
            final(self).key == old(self).key,
    {
        if insert_block(&mut self.blocks, new) {
            Ok(())
        } else {
            Err(())
        }
    }

    /// The blocks of the version, by increasing offset.
    pub fn blocks(&self) -> (blocks: &[VersionBlock])
        ensures
            blocks@ == self.spec_blocks(),
    {
        self.blocks.as_slice()
    }

    /// The key that places a version in the cluster: its identifier.
    pub fn partition_key(&self) -> (key: &data::Hash)
        ensures
            *key == self.uuid,
    {
        &self.uuid
    }

    /// Versions have no sort key.
    pub fn sort_key(&self) -> (key: &EmptyKey)
        ensures
            *key == EmptyKey,
    {
        &EmptyKey
    }

    /// Merges another state of this version into this one.
    pub fn merge(&mut self, other: &Version)
        requires
            old(self).wf(),
            other.wf(),
        ensures
            final(self).wf(),
            final(self)@ == merge_spec(old(self)@, other@),
    {
        proof {
            self.lemma_view_wf();
            other.lemma_view_wf();
        }
        if other.deleted {
            self.deleted = true;
            self.blocks.clear();
            proof {
                self.lemma_view_wf();
            }
        } else if !self.deleted {
            let ghost mine = self.blocks@;
            let ghost theirs = other.blocks@;
            proof {
                lemma_increasing_is_distinct(theirs);
                assert(theirs.take(0) =~= Seq::<VersionBlock>::empty());
                assert forall|offset: u64| !has_offset(theirs.take(0), offset) by {
                    if has_offset(theirs.take(0), offset) {
                        let k = choose|k: int| at_offset(theirs.take(0), offset, k);
                        assert(at_offset(theirs.take(0), offset, k));
                    }
                }
                assert(blocks_map(mine) =~= blocks_map(theirs.take(0)).union_prefer_right(
                    blocks_map(mine),
                ));
            }
            let mut i: usize = 0;
            while i < other.blocks.len()
                invariant
                    i <= other.blocks@.len(),
                    theirs == other.blocks@,
                    distinct_offsets(theirs),
                    strictly_increasing(self.blocks@),
                    self.uuid == old(self).uuid,
                    self.bucket == old(self).bucket,
                    self.key == old(self).key,
                    self.deleted == old(self).deleted,
                    !self.deleted,
                    blocks_map(self.blocks@) == blocks_map(theirs.take(i as int)).union_prefer_right(
                        blocks_map(mine),
                    ),
                decreases other.blocks@.len() - i,
            {
                let bi = other.blocks[i];
                let ghost seen = theirs.take(i as int);
                let ghost before = blocks_map(self.blocks@);
                proof {
                    assert(theirs.take(i + 1) =~= seen.insert(i as int, bi));
                    assert(!has_offset(seen, bi.offset)) by {
                        if has_offset(seen, bi.offset) {
                            let k = choose|k: int| at_offset(seen, bi.offset, k);
                            assert(at_offset(seen, bi.offset, k));
                            assert(theirs[k].offset != theirs[i as int].offset);
                        }
                    }
                    assert(distinct_offsets(seen));
                    lemma_blocks_map_insert(seen, i as int, bi);
                }
                let added = insert_block(&mut self.blocks, bi);
                proof {
                    let grown = blocks_map(theirs.take(i + 1));
                    assert(grown == blocks_map(seen).insert(bi.offset, bi.hash));
                    if added {
                        assert(!before.contains_key(bi.offset));
                        assert(blocks_map(self.blocks@) =~= grown.union_prefer_right(
                            blocks_map(mine),
                        ));
                    } else {
                        assert(before.contains_key(bi.offset));
                        assert(blocks_map(mine).contains_key(bi.offset));
                        assert(before =~= grown.union_prefer_right(blocks_map(mine)));
                    }
                }
                i += 1;
            }
            proof {
                assert(theirs.take(theirs.len() as int) =~= theirs);
            }
        }
    }
}

/// Merging keeps a version well formed.
pub proof fn lemma_merge_keeps_wf(mine: VersionView, other: VersionView)
    requires
        mine.wf(),
    ensures
        merge_spec(mine, other).wf(),
{
}

/// Merging a version with itself changes nothing.
pub proof fn lemma_merge_idempotent(v: VersionView)
    requires
        v.wf(),
    ensures
        merge_spec(v, v) == v,
{
    assert(merge_spec(v, v).blocks =~= v.blocks);
}

/// Two states of one version that agree wherever both hold a block merge
/// to the same version in either order.
pub proof fn lemma_merge_commutative(a: VersionView, b: VersionView)
    requires
        a.wf(),
        b.wf(),
        a.same_row(b),
        a.agrees_with(b),
    ensures
        merge_spec(a, b) == merge_spec(b, a),
{
    assert(merge_spec(a, b).blocks =~= merge_spec(b, a).blocks);
}

/// Merging is associative.
pub proof fn lemma_merge_associative(a: VersionView, b: VersionView, c: VersionView)
    ensures
        merge_spec(merge_spec(a, b), c) == merge_spec(a, merge_spec(b, c)),
{
    assert(merge_spec(merge_spec(a, b), c).blocks =~= merge_spec(a, merge_spec(b, c)).blocks);
}

/// A deleted version absorbs: whichever side of a merge is deleted, the
/// result is deleted and has no blocks.
pub proof fn lemma_tombstone_absorbs(mine: VersionView, other: VersionView)
    requires
        mine.wf(),
        mine.deleted || other.deleted,
    ensures
        merge_spec(mine, other).deleted,
        merge_spec(mine, other).blocks == Map::<u64, data::Hash>::empty(),
{
}

/// A merge never loses a block of a version that stays live, and never
/// changes the block at an offset that was already held.
pub proof fn lemma_merge_grows(mine: VersionView, other: VersionView, offset: u64)
    requires
        !mine.deleted,
        !other.deleted,
        mine.blocks.contains_key(offset),
    ensures
        merge_spec(mine, other).blocks.contains_key(offset),
        merge_spec(mine, other).blocks[offset] == mine.blocks[offset],
{
}

/// The table of versions.
#[derive(Clone, Copy, Debug, PartialEq, Eq)]
pub struct VersionTable;

/// The withdrawn references that release the blocks of a version: one for
/// each of its blocks, in order.
pub open spec fn withdrawn_refs(uuid: data::Uuid, blocks: Seq<VersionBlock>) -> Seq<BlockRef> {
    Seq::new(
        blocks.len(),
        |i: int| BlockRef { block: blocks[i].hash, version: uuid, deleted: true },
    )
}

/// What a change of a version from `old` to `new` asks of the reference
/// table: when a live version became deleted, the withdrawal of the
/// reference to each block that it had; else nothing.
pub open spec fn updated_spec(old: Option<Version>, new: Option<Version>) -> Seq<BlockRef> {
    match (old, new) {
        (Some(old_v), Some(new_v)) => if new_v.deleted && !old_v.deleted {
            withdrawn_refs(old_v.uuid, old_v.spec_blocks())
        } else {
            Seq::empty()
        },
        _ => Seq::empty(),
    }
}

impl VersionTable {
    /// Called after each merge applied here, with the version before and
    /// after it. Returns the references to insert into the reference
    /// table; this is the only way from the deletion of a version to the
    /// release of its blocks.
    pub fn updated(&self, old: Option<Version>, new: Option<Version>) -> (refs: Vec<BlockRef>)
        ensures
            refs@ == updated_spec(old, new),
    {
        let mut refs: Vec<BlockRef> = Vec::new();
        match (old, new) {
            (Some(old_v), Some(new_v)) => {
                if new_v.deleted && !old_v.deleted {
                    let mut i: usize = 0;
                    while i < old_v.blocks.len()
                        invariant
                            i <= old_v.blocks@.len(),
                            refs@ == withdrawn_refs(old_v.uuid, old_v.blocks@.take(i as int)),
                        decreases old_v.blocks@.len() - i,
                    {
                        refs.push(
                            BlockRef {
                                block: old_v.blocks[i].hash,
                                version: old_v.uuid,
                                deleted: true,
                            },
                        );
                        i += 1;
                        assert(refs@ =~= withdrawn_refs(old_v.uuid, old_v.blocks@.take(i as int)));
                    }
                    assert(old_v.blocks@.take(old_v.blocks@.len() as int) =~= old_v.blocks@);
                }
            },
            _ => {},
        }
        refs
    }

    /// The scan filter "not deleted": whether a version is live.
    pub fn matches_filter(entry: &Version, _filter: &()) -> (live: bool)
        ensures
            live == !entry.deleted,
    {
        !entry.deleted
    }
}

} // verus!
