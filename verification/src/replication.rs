//! Sharded replication: which nodes store which part of the hash space.
//!
//! The hash space is cut into partitions, each a range of hashes. A layout
//! version assigns to each partition as many nodes as the replication
//! factor says; reads and writes of a hash go to the nodes of the
//! partition that the hash falls into.

use crate::data;
use crate::data::{lemma_lex_lt_total, lemma_lex_lt_transitive, lex_lt};
use vstd::prelude::*;

verus! {

/// The number of a partition of the hash space.
pub type Partition = u16;

/// One version of the cluster layout.
#[derive(Clone, Debug, PartialEq, Eq)]
pub struct LayoutVersion {
    /// The number of this version.
    pub version: u64,
    /// How many nodes store each partition.
    pub replication_factor: usize,
    /// The first hash of each partition, in increasing order. Partition
    /// `i` holds the hashes from its first hash up to the first hash of
    /// partition `i + 1`; the last partition holds all that follow.
    pub partition_starts: Vec<data::Hash>,
    /// The nodes of all partitions, one after another:
    /// `replication_factor` nodes for each partition.
    pub ring: Vec<data::Uuid>,
}

/// The layout versions that are not retired yet, the current one last,
/// and the newest version that all nodes have acknowledged.
#[derive(Clone, Debug, PartialEq, Eq)]
pub struct LayoutHistory {
    pub versions: Vec<LayoutVersion>,
    pub all_ack: u64,
}

/// A partition as anti-entropy walks it.
#[derive(Clone, Debug, PartialEq, Eq)]
pub struct SyncPartition {
    pub partition: Partition,
    /// The first hash of the partition.
    pub first_hash: data::Hash,
    /// The first hash of the next partition; for the last partition, the largest hash.
    pub last_hash: data::Hash,
    /// The nodes that store the partition under some layout version that
    /// is not retired, in increasing order, each once.
    pub storage_nodes: Vec<data::Uuid>,
}

/// All partitions of the current layout, for anti-entropy.
#[derive(Clone, Debug, PartialEq, Eq)]
pub struct SyncPartitions {
    pub layout_version: u64,
    pub partitions: Vec<SyncPartition>,
}

/// The sharded replication policy of a table.
#[derive(Clone, Copy, Debug, PartialEq, Eq)]
pub struct TableShardedReplication {
    /// How many nodes store each entry.
    pub replication_factor: usize,
    /// How many nodes a read contacts; at most `replication_factor`.
    pub read_quorum: usize,
    /// How many nodes a write must reach; at most `replication_factor`.
    pub write_quorum: usize,
}

/// The list grows strictly in byte order.
pub open spec fn strictly_sorted(nodes: Seq<data::Hash>) -> bool {
    forall|i: int, j: int| 0 <= i < j < nodes.len() ==> lex_lt(nodes[i]@, nodes[j]@)
}

/// No hash comes before the all-zero hash.
pub proof fn lemma_zero_is_least(zero: Seq<u8>, hash: Seq<u8>)
    requires
        zero.len() == hash.len(),
        forall|i: int| 0 <= i < zero.len() ==> zero[i] == 0,
    ensures
        !lex_lt(hash, zero),
{
    if lex_lt(hash, zero) {
        let k = choose|k: int| data::is_first_difference(hash, zero, k) && hash[k] < zero[k];
        assert(zero[k] == 0);
    }
}

/// A list in which each hash comes before the next grows strictly.
pub proof fn lemma_neighbours_sorted(nodes: Seq<data::Hash>, i: int, j: int)
    requires
        forall|k: int| 0 <= k < nodes.len() - 1 ==> lex_lt(#[trigger] nodes[k]@, nodes[k + 1]@),
        0 <= i < j < nodes.len(),
    ensures
        lex_lt(nodes[i]@, nodes[j]@),
    decreases j - i,
{
    if i + 1 < j {
        lemma_neighbours_sorted(nodes, i, j - 1);
        assert(lex_lt(nodes[j - 1]@, nodes[j - 1 + 1]@));
        lemma_lex_lt_transitive(nodes[i]@, nodes[j - 1]@, nodes[j]@);
    } else {
        assert(lex_lt(nodes[i]@, nodes[i + 1]@));
    }
}

/// Whether a list of hashes grows strictly in byte order.
pub fn is_strictly_sorted(nodes: &Vec<data::Hash>) -> (sorted: bool)
    ensures
        sorted == strictly_sorted(nodes@),
{
    let mut k: usize = 1;
    while k < nodes.len()
        invariant
            1 <= k,
            forall|m: int| 0 <= m < k - 1 ==> lex_lt(#[trigger] nodes@[m]@, nodes@[m + 1]@),
        decreases nodes@.len() - k,
    {
        if !nodes[k - 1].precedes(&nodes[k]) {
            return false;
        }
        k += 1;
    }
    proof {
        assert forall|i: int, j: int| 0 <= i < j < nodes@.len() implies lex_lt(
            nodes@[i]@,
            nodes@[j]@,
        ) by {
            lemma_neighbours_sorted(nodes@, i, j);
        }
    }
    true
}

impl LayoutVersion {
    /// The invariant of a layout version: at least one partition and at
    /// most 65536, the first starting at the all-zero hash, each starting
    /// after the one before, and `replication_factor` nodes for each.
    pub open spec fn wf(&self) -> bool {
        &&& 1 <= self.partition_starts@.len() <= 0x1_0000
        &&& self.ring@.len() == self.partition_starts@.len() * self.replication_factor
        &&& forall|i: int| 0 <= i < 32 ==> self.partition_starts@[0]@[i] == 0
        &&& strictly_sorted(self.partition_starts@)
    }

    /// Whether this layout version is well formed.
    pub fn is_well_formed(&self) -> (ok: bool)
        ensures
            ok == self.wf(),
    {
        let count = self.partition_starts.len();
        if count < 1 || count > 0x1_0000 {
            return false;
        }
        let ring_len = self.ring.len();
        match count.checked_mul(self.replication_factor) {
            Some(len) => {
                if ring_len != len {
                    return false;
                }
            },
            None => {
                return false;
            },
        }
        if !self.partition_starts[0].same(&data::Hash::filled(0)) {
            proof {
                if self.wf() {
                    assert(self.partition_starts@[0]@ =~= Seq::new(32, |i: int| 0u8));
                }
            }
            return false;
        }
        is_strictly_sorted(&self.partition_starts)
    }

    /// Partition `p` holds `hash`: it starts at or before `hash`, and the
    /// next partition, if there is one, starts after it.
    pub open spec fn covers(&self, p: int, hash: Seq<u8>) -> bool {
        &&& 0 <= p < self.partition_starts@.len()
        &&& !lex_lt(hash, self.partition_starts@[p]@)
        &&& p + 1 < self.partition_starts@.len() ==> lex_lt(hash, self.partition_starts@[p + 1]@)
    }

    /// The partition that `hash` falls into.
    pub open spec fn partition_index(&self, hash: Seq<u8>) -> int {
        choose|p: int| self.covers(p, hash)
    }

    /// The `n` consecutive nodes of the ring that start at the partition
    /// that `hash` falls into.
    pub open spec fn nodes_of_spec(&self, hash: Seq<u8>, n: int) -> Seq<data::Uuid> {
        let start = self.partition_index(hash) * self.replication_factor;
        self.ring@.subrange(start, start + n)
    }

    /// Among the first `count` partitions, one starts at or before
    /// `hash` while the next of them, if there is one, starts after it.
    proof fn lemma_partition_among(&self, hash: Seq<u8>, count: int) -> (p: int)
        requires
            self.wf(),
            hash.len() == 32,
            1 <= count <= self.partition_starts@.len(),
        ensures
            0 <= p < count,
            !lex_lt(hash, self.partition_starts@[p]@),
            p + 1 < count ==> lex_lt(hash, self.partition_starts@[p + 1]@),
        decreases count,
    {
        if count == 1 {
            lemma_zero_is_least(self.partition_starts@[0]@, hash);
            0
        } else {
            let p = self.lemma_partition_among(hash, count - 1);
            if p + 1 == count - 1 && !lex_lt(hash, self.partition_starts@[count - 1]@) {
                count - 1
            } else {
                p
            }
        }
    }

    /// Every hash falls into a partition.
    pub proof fn lemma_partition_exists(&self, hash: Seq<u8>)
        requires
            self.wf(),
            hash.len() == 32,
        ensures
            self.covers(self.partition_index(hash), hash),
    {
        let p = self.lemma_partition_among(hash, self.partition_starts@.len() as int);
        assert(self.covers(p, hash));
    }

    /// A hash has as many nodes as are asked for, up to the replication factor.
    pub proof fn lemma_nodes_of_len(&self, hash: Seq<u8>, n: int)
        requires
            self.wf(),
            hash.len() == 32,
            0 <= n <= self.replication_factor,
        ensures
            self.nodes_of_spec(hash, n).len() == n,
    {
        self.lemma_partition_exists(hash);
        let p = self.partition_index(hash);
        let rf = self.replication_factor as int;
        let count = self.partition_starts@.len() as int;
        assert(0 <= p * rf && p * rf + rf <= count * rf) by (nonlinear_arith)
            requires
                0 <= p,
                p + 1 <= count,
                0 <= rf,
        ;
    }

    /// A hash falls into one partition only.
    pub proof fn lemma_partition_unique(&self, hash: Seq<u8>, p: int, q: int)
        requires
            self.wf(),
            hash.len() == 32,
            self.covers(p, hash),
            self.covers(q, hash),
        ensures
            p == q,
            self.partition_index(hash) == p,
    {
        let starts = self.partition_starts@;
        if p < q {
            if p + 1 < q {
                lemma_lex_lt_transitive(hash, starts[p + 1]@, starts[q]@);
            }
        } else if q < p {
            if q + 1 < p {
                lemma_lex_lt_transitive(hash, starts[q + 1]@, starts[p]@);
            }
        }
        if p == q {
            let chosen = self.partition_index(hash);
            if chosen < p {
                if chosen + 1 < p {
                    lemma_lex_lt_transitive(hash, starts[chosen + 1]@, starts[p]@);
                }
            } else if p < chosen {
                if p + 1 < chosen {
                    lemma_lex_lt_transitive(hash, starts[p + 1]@, starts[chosen]@);
                }
            }
        }
    }

    /// The partition that `hash` falls into.
    pub fn partition_of(&self, hash: &data::Hash) -> (p: Partition)
        requires
            self.wf(),
        ensures
            self.covers(p as int, hash@),
            p == self.partition_index(hash@),
    {
        let mut lo: usize = 0;
        let mut hi: usize = self.partition_starts.len();
        proof {
            lemma_zero_is_least(self.partition_starts@[0]@, hash@);
        }
        while hi - lo > 1
            invariant
                self.wf(),
                0 <= lo < hi <= self.partition_starts@.len(),
                !lex_lt(hash@, self.partition_starts@[lo as int]@),
                hi < self.partition_starts@.len() ==> lex_lt(
                    hash@,
                    self.partition_starts@[hi as int]@,
                ),
            decreases hi - lo,
        {
            let mid = lo + (hi - lo) / 2;
            if hash.precedes(&self.partition_starts[mid]) {
                hi = mid;
            } else {
                lo = mid;
            }
        }
        proof {
            self.lemma_partition_unique(hash@, lo as int, lo as int);
        }
        lo as u16
    }

    /// The partitions of this layout version, each with its first hash.
    pub fn partitions(&self) -> (list: Vec<(Partition, data::Hash)>)
        requires
            self.wf(),
        ensures
            list@.len() == self.partition_starts@.len(),
            forall|i: int|
                0 <= i < list@.len() ==> (#[trigger] list@[i]).0 == i && list@[i].1
                    == self.partition_starts@[i],
    {
        let mut list: Vec<(Partition, data::Hash)> = Vec::new();
        let mut i: usize = 0;
        while i < self.partition_starts.len()
            invariant
                self.wf(),
                i <= self.partition_starts@.len(),
                list@.len() == i,
                forall|k: int|
                    0 <= k < i ==> (#[trigger] list@[k]).0 == k && list@[k].1
                        == self.partition_starts@[k],
            decreases self.partition_starts@.len() - i,
        {
            list.push((i as u16, self.partition_starts[i]));
            i += 1;
        }
        list
    }

    /// The first `n` of the nodes that store `hash`, in ring order.
    pub fn nodes_of(&self, hash: &data::Hash, n: usize) -> (nodes: Vec<data::Uuid>)
        requires
            self.wf(),
            n <= self.replication_factor,
        ensures
            nodes@ == self.nodes_of_spec(hash@, n as int),
            nodes@.len() == n,
    {
        let p = self.partition_of(hash) as usize;
        let rf = self.replication_factor;
        let ring_len = self.ring.len();
        assert(0 <= p * rf && p * rf + rf <= ring_len) by (nonlinear_arith)
            requires
                0 <= p,
                0 <= rf,
                p + 1 <= self.partition_starts@.len(),
                ring_len == self.partition_starts@.len() * rf,
        ;
        let start = p * rf;
        let mut nodes: Vec<data::Uuid> = Vec::new();
        let mut j: usize = 0;
        while j < n
            invariant
                j <= n,
                start + n <= ring_len,
                ring_len == self.ring@.len(),
                nodes@ == self.ring@.subrange(start as int, start + j),
            decreases n - j,
        {
            nodes.push(self.ring[start + j]);
            j += 1;
            assert(nodes@ =~= self.ring@.subrange(start as int, start + j));
        }
        nodes
    }
}

/// Puts `node` into a strictly sorted list unless the list holds it.
fn insert_node(nodes: &mut Vec<data::Uuid>, node: data::Uuid)
    requires
        strictly_sorted(old(nodes)@),
    ensures
        strictly_sorted(final(nodes)@),
        forall|other: data::Uuid| #[trigger]
            final(nodes)@.contains(other) <==> old(nodes)@.contains(other) || other == node,
{
    let mut pos: usize = 0;
    while pos < nodes.len() && nodes[pos].precedes(&node)
        invariant
            pos <= nodes@.len(),
            nodes@ == old(nodes)@,
            forall|j: int| 0 <= j < pos ==> lex_lt(nodes@[j]@, node@),
        decreases nodes@.len() - pos,
    {
        pos += 1;
    }
    let ghost before = nodes@;
    if pos < nodes.len() && nodes[pos].same(&node) {
        assert(before.contains(node));
        return ;
    }
    proof {
        let after = before.insert(pos as int, node);
        assert(after[pos as int] == node);
        assert forall|i: int| 0 <= i < pos implies after[i] == before[i] by {}
        assert forall|i: int| pos < i < after.len() implies after[i] == before[i - 1] by {}
        if pos < before.len() {
            lemma_lex_lt_total(before[pos as int]@, node@);
            data::Hash::lemma_view_injective(before[pos as int], node);
            assert(lex_lt(node@, before[pos as int]@));
        }
        assert forall|i: int, j: int| 0 <= i < j < after.len() implies lex_lt(
            after[i]@,
            after[j]@,
        ) by {
            if i == pos {
                if j - 1 > pos {
                    lemma_lex_lt_transitive(node@, before[pos as int]@, before[j - 1]@);
                }
            } else if j == pos {
            } else {
                let bi = if i < pos { i } else { i - 1 };
                let bj = if j < pos { j } else { j - 1 };
                assert(lex_lt(before[bi]@, before[bj]@));
            }
        }
        assert forall|other: data::Uuid| #[trigger]
            after.contains(other) <==> before.contains(other) || other == node by {
            if after.contains(other) {
                let k = choose|k: int| 0 <= k < after.len() && after[k] == other;
                if k < pos {
                    assert(before[k] == other);
                } else if k > pos {
                    assert(before[k - 1] == other);
                }
            }
            if before.contains(other) {
                let k = choose|k: int| 0 <= k < before.len() && before[k] == other;
                if k < pos {
                    assert(after[k] == other);
                } else {
                    assert(after[k + 1] == other);
                }
            }
        }
    }
    nodes.insert(pos, node);
}

/// Puts every node of `more` into a strictly sorted list, each once.
fn insert_nodes(nodes: &mut Vec<data::Uuid>, more: &Vec<data::Uuid>)
    requires
        strictly_sorted(old(nodes)@),
    ensures
        strictly_sorted(final(nodes)@),
        forall|other: data::Uuid| #[trigger]
            final(nodes)@.contains(other) <==> old(nodes)@.contains(other) || more@.contains(
                other,
            ),
{
    let mut j: usize = 0;
    while j < more.len()
        invariant
            j <= more@.len(),
            strictly_sorted(nodes@),
            forall|other: data::Uuid| #[trigger]
                nodes@.contains(other) <==> old(nodes)@.contains(other) || more@.take(
                    j as int,
                ).contains(other),
        decreases more@.len() - j,
    {
        let ghost held = nodes@;
        insert_node(nodes, more[j]);
        proof {
            let seen = more@.take(j as int);
            let next = more@.take(j + 1);
            assert(next =~= seen.push(more@[j as int]));
            assert forall|other: data::Uuid| #[trigger]
                nodes@.contains(other) <==> old(nodes)@.contains(other) || next.contains(
                    other,
                ) by {
                assert(held.contains(other) <==> old(nodes)@.contains(other) || seen.contains(
                    other,
                ));
                if seen.contains(other) {
                    let k = choose|k: int| 0 <= k < seen.len() && seen[k] == other;
                    assert(next[k] == other);
                }
                if other == more@[j as int] {
                    assert(next[j as int] == other);
                }
                if next.contains(other) {
                    let k = choose|k: int| 0 <= k < next.len() && next[k] == other;
                    if k < j {
                        assert(seen[k] == other);
                    }
                }
            }
        }
        j += 1;
    }
    assert(more@.take(more@.len() as int) =~= more@);
}

impl LayoutHistory {
    /// The invariant of a layout history: it holds a current version, and
    /// each of its versions is well formed.
    pub open spec fn wf(&self) -> bool {
        &&& self.versions@.len() >= 1
        &&& forall|v: int| 0 <= v < self.versions@.len() ==> (#[trigger] self.versions@[v]).wf()
    }

    /// Whether this layout history is well formed.
    pub fn is_well_formed(&self) -> (ok: bool)
        ensures
            ok == self.wf(),
    {
        if self.versions.len() < 1 {
            return false;
        }
        let mut v: usize = 0;
        while v < self.versions.len()
            invariant
                v <= self.versions@.len(),
                forall|k: int| 0 <= k < v ==> (#[trigger] self.versions@[k]).wf(),
            decreases self.versions@.len() - v,
        {
            if !self.versions[v].is_well_formed() {
                return false;
            }
            v += 1;
        }
        true
    }

    /// The current layout version.
    pub open spec fn spec_current(&self) -> LayoutVersion {
        self.versions@.last()
    }

    /// Some version among the first `count` stores `hash` on `node`.
    pub open spec fn stores_before(&self, hash: Seq<u8>, node: data::Uuid, count: int) -> bool {
        exists|v: int|
            0 <= v < count && (#[trigger] self.versions@[v]).nodes_of_spec(
                hash,
                self.versions@[v].replication_factor as int,
            ).contains(node)
    }

    /// Some version that is not retired stores `hash` on `node`.
    pub open spec fn stores_on(&self, hash: Seq<u8>, node: data::Uuid) -> bool {
        self.stores_before(hash, node, self.versions@.len() as int)
    }

    /// The current layout version.
    pub fn current(&self) -> (version: &LayoutVersion)
        requires
            self.wf(),
        ensures
            *version == self.spec_current(),
            version.wf(),
    {
        &self.versions[self.versions.len() - 1]
    }

    /// The newest layout version that all nodes have acknowledged.
    pub fn all_ack(&self) -> (version: u64)
        ensures
            version == self.all_ack,
    {
        self.all_ack
    }

    /// The nodes that store `hash` under each version that is not retired.
    pub fn write_sets_of(&self, hash: &data::Hash) -> (sets: Vec<Vec<data::Uuid>>)
        requires
            self.wf(),
        ensures
            sets@.len() == self.versions@.len(),
            forall|v: int|
                0 <= v < sets@.len() ==> (#[trigger] sets@[v])@ == self.versions@[v].nodes_of_spec(
                    hash@,
                    self.versions@[v].replication_factor as int,
                ),
    {
        let mut sets: Vec<Vec<data::Uuid>> = Vec::new();
        let mut v: usize = 0;
        while v < self.versions.len()
            invariant
                self.wf(),
                v <= self.versions@.len(),
                sets@.len() == v,
                forall|k: int|
                    0 <= k < v ==> (#[trigger] sets@[k])@ == self.versions@[k].nodes_of_spec(
                        hash@,
                        self.versions@[k].replication_factor as int,
                    ),
            decreases self.versions@.len() - v,
        {
            let version = &self.versions[v];
            sets.push(version.nodes_of(hash, version.replication_factor));
            v += 1;
        }
        sets
    }

    /// The nodes that store `hash` under some version that is not
    /// retired, in increasing order, each once.
    pub fn storage_nodes_of(&self, hash: &data::Hash) -> (nodes: Vec<data::Uuid>)
        requires
            self.wf(),
        ensures
            strictly_sorted(nodes@),
            forall|node: data::Uuid| #[trigger] nodes@.contains(node) <==> self.stores_on(hash@, node),
    {
        let sets = self.write_sets_of(hash);
        let mut nodes: Vec<data::Uuid> = Vec::new();
        let mut v: usize = 0;
        assert forall|node: data::Uuid| #[trigger]
            nodes@.contains(node) <==> self.stores_before(hash@, node, 0) by {}
        while v < sets.len()
            invariant
                v <= sets@.len(),
                sets@.len() == self.versions@.len(),
                forall|k: int|
                    0 <= k < sets@.len() ==> (#[trigger] sets@[k])@
                        == self.versions@[k].nodes_of_spec(
                        hash@,
                        self.versions@[k].replication_factor as int,
                    ),
                strictly_sorted(nodes@),
                forall|node: data::Uuid| #[trigger]
                    nodes@.contains(node) <==> self.stores_before(hash@, node, v as int),
            decreases sets@.len() - v,
        {
            let ghost held = nodes@;
            insert_nodes(&mut nodes, &sets[v]);
            proof {
                assert forall|node: data::Uuid| #[trigger]
                    nodes@.contains(node) <==> self.stores_before(hash@, node, v + 1) by {
                    assert(held.contains(node) <==> self.stores_before(hash@, node, v as int));
                    let set = self.versions@[v as int].nodes_of_spec(
                        hash@,
                        self.versions@[v as int].replication_factor as int,
                    );
                    assert(sets@[v as int]@ == set);
                    if self.stores_before(hash@, node, v + 1) && !self.stores_before(
                        hash@,
                        node,
                        v as int,
                    ) {
                        let k = choose|k: int|
                            0 <= k < v + 1 && (#[trigger] self.versions@[k]).nodes_of_spec(
                                hash@,
                                self.versions@[k].replication_factor as int,
                            ).contains(node);
                        assert(k == v);
                    }
                    if self.stores_before(hash@, node, v as int) {
                        let k = choose|k: int|
                            0 <= k < v && (#[trigger] self.versions@[k]).nodes_of_spec(
                                hash@,
                                self.versions@[k].replication_factor as int,
                            ).contains(node);
                        assert(0 <= k < v + 1);
                    }
                }
            }
            v += 1;
        }
        nodes
    }
}

impl TableShardedReplication {
    /// The invariant of a policy: neither quorum asks for more nodes than
    /// store an entry.
    pub open spec fn wf(&self) -> bool {
        self.read_quorum <= self.replication_factor && self.write_quorum
            <= self.replication_factor
    }

    /// Whether this policy is well formed.
    pub fn is_well_formed(&self) -> (ok: bool)
        ensures
            ok == self.wf(),
    {
        self.read_quorum <= self.replication_factor && self.write_quorum
            <= self.replication_factor
    }

    /// The nodes to read `hash` from: those that it is written to.
    pub fn read_nodes(&self, layout: &LayoutHistory, hash: &data::Hash) -> (nodes: Vec<data::Uuid>)
        requires
            layout.wf(),
            self.replication_factor <= layout.spec_current().replication_factor,
        ensures
            nodes@ == layout.spec_current().nodes_of_spec(hash@, self.replication_factor as int),
            nodes@.len() == self.replication_factor,
    {
        layout.current().nodes_of(hash, self.replication_factor)
    }

    /// How many nodes a read contacts.
    pub fn read_quorum(&self) -> (quorum: usize)
        ensures
            quorum == self.read_quorum,
    {
        self.read_quorum
    }

    /// The nodes to write `hash` to: the `replication_factor` consecutive
    /// nodes that start at its partition in the current layout.
    pub fn write_nodes(&self, layout: &LayoutHistory, hash: &data::Hash) -> (nodes: Vec<
        data::Uuid,
    >)
        requires
            layout.wf(),
            self.replication_factor <= layout.spec_current().replication_factor,
        ensures
            nodes@ == layout.spec_current().nodes_of_spec(hash@, self.replication_factor as int),
            nodes@.len() == self.replication_factor,
    {
        layout.current().nodes_of(hash, self.replication_factor)
    }

    /// How many nodes a write must reach.
    pub fn write_quorum(&self) -> (quorum: usize)
        ensures
            quorum == self.write_quorum,
    {
        self.write_quorum
    }

    /// How many nodes may fail a write that still succeeds.
    pub fn max_write_errors(&self) -> (errors: usize)
        requires
            self.wf(),
        ensures
            errors == self.replication_factor - self.write_quorum,
    {
        self.replication_factor - self.write_quorum
    }

    /// The partition that `hash` falls into in the current layout.
    pub fn partition_of(&self, layout: &LayoutHistory, hash: &data::Hash) -> (p: Partition)
        requires
            layout.wf(),
        ensures
            layout.spec_current().covers(p as int, hash@),
            p == layout.spec_current().partition_index(hash@),
    {
        layout.current().partition_of(hash)
    }

    /// The partitions of the current layout with, for each, its range of
    /// hashes and the nodes that store it under some version that is not
    /// retired.
    pub fn sync_partitions(&self, layout: &LayoutHistory) -> (out: SyncPartitions)
        requires
            layout.wf(),
        ensures
            out.layout_version == layout.all_ack,
            out.partitions@.len() == layout.spec_current().partition_starts@.len(),
            forall|i: int|
                0 <= i < out.partitions@.len() ==> sync_partition_of(
                    *layout,
                    i,
                    #[trigger] out.partitions@[i],
                ),
    {
        let current = layout.current();
        let count = current.partition_starts.len();
        let mut partitions: Vec<SyncPartition> = Vec::new();
        let mut i: usize = 0;
        while i < count
            invariant
                layout.wf(),
                *current == layout.spec_current(),
                count == current.partition_starts@.len(),
                i <= count,
                partitions@.len() == i,
                forall|k: int|
                    0 <= k < i ==> sync_partition_of(*layout, k, #[trigger] partitions@[k]),
            decreases count - i,
        {
            let first_hash = current.partition_starts[i];
            let storage_nodes = layout.storage_nodes_of(&first_hash);
            let last_hash = if i + 1 < count {
                current.partition_starts[i + 1]
            } else {
                data::Hash::filled(0xFF)
            };
            partitions.push(
                SyncPartition { partition: i as u16, first_hash, last_hash, storage_nodes },
            );
            i += 1;
        }
        SyncPartitions { layout_version: layout.all_ack(), partitions }
    }
}

/// `part` describes partition `i` of the current layout: its number, its
/// first hash, as last hash the first hash of the next partition or, for
/// the last partition, the hash of 32 bytes `0xFF`, and as storage nodes
/// the strictly sorted list of the nodes that store its first hash under
/// some version that is not retired.
pub open spec fn sync_partition_of(layout: LayoutHistory, i: int, part: SyncPartition) -> bool {
    let starts = layout.spec_current().partition_starts@;
    &&& part.partition == i
    &&& part.first_hash == starts[i]
    &&& if i + 1 < starts.len() {
        part.last_hash == starts[i + 1]
    } else {
        part.last_hash@ == Seq::new(32, |k: int| 0xFFu8)
    }
    &&& strictly_sorted(part.storage_nodes@)
    &&& forall|node: data::Uuid| #[trigger]
        part.storage_nodes@.contains(node) <==> layout.stores_on(starts[i]@, node)
}

} // verus!
