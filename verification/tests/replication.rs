use garage_store::data;
use garage_store::replication::{
    is_strictly_sorted, LayoutHistory, LayoutVersion, SyncPartition, TableShardedReplication,
};

fn rep_start(first: u8) -> data::Hash {
    let mut bytes = [0u8; 32];
    bytes[0] = first;
    data::Hash::new(bytes)
}

fn rep_node(n: u8) -> data::Uuid {
    data::Hash::filled(n)
}

// Four partitions starting at 0x00, 0x40, 0x80 and 0xc0, two nodes each.
fn rep_layout(version: u64, ring: [u8; 8]) -> LayoutVersion {
    LayoutVersion {
        version,
        replication_factor: 2,
        partition_starts: vec![rep_start(0), rep_start(0x40), rep_start(0x80), rep_start(0xc0)],
        ring: ring.iter().map(|n| rep_node(*n)).collect(),
    }
}

fn rep_history() -> LayoutHistory {
    LayoutHistory {
        versions: vec![
            rep_layout(1, [3, 1, 1, 2, 2, 3, 3, 1]),
            rep_layout(2, [4, 1, 1, 2, 2, 4, 3, 4]),
        ],
        all_ack: 1,
    }
}

fn rep_policy() -> TableShardedReplication {
    TableShardedReplication { replication_factor: 2, read_quorum: 1, write_quorum: 2 }
}

#[test]
fn partition_of_a_hash() {
    let layout = rep_layout(1, [1, 2, 3, 4, 5, 6, 7, 8]);
    assert_eq!(layout.partition_of(&data::Hash::filled(0)), 0);
    assert_eq!(layout.partition_of(&rep_start(0x3f)), 0);
    assert_eq!(layout.partition_of(&data::Hash::filled(0x3f)), 0);
    assert_eq!(layout.partition_of(&rep_start(0x40)), 1);
    assert_eq!(layout.partition_of(&data::Hash::filled(0x7f)), 1);
    assert_eq!(layout.partition_of(&rep_start(0x80)), 2);
    assert_eq!(layout.partition_of(&rep_start(0xc0)), 3);
    assert_eq!(layout.partition_of(&data::Hash::filled(0xff)), 3);
}

#[test]
fn partition_of_with_one_partition() {
    let layout = LayoutVersion {
        version: 1,
        replication_factor: 1,
        partition_starts: vec![rep_start(0)],
        ring: vec![rep_node(1)],
    };
    assert_eq!(layout.partition_of(&data::Hash::filled(0)), 0);
    assert_eq!(layout.partition_of(&data::Hash::filled(0xff)), 0);
    assert_eq!(layout.nodes_of(&data::Hash::filled(9), 1), vec![rep_node(1)]);
}

#[test]
fn partitions_of_a_layout() {
    let layout = rep_layout(1, [1, 2, 3, 4, 5, 6, 7, 8]);
    assert_eq!(
        layout.partitions(),
        vec![
            (0, rep_start(0)),
            (1, rep_start(0x40)),
            (2, rep_start(0x80)),
            (3, rep_start(0xc0))
        ]
    );
}

#[test]
fn nodes_of_a_hash() {
    let layout = rep_layout(1, [1, 2, 3, 4, 5, 6, 7, 8]);
    assert_eq!(
        layout.nodes_of(&data::Hash::filled(0), 2),
        vec![rep_node(1), rep_node(2)]
    );
    assert_eq!(
        layout.nodes_of(&data::Hash::filled(0x90), 2),
        vec![rep_node(5), rep_node(6)]
    );
    assert_eq!(layout.nodes_of(&data::Hash::filled(0xff), 1), vec![rep_node(7)]);
    assert_eq!(layout.nodes_of(&data::Hash::filled(0xff), 0), vec![]);
}

#[test]
fn read_and_write_nodes_are_alike() {
    let history = rep_history();
    let policy = rep_policy();
    let h = data::Hash::filled(0x85);
    assert_eq!(policy.write_nodes(&history, &h), vec![rep_node(2), rep_node(4)]);
    assert_eq!(policy.read_nodes(&history, &h), policy.write_nodes(&history, &h));
    assert_eq!(policy.partition_of(&history, &h), 2);
}

#[test]
fn quorums() {
    let policy = TableShardedReplication { replication_factor: 3, read_quorum: 2, write_quorum: 2 };
    assert_eq!(policy.read_quorum(), 2);
    assert_eq!(policy.write_quorum(), 2);
    assert_eq!(policy.max_write_errors(), 1);
    let strict = TableShardedReplication { replication_factor: 3, read_quorum: 1, write_quorum: 3 };
    assert_eq!(strict.max_write_errors(), 0);
}

#[test]
fn write_sets_of_each_version() {
    let history = rep_history();
    assert_eq!(
        history.write_sets_of(&rep_start(0xc0)),
        vec![vec![rep_node(3), rep_node(1)], vec![rep_node(3), rep_node(4)]]
    );
    assert_eq!(history.all_ack(), 1);
    assert_eq!(history.current().version, 2);
}

#[test]
fn storage_nodes_are_sorted_and_unique() {
    let history = rep_history();
    assert_eq!(
        history.storage_nodes_of(&rep_start(0)),
        vec![rep_node(1), rep_node(3), rep_node(4)]
    );
    assert_eq!(
        history.storage_nodes_of(&rep_start(0x40)),
        vec![rep_node(1), rep_node(2)]
    );
}

#[test]
fn sync_partitions_of_a_history() {
    let history = rep_history();
    let sync = rep_policy().sync_partitions(&history);
    assert_eq!(sync.layout_version, 1);
    assert_eq!(
        sync.partitions,
        vec![
            SyncPartition {
                partition: 0,
                first_hash: rep_start(0),
                last_hash: rep_start(0x40),
                storage_nodes: vec![rep_node(1), rep_node(3), rep_node(4)],
            },
            SyncPartition {
                partition: 1,
                first_hash: rep_start(0x40),
                last_hash: rep_start(0x80),
                storage_nodes: vec![rep_node(1), rep_node(2)],
            },
            SyncPartition {
                partition: 2,
                first_hash: rep_start(0x80),
                last_hash: rep_start(0xc0),
                storage_nodes: vec![rep_node(2), rep_node(3), rep_node(4)],
            },
            SyncPartition {
                partition: 3,
                first_hash: rep_start(0xc0),
                last_hash: data::Hash::filled(0xff),
                storage_nodes: vec![rep_node(1), rep_node(3), rep_node(4)],
            },
        ]
    );
}

#[test]
fn sorted_check() {
    assert!(is_strictly_sorted(&vec![]));
    assert!(is_strictly_sorted(&vec![rep_node(1)]));
    assert!(is_strictly_sorted(&vec![rep_node(1), rep_node(2), rep_node(9)]));
    assert!(!is_strictly_sorted(&vec![rep_node(1), rep_node(9), rep_node(2)]));
    assert!(!is_strictly_sorted(&vec![rep_node(1), rep_node(1)]));
}

#[test]
fn layout_check() {
    assert!(rep_layout(1, [1, 2, 3, 4, 5, 6, 7, 8]).is_well_formed());
    assert!(rep_history().is_well_formed());
    assert!(rep_policy().is_well_formed());

    let mut short_ring = rep_layout(1, [1, 2, 3, 4, 5, 6, 7, 8]);
    short_ring.ring.pop();
    assert!(!short_ring.is_well_formed());

    let mut no_partition = rep_layout(1, [1, 2, 3, 4, 5, 6, 7, 8]);
    no_partition.partition_starts.clear();
    no_partition.ring.clear();
    assert!(!no_partition.is_well_formed());

    let mut late_start = rep_layout(1, [1, 2, 3, 4, 5, 6, 7, 8]);
    late_start.partition_starts[0] = rep_start(1);
    assert!(!late_start.is_well_formed());

    let mut unsorted = rep_layout(1, [1, 2, 3, 4, 5, 6, 7, 8]);
    unsorted.partition_starts.swap(1, 2);
    assert!(!unsorted.is_well_formed());

    let mut broken = rep_history();
    broken.versions[0].ring.pop();
    assert!(!broken.is_well_formed());
    assert!(!LayoutHistory { versions: vec![], all_ack: 0 }.is_well_formed());

    let greedy = TableShardedReplication { replication_factor: 2, read_quorum: 3, write_quorum: 1 };
    assert!(!greedy.is_well_formed());
}
