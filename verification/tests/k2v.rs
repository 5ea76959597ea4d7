use garage_store::k2v::{
    counter_value, index_entry, read_index_response, PartitionCounters, ReadIndexResponse,
    ReadIndexResponseEntry, BYTES, CONFLICTS, ENTRIES, VALUES,
};

fn k2v_counters(pairs: &[(&str, i64)]) -> Vec<(String, i64)> {
    pairs.iter().map(|(n, v)| (n.to_string(), *v)).collect()
}

#[test]
fn counter_names() {
    assert_eq!(ENTRIES, "entries");
    assert_eq!(CONFLICTS, "conflicts");
    assert_eq!(VALUES, "values");
    assert_eq!(BYTES, "bytes");
}

#[test]
fn counter_defaults_to_zero() {
    let counters = k2v_counters(&[("entries", 3), ("bytes", -7), ("entries", 9)]);
    assert_eq!(counter_value(&counters, "entries"), 3);
    assert_eq!(counter_value(&counters, "bytes"), -7);
    assert_eq!(counter_value(&counters, "values"), 0);
    assert_eq!(counter_value(&vec![], "entries"), 0);
}

#[test]
fn index_entry_of_a_partition() {
    let part = PartitionCounters {
        sk: "room".to_string(),
        values: k2v_counters(&[("bytes", 1_000), ("entries", 4), ("values", 5), ("other", 1)]),
    };
    assert_eq!(
        index_entry(&part),
        ReadIndexResponseEntry {
            pk: "room".to_string(),
            entries: 4,
            conflicts: 0,
            values: 5,
            bytes: 1_000,
        }
    );
}

#[test]
fn index_response() {
    let parts = vec![
        PartitionCounters { sk: "a".to_string(), values: k2v_counters(&[("entries", 1)]) },
        PartitionCounters { sk: "b".to_string(), values: k2v_counters(&[("conflicts", 2)]) },
    ];
    let resp = read_index_response(
        Some("pre".to_string()),
        None,
        Some("z".to_string()),
        Some(10),
        None,
        &parts,
        true,
        Some("c".to_string()),
    );
    assert_eq!(
        resp,
        ReadIndexResponse {
            prefix: Some("pre".to_string()),
            start: None,
            end: Some("z".to_string()),
            limit: Some(10),
            reverse: false,
            partition_keys: vec![
                ReadIndexResponseEntry {
                    pk: "a".to_string(),
                    entries: 1,
                    conflicts: 0,
                    values: 0,
                    bytes: 0
                },
                ReadIndexResponseEntry {
                    pk: "b".to_string(),
                    entries: 0,
                    conflicts: 2,
                    values: 0,
                    bytes: 0
                },
            ],
            more: true,
            next_start: Some("c".to_string()),
        }
    );
    let reversed = read_index_response(None, None, None, None, Some(true), &vec![], false, None);
    assert!(reversed.reverse);
    assert!(reversed.partition_keys.is_empty());
    let forward = read_index_response(None, None, None, None, Some(false), &vec![], false, None);
    assert!(!forward.reverse);
}
