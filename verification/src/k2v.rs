//! The index of a key-value bucket: for each partition key, how many
//! entries, conflicts, values and bytes it holds.

use vstd::prelude::*;

verus! {

/// Name of the counter of entries.
pub const ENTRIES: &'static str = "entries";

/// Name of the counter of entries with concurrent values.
pub const CONFLICTS: &'static str = "conflicts";

/// Name of the counter of values.
pub const VALUES: &'static str = "values";

/// Name of the counter of bytes.
pub const BYTES: &'static str = "bytes";

/// The counters of one partition key, as the index reports them.
#[derive(Clone, Debug, PartialEq, Eq)]
pub struct ReadIndexResponseEntry {
    pub pk: String,
    pub entries: i64,
    pub conflicts: i64,
    pub values: i64,
    pub bytes: i64,
}

/// The answer to a read of the index: the query as it was understood,
/// one entry for each partition key found, and where to go on.
#[derive(Debug, PartialEq, Eq)]
pub struct ReadIndexResponse {
    pub prefix: Option<String>,
    pub start: Option<String>,
    pub end: Option<String>,
    pub limit: Option<u64>,
    pub reverse: bool,
    pub partition_keys: Vec<ReadIndexResponseEntry>,
    pub more: bool,
    pub next_start: Option<String>,
}

/// The counters of one partition key as the counter table holds them: its
/// sort key, and each counter under its name.
#[derive(Clone, Debug, PartialEq, Eq)]
pub struct PartitionCounters {
    pub sk: String,
    pub values: Vec<(String, i64)>,
}

/// `i` is the first counter of that name.
pub open spec fn is_first_named(counters: Seq<(String, i64)>, name: Seq<char>, i: int) -> bool {
    &&& 0 <= i < counters.len()
    &&& counters[i].0@ == name
    &&& forall|j: int| 0 <= j < i ==> counters[j].0@ != name
}

/// No counter has that name.
pub open spec fn none_named(counters: Seq<(String, i64)>, name: Seq<char>) -> bool {
    forall|j: int| 0 <= j < counters.len() ==> counters[j].0@ != name
}

/// `value` is what the counters hold under `name`: the value of the first
/// counter of that name, zero if there is none.
pub open spec fn is_counter_value(counters: Seq<(String, i64)>, name: Seq<char>, value: i64) -> bool {
    ||| exists|i: int| is_first_named(counters, name, i) && counters[i].1 == value
    ||| none_named(counters, name) && value == 0
}

/// The value of the counter of that name, zero if there is none.
pub fn counter_value(counters: &Vec<(String, i64)>, name: &str) -> (value: i64)
    ensures
        is_counter_value(counters@, name@, value),
{
    let wanted = String::from_str(name);
    let mut i: usize = 0;
    while i < counters.len()
        invariant
            i <= counters@.len(),
            wanted@ == name@,
            forall|j: int| 0 <= j < i ==> counters@[j].0@ != name@,
        decreases counters@.len() - i,
    {
        if counters[i].0 == wanted {
            assert(is_first_named(counters@, name@, i as int));
            return counters[i].1;
        }
        i += 1;
    }
    0
}

/// `entry` reports the counters of `part`.
pub open spec fn reports(entry: ReadIndexResponseEntry, part: PartitionCounters) -> bool {
    &&& entry.pk@ == part.sk@
    &&& is_counter_value(part.values@, ENTRIES@, entry.entries)
    &&& is_counter_value(part.values@, CONFLICTS@, entry.conflicts)
    &&& is_counter_value(part.values@, VALUES@, entry.values)
    &&& is_counter_value(part.values@, BYTES@, entry.bytes)
}

/// The index entry of one partition key.
pub fn index_entry(part: &PartitionCounters) -> (entry: ReadIndexResponseEntry)
    ensures
        reports(entry, *part),
{
    ReadIndexResponseEntry {
        pk: part.sk.clone(),
        entries: counter_value(&part.values, ENTRIES),
        conflicts: counter_value(&part.values, CONFLICTS),
        values: counter_value(&part.values, VALUES),
        bytes: counter_value(&part.values, BYTES),
    }
}

/// Builds the answer to a read of the index from the query and from the
/// range of the counter table that was read for it. A query that does not
/// say so is not reversed.
pub fn read_index_response(
    prefix: Option<String>,
    start: Option<String>,
    end: Option<String>,
    limit: Option<u64>,
    reverse: Option<bool>,
    partitions: &Vec<PartitionCounters>,
    more: bool,
    next_start: Option<String>,
) -> (resp: ReadIndexResponse)
    ensures
        resp.prefix == prefix,
        resp.start == start,
        resp.end == end,
        resp.limit == limit,
        resp.reverse == (reverse == Some(true)),
        resp.more == more,
        resp.next_start == next_start,
        resp.partition_keys@.len() == partitions@.len(),
        forall|i: int|
            0 <= i < partitions@.len() ==> reports(
                #[trigger] resp.partition_keys@[i],
                partitions@[i],
            ),
{
    let reverse = match reverse {
        Some(r) => r,
        None => false,
    };
    let mut partition_keys: Vec<ReadIndexResponseEntry> = Vec::new();
    let mut i: usize = 0;
    while i < partitions.len()
        invariant
            i <= partitions@.len(),
            partition_keys@.len() == i,
            forall|k: int|
                0 <= k < i ==> reports(#[trigger] partition_keys@[k], partitions@[k]),
        decreases partitions@.len() - i,
    {
        partition_keys.push(index_entry(&partitions[i]));
        i += 1;
    }
    ReadIndexResponse { prefix, start, end, limit, reverse, partition_keys, more, next_start }
}

} // verus!
