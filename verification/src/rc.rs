//! Per-block reference counts as the key-value store holds them: a missing
//! key counts zero, a present key holds the count as eight big-endian
//! bytes. Counts change through a merge operator with a one-byte operand.

use crate::data::{be_bytes, be_u64, lemma_be_bytes_of_value, lemma_be_roundtrip, u64_from_bytes,
    u64_to_be_bytes};
use vstd::prelude::*;

verus! {

/// Merge operand that lowers a count by one, stopping at zero.
pub const RC_DECREMENT: u8 = 0;

/// Merge operand that raises a count by one.
pub const RC_INCREMENT: u8 = 1;

/// What an optional byte slice holds.
pub open spec fn opt_bytes(entry: Option<&[u8]>) -> Option<Seq<u8>> {
    match entry {
        Some(bytes) => Some(bytes@),
        None => None,
    }
}

/// What an optional byte vector holds.
pub open spec fn opt_vec(entry: Option<Vec<u8>>) -> Option<Seq<u8>> {
    match entry {
        Some(bytes) => Some(bytes@),
        None => None,
    }
}

/// A stored entry that can be read as a count: absent, or eight bytes.
pub open spec fn rc_entry_readable(entry: Option<Seq<u8>>) -> bool {
    entry matches Some(bytes) ==> bytes.len() == 8
}

/// A stored entry as the merge operator writes it: absent, or eight bytes
/// that spell a count above zero.
pub open spec fn rc_entry_canonical(entry: Option<Seq<u8>>) -> bool {
    entry matches Some(bytes) ==> bytes.len() == 8 && be_u64(bytes) > 0
}

/// The count that a stored entry stands for.
pub open spec fn rc_value(entry: Option<Seq<u8>>) -> int {
    match entry {
        Some(bytes) => be_u64(bytes),
        None => 0,
    }
}

/// The stored entry for a count: none for zero.
pub open spec fn rc_entry(count: int) -> Option<Seq<u8>> {
    if count == 0 {
        None
    } else {
        Some(be_bytes(count as u64))
    }
}

/// The count after one merge: the increment adds one, the decrement takes
/// one away unless the count is already zero.
pub open spec fn rc_after(count: int, operand: u8) -> int {
    if operand == RC_INCREMENT {
        count + 1
    } else if count > 0 {
        count - 1
    } else {
        0
    }
}

/// The stored entry after merging `operand` into `old`.
pub open spec fn rc_merge_spec(old: Option<Seq<u8>>, operand: u8) -> Option<Seq<u8>> {
    rc_entry(rc_after(rc_value(old), operand))
}

/// Whether a stored entry can be read as a count.
pub fn rc_entry_is_readable(entry: Option<&[u8]>) -> (readable: bool)
    ensures
        readable == rc_entry_readable(opt_bytes(entry)),
{
    match entry {
        Some(bytes) => bytes.len() == 8,
        None => true,
    }
}

/// The entry that a merge writes counts what the merge makes of the
/// count before it, and is written as the merge operator writes.
pub proof fn lemma_rc_merge_counts(entry: Option<Seq<u8>>, operand: u8)
    requires
        rc_entry_readable(entry),
        operand == RC_DECREMENT || operand == RC_INCREMENT,
        operand == RC_INCREMENT ==> rc_value(entry) < u64::MAX,
    ensures
        rc_value(rc_merge_spec(entry, operand)) == rc_after(rc_value(entry), operand),
        rc_entry_canonical(rc_merge_spec(entry, operand)),
{
    let count = rc_after(rc_value(entry), operand);
    lemma_be_roundtrip(count as u64);
}

/// The merge operator of the reference-count tree. `old` is the stored
/// entry, `new` the one-byte operand; the result replaces the entry, and
/// `None` removes the key.
pub fn rc_merge(_key: &[u8], old: Option<&[u8]>, new: &[u8]) -> (res: Option<Vec<u8>>)
    requires
        rc_entry_readable(opt_bytes(old)),
        new@.len() == 1,
        new@[0] == RC_DECREMENT || new@[0] == RC_INCREMENT,
        new@[0] == RC_INCREMENT ==> rc_value(opt_bytes(old)) < u64::MAX,
    ensures
        opt_vec(res) == rc_merge_spec(opt_bytes(old), new@[0]),
        rc_entry_canonical(opt_vec(res)),
        rc_value(opt_vec(res)) == rc_after(rc_value(opt_bytes(old)), new@[0]),
{
    let old_count: u64 = match old {
        Some(bytes) => u64_from_bytes(bytes),
        None => 0,
    };
    let new_count: u64 = if new[0] == RC_DECREMENT {
        if old_count > 0 {
            old_count - 1
        } else {
            0
        }
    } else {
        old_count + 1
    };
    proof {
        lemma_be_roundtrip(new_count);
    }
    if new_count == 0 {
        None
    } else {
        Some(u64_to_be_bytes(new_count))
    }
}

/// Whether a stored entry counts zero: the key is absent or spells zero.
pub fn rc_is_zero(entry: Option<&[u8]>) -> (zero: bool)
    requires
        rc_entry_readable(opt_bytes(entry)),
    ensures
        zero == (rc_value(opt_bytes(entry)) == 0),
{
    match entry {
        Some(bytes) => u64_from_bytes(bytes) == 0,
        None => true,
    }
}

/// Whether a stored entry counts at least one reference.
pub fn rc_is_needed(entry: Option<&[u8]>) -> (needed: bool)
    requires
        rc_entry_readable(opt_bytes(entry)),
    ensures
        needed == (rc_value(opt_bytes(entry)) > 0),
{
    match entry {
        Some(bytes) => u64_from_bytes(bytes) > 0,
        None => false,
    }
}

/// Raising a count and then lowering it gives the count back.
pub proof fn lemma_incref_decref_restores_count(count: int)
    requires
        count >= 0,
    ensures
        rc_after(rc_after(count, RC_INCREMENT), RC_DECREMENT) == count,
{
}

/// Merging an increment and then a decrement into an entry that the merge
/// operator wrote gives that entry back.
pub proof fn lemma_incref_decref_restores_entry(entry: Option<Seq<u8>>)
    requires
        rc_entry_canonical(entry),
        rc_value(entry) < u64::MAX,
    ensures
        rc_merge_spec(rc_merge_spec(entry, RC_INCREMENT), RC_DECREMENT) == entry,
{
    let count = rc_value(entry);
    match entry {
        Some(bytes) => {
            lemma_be_bytes_of_value(bytes);
        },
        None => {},
    }
    lemma_be_roundtrip((count + 1) as u64);
}

/// On a block that is referenced, two merges give the same count in
/// either order.
pub proof fn lemma_merges_commute(count: int, first: u8, second: u8)
    requires
        count >= 1,
    ensures
        rc_after(rc_after(count, first), second) == rc_after(rc_after(count, second), first),
{
}

/// A decrement never raises a count and never takes it below zero.
pub proof fn lemma_decrement_saturates(count: int)
    requires
        count >= 0,
    ensures
        0 <= rc_after(count, RC_DECREMENT) <= count,
        count == 0 ==> rc_after(count, RC_DECREMENT) == 0,
{
}

} // verus!
