use garage_store::rc::{
    rc_entry_is_readable, rc_is_needed, rc_is_zero, rc_merge, RC_DECREMENT, RC_INCREMENT,
};

fn rc_count(n: u64) -> Vec<u8> {
    n.to_be_bytes().to_vec()
}

#[test]
fn rc_operands() {
    assert_eq!(RC_INCREMENT, 1);
    assert_eq!(RC_DECREMENT, 0);
}

#[test]
fn rc_first_increment_creates_the_entry() {
    assert_eq!(rc_merge(b"key", None, &[1]), Some(rc_count(1)));
}

#[test]
fn rc_increment_adds_one() {
    assert_eq!(rc_merge(b"key", Some(&rc_count(1)), &[1]), Some(rc_count(2)));
    assert_eq!(rc_merge(b"key", Some(&rc_count(255)), &[1]), Some(rc_count(256)));
    assert_eq!(
        rc_merge(b"key", Some(&rc_count(u64::MAX - 1)), &[1]),
        Some(rc_count(u64::MAX))
    );
}

#[test]
fn rc_decrement_takes_one() {
    assert_eq!(rc_merge(b"key", Some(&rc_count(2)), &[0]), Some(rc_count(1)));
    assert_eq!(rc_merge(b"key", Some(&rc_count(256)), &[0]), Some(rc_count(255)));
}

#[test]
fn rc_reaching_zero_removes_the_entry() {
    assert_eq!(rc_merge(b"key", Some(&rc_count(1)), &[0]), None);
}

#[test]
fn rc_decrement_saturates_at_zero() {
    assert_eq!(rc_merge(b"key", None, &[0]), None);
    assert_eq!(rc_merge(b"key", Some(&rc_count(0)), &[0]), None);
}

#[test]
fn rc_incref_then_decref_restores() {
    for start in [None, Some(rc_count(1)), Some(rc_count(41)), Some(rc_count(1 << 33))] {
        let raised = rc_merge(b"key", start.as_deref(), &[RC_INCREMENT]);
        let lowered = rc_merge(b"key", raised.as_deref(), &[RC_DECREMENT]);
        assert_eq!(lowered, start);
    }
}

#[test]
fn rc_zero_and_needed() {
    assert!(rc_is_zero(None));
    assert!(!rc_is_needed(None));
    assert!(rc_is_zero(Some(&rc_count(0))));
    assert!(!rc_is_needed(Some(&rc_count(0))));
    assert!(!rc_is_zero(Some(&rc_count(1))));
    assert!(rc_is_needed(Some(&rc_count(1))));
    assert!(rc_is_needed(Some(&rc_count(1 << 40))));
}

#[test]
fn rc_readable_entries() {
    assert!(rc_entry_is_readable(None));
    assert!(rc_entry_is_readable(Some(&[0u8; 8])));
    assert!(!rc_entry_is_readable(Some(&[0u8; 7])));
    assert!(!rc_entry_is_readable(Some(&[0u8; 9])));
    assert!(!rc_entry_is_readable(Some(&[])));
}
