//! Provisioning of static talkgroups.

use asl_dmr_bridge::provision::{diff, reconcile_slot, reconcile_statics, Change, StaticTalkgroup};

fn st(slot: u8, tg: u32) -> StaticTalkgroup {
    StaticTalkgroup {
        talkgroup: tg,
        slot,
    }
}

#[test]
fn diff_no_change() {
    let current = vec![st(1, 91), st(1, 3100)];
    let (add, remove) = diff(1, &[91, 3100], &current);
    assert!(add.is_empty());
    assert!(remove.is_empty());
}

#[test]
fn diff_pure_add() {
    let current = vec![];
    let (add, remove) = diff(1, &[91], &current);
    assert_eq!(add, vec![91]);
    assert!(remove.is_empty());
}

#[test]
fn diff_pure_remove() {
    let current = vec![st(1, 91), st(1, 3100)];
    let (add, remove) = diff(1, &[], &current);
    assert!(add.is_empty());
    assert_eq!(remove, vec![91, 3100]);
}

#[test]
fn diff_swap() {
    let current = vec![st(1, 91)];
    let (add, remove) = diff(1, &[3100], &current);
    assert_eq!(add, vec![3100]);
    assert_eq!(remove, vec![91]);
}

#[test]
fn diff_ignores_other_slot() {
    let current = vec![st(1, 91), st(2, 9990)];
    let (add, remove) = diff(1, &[91], &current);
    assert!(add.is_empty());
    assert!(remove.is_empty());
}

#[test]
fn reconcile_slot_removes_before_adds() {
    let current = vec![st(1, 91)];
    assert_eq!(
        reconcile_slot(1, &[3100], &current),
        vec![Change::Remove(st(1, 91)), Change::Insert(st(1, 3100))]
    );
}

#[test]
fn changes_make_the_slots_match() {
    let mut held = vec![st(1, 91), st(2, 5), st(1, 7), st(2, 6)];
    let ts2 = Some(vec![6, 8, 9]);
    let changes = reconcile_statics(&None, &ts2, &held);
    for change in changes {
        match change {
            Change::Remove(t) => held.retain(|&h| h != t),
            Change::Insert(t) => held.push(t),
        }
    }
    assert_eq!(held, vec![st(1, 91), st(1, 7), st(2, 6), st(2, 8), st(2, 9)]);
}

#[test]
fn both_slots_are_reconciled() {
    let held = vec![st(1, 91)];
    let changes = reconcile_statics(&Some(vec![]), &Some(vec![3]), &held);
    assert_eq!(changes, vec![Change::Remove(st(1, 91)), Change::Insert(st(2, 3))]);
}
