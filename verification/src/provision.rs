//! Provisioning of static talkgroups: what to change at the network so that a
//! slot carries exactly the talkgroups that are configured for it.

use vstd::prelude::*;

verus! {

/// A talkgroup that a slot of the repeater is subscribed to.
#[derive(Debug, Clone, Copy, PartialEq, Eq, Structural)]
pub struct StaticTalkgroup {
    pub talkgroup: u32,
    pub slot: u8,
}

/// A change of the subscriptions.
#[derive(Debug, Clone, Copy, PartialEq, Eq, Structural)]
pub enum Change {
    Remove(StaticTalkgroup),
    Insert(StaticTalkgroup),
}

/// The talkgroups of a slot among the first `n` subscriptions, in order.
pub open spec fn in_slot(all: Seq<StaticTalkgroup>, slot: u8, n: int) -> Seq<u32>
    decreases n,
{
    if n <= 0 {
        seq![]
    } else if all[n - 1].slot == slot {
        in_slot(all, slot, n - 1).push(all[n - 1].talkgroup)
    } else {
        in_slot(all, slot, n - 1)
    }
}

/// Those of the first `n` talkgroups that are not in `other`, in order.
pub open spec fn not_in(list: Seq<u32>, other: Seq<u32>, n: int) -> Seq<u32>
    decreases n,
{
    if n <= 0 {
        seq![]
    } else if other.contains(list[n - 1]) {
        not_in(list, other, n - 1)
    } else {
        not_in(list, other, n - 1).push(list[n - 1])
    }
}

/// The talkgroups to add to a slot.
pub open spec fn additions(slot: u8, desired: Seq<u32>, all: Seq<StaticTalkgroup>) -> Seq<u32> {
    not_in(desired, in_slot(all, slot, all.len() as int), desired.len() as int)
}

/// The talkgroups to remove from a slot.
pub open spec fn removals(slot: u8, desired: Seq<u32>, all: Seq<StaticTalkgroup>) -> Seq<u32> {
    let current = in_slot(all, slot, all.len() as int);
    not_in(current, desired, current.len() as int)
}

/// The changes for a slot: first all removals, then all additions.
pub open spec fn slot_changes(
    slot: u8,
    desired: Seq<u32>,
    all: Seq<StaticTalkgroup>,
) -> Seq<Change> {
    removals(slot, desired, all).map_values(
        |talkgroup: u32| Change::Remove(StaticTalkgroup { talkgroup, slot }),
    ) + additions(slot, desired, all).map_values(
        |talkgroup: u32| Change::Insert(StaticTalkgroup { talkgroup, slot }),
    )
}

/// The subscriptions after the first `n` changes.
pub open spec fn applied(
    start: Set<StaticTalkgroup>,
    changes: Seq<Change>,
    n: int,
) -> Set<StaticTalkgroup>
    decreases n,
{
    if n <= 0 {
        start
    } else {
        match changes[n - 1] {
            Change::Remove(t) => applied(start, changes, n - 1).remove(t),
            Change::Insert(t) => applied(start, changes, n - 1).insert(t),
        }
    }
}

fn contains(list: &[u32], talkgroup: u32) -> (r: bool)
    ensures
        r == list@.contains(talkgroup),
{
    let mut i: usize = 0;
    while i < list.len()
        invariant
            i <= list@.len(),
            forall|k: int| 0 <= k < i ==> list@[k] != talkgroup,
        decreases list@.len() - i,
    {
        if list[i] == talkgroup {
            assert(list@[i as int] == talkgroup);
            return true;
        }
        i += 1;
    }
    false
}

fn current_in_slot(all: &[StaticTalkgroup], slot: u8) -> (r: Vec<u32>)
    ensures
        r@ == in_slot(all@, slot, all@.len() as int),
{
    let mut out: Vec<u32> = Vec::new();
    let mut i: usize = 0;
    while i < all.len()
        invariant
            i <= all@.len(),
            out@ == in_slot(all@, slot, i as int),
        decreases all@.len() - i,
    {
        if all[i].slot == slot {
            out.push(all[i].talkgroup);
        }
        i += 1;
    }
    out
}

fn difference(list: &[u32], other: &[u32]) -> (r: Vec<u32>)
    ensures
        r@ == not_in(list@, other@, list@.len() as int),
{
    let mut out: Vec<u32> = Vec::new();
    let mut i: usize = 0;
    while i < list.len()
        invariant
            i <= list@.len(),
            out@ == not_in(list@, other@, i as int),
        decreases list@.len() - i,
    {
        if !contains(other, list[i]) {
            out.push(list[i]);
        }
        i += 1;
    }
    out
}

/// The talkgroups to add to and to remove from a slot.
pub fn diff(slot: u8, desired: &[u32], current_all_slots: &[StaticTalkgroup]) -> (r: (
    Vec<u32>,
    Vec<u32>,
))
    ensures
        r.0@ == additions(slot, desired@, current_all_slots@),
        r.1@ == removals(slot, desired@, current_all_slots@),
{
    let current = current_in_slot(current_all_slots, slot);
    let to_add = difference(desired, current.as_slice());
    let to_remove = difference(current.as_slice(), desired);
    (to_add, to_remove)
}

/// The changes that make a slot carry the desired talkgroups.  Removals come
/// first, so that the slot never carries more than it did or is meant to.
pub fn reconcile_slot(
    slot: u8,
    desired: &[u32],
    current_all_slots: &[StaticTalkgroup],
) -> (changes: Vec<Change>)
    ensures
        changes@ == slot_changes(slot, desired@, current_all_slots@),
{
    let (to_add, to_remove) = diff(slot, desired, current_all_slots);
    let mut changes: Vec<Change> = Vec::new();
    let ghost removed = removals(slot, desired@, current_all_slots@).map_values(
        |talkgroup: u32| Change::Remove(StaticTalkgroup { talkgroup, slot }),
    );
    let ghost added = additions(slot, desired@, current_all_slots@).map_values(
        |talkgroup: u32| Change::Insert(StaticTalkgroup { talkgroup, slot }),
    );
    let mut i: usize = 0;
    while i < to_remove.len()
        invariant
            i <= to_remove@.len(),
            to_remove@ == removals(slot, desired@, current_all_slots@),
            removed == to_remove@.map_values(
                |talkgroup: u32| Change::Remove(StaticTalkgroup { talkgroup, slot }),
            ),
            changes@ == removed.subrange(0, i as int),
        decreases to_remove@.len() - i,
    {
        changes.push(Change::Remove(StaticTalkgroup { talkgroup: to_remove[i], slot }));
        i += 1;
        assert(changes@ =~= removed.subrange(0, i as int));
    }
    assert(changes@ =~= removed);
    let mut j: usize = 0;
    assert(changes@ =~= removed + added.subrange(0, 0));
    while j < to_add.len()
        invariant
            j <= to_add@.len(),
            to_add@ == additions(slot, desired@, current_all_slots@),
            added == to_add@.map_values(
                |talkgroup: u32| Change::Insert(StaticTalkgroup { talkgroup, slot }),
            ),
            changes@ == removed + added.subrange(0, j as int),
        decreases to_add@.len() - j,
    {
        changes.push(Change::Insert(StaticTalkgroup { talkgroup: to_add[j], slot }));
        j += 1;
        assert(changes@ =~= removed + added.subrange(0, j as int));
    }
    assert(changes@ =~= removed + added);
    changes
}

/// The changes for both slots.  A slot without a list is left alone.
pub open spec fn all_changes(
    ts1: Option<Vec<u32>>,
    ts2: Option<Vec<u32>>,
    all: Seq<StaticTalkgroup>,
) -> Seq<Change> {
    (match ts1 {
        Some(desired) => slot_changes(1, desired@, all),
        None => seq![],
    }) + (match ts2 {
        Some(desired) => slot_changes(2, desired@, all),
        None => seq![],
    })
}

/// The changes that make both slots carry what is configured.
pub fn reconcile_statics(
    ts1: &Option<Vec<u32>>,
    ts2: &Option<Vec<u32>>,
    current_all_slots: &[StaticTalkgroup],
) -> (changes: Vec<Change>)
    ensures
        changes@ == all_changes(*ts1, *ts2, current_all_slots@),
{
    let mut changes: Vec<Change> = match ts1 {
        Some(desired) => reconcile_slot(1, desired.as_slice(), current_all_slots),
        None => Vec::new(),
    };
    let mut second: Vec<Change> = match ts2 {
        Some(desired) => reconcile_slot(2, desired.as_slice(), current_all_slots),
        None => Vec::new(),
    };
    changes.append(&mut second);
    assert(changes@ =~= all_changes(*ts1, *ts2, current_all_slots@));
    changes
}

// ---------------------------------------------------------------------------
// Laws
// ---------------------------------------------------------------------------

proof fn lemma_in_slot(all: Seq<StaticTalkgroup>, slot: u8, n: int)
    requires
        0 <= n <= all.len(),
    ensures
        forall|talkgroup: u32| #[trigger]
            in_slot(all, slot, n).contains(talkgroup) <==> exists|i: int|
                0 <= i < n && #[trigger] all[i] == (StaticTalkgroup { talkgroup, slot }),
    decreases n,
{
    if n > 0 {
        lemma_in_slot(all, slot, n - 1);
        let before = in_slot(all, slot, n - 1);
        let after = in_slot(all, slot, n);
        assert forall|talkgroup: u32| #[trigger]
            after.contains(talkgroup) <==> exists|i: int|
                0 <= i < n && #[trigger] all[i] == (StaticTalkgroup { talkgroup, slot }) by {
            let want = StaticTalkgroup { talkgroup, slot };
            if after.contains(talkgroup) {
                let k = choose|k: int| 0 <= k < after.len() && after[k] == talkgroup;
                if k < before.len() {
                    assert(before[k] == talkgroup);
                    assert(before.contains(talkgroup));
                    let i = choose|i: int| 0 <= i < n - 1 && #[trigger] all[i] == want;
                    assert(all[i] == want);
                } else {
                    assert(all[n - 1] == want);
                }
            }
            if exists|i: int| 0 <= i < n && #[trigger] all[i] == want {
                let i = choose|i: int| 0 <= i < n && #[trigger] all[i] == want;
                if i < n - 1 {
                    assert(before.contains(talkgroup));
                    let k = choose|k: int| 0 <= k < before.len() && before[k] == talkgroup;
                    assert(after[k] == talkgroup);
                } else {
                    assert(after.last() == talkgroup);
                }
            }
        }
    }
}

proof fn lemma_not_in(list: Seq<u32>, other: Seq<u32>, n: int)
    requires
        0 <= n <= list.len(),
    ensures
        forall|x: u32| #[trigger]
            not_in(list, other, n).contains(x) <==> !other.contains(x) && exists|i: int|
                0 <= i < n && #[trigger] list[i] == x,
    decreases n,
{
    if n > 0 {
        lemma_not_in(list, other, n - 1);
        let before = not_in(list, other, n - 1);
        let after = not_in(list, other, n);
        assert forall|x: u32| #[trigger]
            after.contains(x) <==> !other.contains(x) && exists|i: int|
                0 <= i < n && #[trigger] list[i] == x by {
            if after.contains(x) {
                let k = choose|k: int| 0 <= k < after.len() && after[k] == x;
                if k < before.len() {
                    assert(before[k] == x);
                    assert(before.contains(x));
                    let i = choose|i: int| 0 <= i < n - 1 && #[trigger] list[i] == x;
                    assert(list[i] == x);
                } else {
                    assert(list[n - 1] == x);
                }
            }
            if !other.contains(x) && exists|i: int| 0 <= i < n && #[trigger] list[i] == x {
                let i = choose|i: int| 0 <= i < n && #[trigger] list[i] == x;
                if i < n - 1 {
                    assert(before.contains(x));
                    let k = choose|k: int| 0 <= k < before.len() && before[k] == x;
                    assert(after[k] == x);
                } else {
                    assert(after.last() == x);
                }
            }
        }
    }
}

/// Changes of which the first `split` are removals and the rest are
/// additions.
proof fn lemma_applied(start: Set<StaticTalkgroup>, changes: Seq<Change>, split: int, n: int)
    requires
        0 <= split <= changes.len(),
        0 <= n <= changes.len(),
        forall|i: int| 0 <= i < split ==> #[trigger] changes[i] is Remove,
        forall|i: int| split <= i < changes.len() ==> #[trigger] changes[i] is Insert,
    ensures
        forall|t: StaticTalkgroup| #[trigger]
            applied(start, changes, n).contains(t) <==> {
                ||| exists|i: int| split <= i < n && #[trigger] changes[i] == Change::Insert(t)
                ||| start.contains(t) && !exists|i: int|
                    0 <= i < split && i < n && #[trigger] changes[i] == Change::Remove(t)
            },
    decreases n,
{
    if n > 0 {
        lemma_applied(start, changes, split, n - 1);
        assert forall|t: StaticTalkgroup| #[trigger]
            applied(start, changes, n).contains(t) <==> {
                ||| exists|i: int| split <= i < n && #[trigger] changes[i] == Change::Insert(t)
                ||| start.contains(t) && !exists|i: int|
                    0 <= i < split && i < n && #[trigger] changes[i] == Change::Remove(t)
            } by {
            let was = applied(start, changes, n - 1).contains(t);
            match changes[n - 1] {
                Change::Remove(x) => {
                    if x == t {
                        assert(changes[n - 1] == Change::Remove(t));
                    }
                },
                Change::Insert(x) => {
                    if x == t {
                        assert(changes[n - 1] == Change::Insert(t));
                    }
                },
            }
        }
    }
}

/// Law: when all changes for a slot are made, the slot carries exactly the
/// desired talkgroups and the other subscriptions are as they were.
pub proof fn law_slot_reconciled(
    slot: u8,
    desired: Seq<u32>,
    all: Seq<StaticTalkgroup>,
    t: StaticTalkgroup,
)
    ensures
        ({
            let changes = slot_changes(slot, desired, all);
            let after = applied(all.to_set(), changes, changes.len() as int);
            after.contains(t) <==> if t.slot == slot {
                desired.contains(t.talkgroup)
            } else {
                all.contains(t)
            }
        }),
{
    let changes = slot_changes(slot, desired, all);
    let gone = removals(slot, desired, all);
    let added = additions(slot, desired, all);
    let current = in_slot(all, slot, all.len() as int);
    let split = gone.len() as int;
    lemma_in_slot(all, slot, all.len() as int);
    lemma_not_in(desired, current, desired.len() as int);
    lemma_not_in(current, desired, current.len() as int);
    assert forall|i: int| 0 <= i < split implies #[trigger] changes[i] == Change::Remove(
        StaticTalkgroup { talkgroup: gone[i], slot },
    ) by {}
    assert forall|i: int| split <= i < changes.len() implies #[trigger] changes[i]
        == Change::Insert(StaticTalkgroup { talkgroup: added[i - split], slot }) by {}
    lemma_applied(all.to_set(), changes, split, changes.len() as int);
    let want = StaticTalkgroup { talkgroup: t.talkgroup, slot };
    let inserted = exists|i: int|
        split <= i < changes.len() && #[trigger] changes[i] == Change::Insert(t);
    let removed = exists|i: int|
        0 <= i < split && i < changes.len() && #[trigger] changes[i] == Change::Remove(t);
    if t.slot == slot {
        assert(t == want);
        if inserted {
            let i = choose|i: int|
                split <= i < changes.len() && #[trigger] changes[i] == Change::Insert(t);
            assert(added[i - split] == t.talkgroup);
            assert(added.contains(t.talkgroup));
        }
        if added.contains(t.talkgroup) {
            let k = choose|k: int| 0 <= k < added.len() && added[k] == t.talkgroup;
            assert(changes[split + k] == Change::Insert(t));
        }
        if removed {
            let i = choose|i: int|
                0 <= i < split && i < changes.len() && #[trigger] changes[i] == Change::Remove(t);
            assert(gone[i] == t.talkgroup);
            assert(gone.contains(t.talkgroup));
        }
        if gone.contains(t.talkgroup) {
            let k = choose|k: int| 0 <= k < gone.len() && gone[k] == t.talkgroup;
            assert(changes[k] == Change::Remove(t));
        }
        if all.contains(t) {
            let k = choose|k: int| 0 <= k < all.len() && all[k] == t;
            assert(all[k] == want);
            assert(current.contains(t.talkgroup));
            let m = choose|m: int| 0 <= m < current.len() && current[m] == t.talkgroup;
            assert(current[m] == t.talkgroup);
        }
        if current.contains(t.talkgroup) {
            let k = choose|k: int| 0 <= k < all.len() && #[trigger] all[k] == want;
            assert(all.contains(t));
        }
        if desired.contains(t.talkgroup) {
            let k = choose|k: int| 0 <= k < desired.len() && desired[k] == t.talkgroup;
            assert(desired[k] == t.talkgroup);
        }
    }
}

/// Law: no change touches a slot for which nothing is configured.
pub proof fn law_other_slot_untouched(
    ts1: Option<Vec<u32>>,
    ts2: Option<Vec<u32>>,
    all: Seq<StaticTalkgroup>,
    i: int,
)
    requires
        0 <= i < all_changes(ts1, ts2, all).len(),
    ensures
        ({
            let slot = match all_changes(ts1, ts2, all)[i] {
                Change::Remove(t) => t.slot,
                Change::Insert(t) => t.slot,
            };
            (slot == 1 && ts1 is Some) || (slot == 2 && ts2 is Some)
        }),
{
    let first = match ts1 {
        Some(desired) => slot_changes(1, desired@, all),
        None => seq![],
    };
    if i < first.len() {
        assert(all_changes(ts1, ts2, all)[i] == first[i]);
    }
}

/// Law: every removal of a slot comes before its additions.
pub proof fn law_removals_first(
    slot: u8,
    desired: Seq<u32>,
    all: Seq<StaticTalkgroup>,
    i: int,
    j: int,
)
    requires
        0 <= i < slot_changes(slot, desired, all).len(),
        0 <= j < slot_changes(slot, desired, all).len(),
        slot_changes(slot, desired, all)[i] is Remove,
        slot_changes(slot, desired, all)[j] is Insert,
    ensures
        i < j,
{
}

/// Changes that touch other slots only leave a subscription as it is.
proof fn lemma_applied_elsewhere(
    start: Set<StaticTalkgroup>,
    changes: Seq<Change>,
    n: int,
    t: StaticTalkgroup,
)
    requires
        0 <= n <= changes.len(),
        forall|i: int|
            0 <= i < n ==> match #[trigger] changes[i] {
                Change::Remove(x) => x.slot != t.slot,
                Change::Insert(x) => x.slot != t.slot,
            },
    ensures
        applied(start, changes, n).contains(t) == start.contains(t),
    decreases n,
{
    if n > 0 {
        lemma_applied_elsewhere(start, changes, n - 1, t);
        assert(changes[n - 1] is Remove || changes[n - 1] is Insert);
    }
}

/// Changes made in two parts.
proof fn lemma_applied_parts(
    start: Set<StaticTalkgroup>,
    a: Seq<Change>,
    b: Seq<Change>,
    n: int,
)
    requires
        0 <= n <= b.len(),
    ensures
        applied(start, a + b, a.len() + n) == applied(applied(start, a, a.len() as int), b, n),
    decreases n,
{
    if n > 0 {
        lemma_applied_parts(start, a, b, n - 1);
        assert((a + b)[a.len() + n - 1] == b[n - 1]);
    } else {
        lemma_applied_prefix(start, a, b, a.len() as int);
    }
}

proof fn lemma_applied_prefix(start: Set<StaticTalkgroup>, a: Seq<Change>, b: Seq<Change>, n: int)
    requires
        0 <= n <= a.len(),
    ensures
        applied(start, a + b, n) == applied(start, a, n),
    decreases n,
{
    if n > 0 {
        lemma_applied_prefix(start, a, b, n - 1);
        assert((a + b)[n - 1] == a[n - 1]);
    }
}

/// What changes do to a subscription depends on whether it is there before.
proof fn lemma_applied_local(
    s: Set<StaticTalkgroup>,
    r: Set<StaticTalkgroup>,
    changes: Seq<Change>,
    n: int,
    t: StaticTalkgroup,
)
    requires
        0 <= n <= changes.len(),
        s.contains(t) == r.contains(t),
    ensures
        applied(s, changes, n).contains(t) == applied(r, changes, n).contains(t),
    decreases n,
{
    if n > 0 {
        lemma_applied_local(s, r, changes, n - 1, t);
    }
}

/// Law: when all changes are made to the subscriptions, one after the other,
/// each slot with a configured list carries exactly the talkgroups of that list,
/// and every other subscription is there if it was there before.
pub proof fn law_statics_reconciled(
    ts1: Option<Vec<u32>>,
    ts2: Option<Vec<u32>>,
    all: Seq<StaticTalkgroup>,
    steps: Seq<Set<StaticTalkgroup>>,
    t: StaticTalkgroup,
)
    requires
        steps.len() == all_changes(ts1, ts2, all).len() + 1,
        steps[0] == all.to_set(),
        forall|i: int|
            0 <= i < steps.len() - 1 ==> #[trigger] steps[i + 1] == match all_changes(ts1, ts2, all)[i] {
                Change::Remove(x) => steps[i].remove(x),
                Change::Insert(x) => steps[i].insert(x),
            },
    ensures
        steps.last().contains(t) <==> if t.slot == 1 && ts1 is Some {
            ts1->0@.contains(t.talkgroup)
        } else if t.slot == 2 && ts2 is Some {
            ts2->0@.contains(t.talkgroup)
        } else {
            all.contains(t)
        },
{
    let changes = all_changes(ts1, ts2, all);
    lemma_steps_applied(all, changes, steps, changes.len() as int);
    let start = all.to_set();
    let first = match ts1 {
        Some(desired) => slot_changes(1, desired@, all),
        None => seq![],
    };
    let second = match ts2 {
        Some(desired) => slot_changes(2, desired@, all),
        None => seq![],
    };
    assert(changes == first + second);
    let middle = applied(start, first, first.len() as int);
    lemma_applied_parts(start, first, second, second.len() as int);
    if ts1 is Some {
        law_slot_reconciled(1, ts1->0@, all, t);
    }
    if ts2 is Some {
        law_slot_reconciled(2, ts2->0@, all, t);
    }
    if t.slot != 1 {
        lemma_applied_elsewhere(start, first, first.len() as int, t);
        lemma_applied_local(middle, start, second, second.len() as int, t);
    }
    if t.slot != 2 {
        lemma_applied_elsewhere(middle, second, second.len() as int, t);
    }
}

proof fn lemma_steps_applied(
    all: Seq<StaticTalkgroup>,
    changes: Seq<Change>,
    steps: Seq<Set<StaticTalkgroup>>,
    n: int,
)
    requires
        0 <= n <= changes.len(),
        steps.len() == changes.len() + 1,
        steps[0] == all.to_set(),
        forall|i: int|
            0 <= i < steps.len() - 1 ==> #[trigger] steps[i + 1] == match changes[i] {
                Change::Remove(x) => steps[i].remove(x),
                Change::Insert(x) => steps[i].insert(x),
            },
    ensures
        steps[n] == applied(all.to_set(), changes, n),
    decreases n,
{
    if n > 0 {
        lemma_steps_applied(all, changes, steps, n - 1);
        assert(steps[n - 1 + 1] == match changes[n - 1] {
            Change::Remove(x) => steps[n - 1].remove(x),
            Change::Insert(x) => steps[n - 1].insert(x),
        });
    }
}

/// Law: nothing is changed that need not be: a subscription is removed only from
/// a slot that carries it and is not meant to, and inserted only in one that is
/// meant to carry it and does not.
pub proof fn law_changes_needed(
    ts1: Option<Vec<u32>>,
    ts2: Option<Vec<u32>>,
    all: Seq<StaticTalkgroup>,
    i: int,
)
    requires
        0 <= i < all_changes(ts1, ts2, all).len(),
    ensures
        match all_changes(ts1, ts2, all)[i] {
            Change::Remove(t) => all.contains(t) && if t.slot == 1 {
                ts1 is Some && !ts1->0@.contains(t.talkgroup)
            } else {
                t.slot == 2 && ts2 is Some && !ts2->0@.contains(t.talkgroup)
            },
            Change::Insert(t) => !all.contains(t) && if t.slot == 1 {
                ts1 is Some && ts1->0@.contains(t.talkgroup)
            } else {
                t.slot == 2 && ts2 is Some && ts2->0@.contains(t.talkgroup)
            },
        },
{
    let first = match ts1 {
        Some(desired) => slot_changes(1, desired@, all),
        None => seq![],
    };
    let changes = all_changes(ts1, ts2, all);
    if i < first.len() {
        assert(changes[i] == first[i]);
        lemma_slot_change_needed(1, ts1->0@, all, i);
    } else {
        lemma_slot_change_needed(2, ts2->0@, all, i - first.len());
    }
}

proof fn lemma_slot_change_needed(slot: u8, desired: Seq<u32>, all: Seq<StaticTalkgroup>, i: int)
    requires
        0 <= i < slot_changes(slot, desired, all).len(),
    ensures
        match slot_changes(slot, desired, all)[i] {
            Change::Remove(t) => t.slot == slot && all.contains(t) && !desired.contains(t.talkgroup),
            Change::Insert(t) => t.slot == slot && !all.contains(t) && desired.contains(t.talkgroup),
        },
{
    let gone = removals(slot, desired, all);
    let added = additions(slot, desired, all);
    let current = in_slot(all, slot, all.len() as int);
    lemma_in_slot(all, slot, all.len() as int);
    lemma_not_in(desired, current, desired.len() as int);
    lemma_not_in(current, desired, current.len() as int);
    if i < gone.len() {
        let x = gone[i];
        assert(gone.contains(x));
        assert(current.contains(x));
        let k = choose|k: int|
            0 <= k < all.len() && #[trigger] all[k] == (StaticTalkgroup { talkgroup: x, slot });
        assert(all.contains(all[k]));
    } else {
        let x = added[i - gone.len()];
        let t = StaticTalkgroup { talkgroup: x, slot };
        assert(added.contains(x));
        let k = choose|k: int| 0 <= k < desired.len() && #[trigger] desired[k] == x;
        assert(desired.contains(x));
        if all.contains(t) {
            let m = choose|m: int| 0 <= m < all.len() && all[m] == t;
            assert(all[m] == t);
            assert(current.contains(x));
        }
    }
}

} // verus!
