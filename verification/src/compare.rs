//! Change detection between two snapshots: which of the watched groups
//! differ.

use crate::text::texts;
use crate::snapshot::{Snapshot, SnapshotData};
use crate::timetable::{group_views, Group, GroupData};
use vstd::prelude::*;

verus! {

/// The fingerprint of the first group at or after `i` with the given name.
pub open spec fn uid_of_group(groups: Seq<GroupData>, name: Seq<char>, i: int) -> Option<
    Seq<char>,
>
    decreases groups.len() - i,
{
    if i < 0 || i >= groups.len() {
        None
    } else if groups[i].name == name {
        Some(groups[i].uid)
    } else {
        uid_of_group(groups, name, i + 1)
    }
}

/// The group of the given name differs between the two runs of groups: it
/// stands in one only, or in both with different fingerprints.
pub open spec fn changed(previous: Seq<GroupData>, new: Seq<GroupData>, name: Seq<char>) -> bool {
    uid_of_group(previous, name, 0) != uid_of_group(new, name, 0)
}

/// The names whose groups differ, in the names' order.
pub open spec fn changed_names(
    names: Seq<Seq<char>>,
    previous: Seq<GroupData>,
    new: Seq<GroupData>,
) -> Seq<Seq<char>>
    decreases names.len(),
{
    if names.len() == 0 {
        Seq::empty()
    } else {
        let head = changed_names(names.drop_last(), previous, new);
        if changed(previous, new, names.last()) {
            head.push(names.last())
        } else {
            head
        }
    }
}

/// The watched names whose groups differ between two snapshots. Without a
/// new snapshot nothing is reported; without a previous one every name is;
/// two snapshots with the same fingerprint differ in nothing.
pub open spec fn differing(
    previous: Option<SnapshotData>,
    new: Option<SnapshotData>,
    names: Seq<Seq<char>>,
) -> Seq<Seq<char>> {
    match (previous, new) {
        (Some(p), Some(n)) => if p.uid == n.uid {
            Seq::empty()
        } else {
            changed_names(names, p.groups, n.groups)
        },
        (None, Some(_)) => names,
        _ => Seq::empty(),
    }
}

/// The value of an optional snapshot.
pub open spec fn snapshot_view(s: Option<&Snapshot>) -> Option<SnapshotData> {
    match s {
        Some(x) => Some(x@),
        None => None,
    }
}

/// Between equal runs of groups no name differs.
pub proof fn lemma_same_groups_differ_in_nothing(names: Seq<Seq<char>>, groups: Seq<GroupData>)
    ensures
        changed_names(names, groups, groups) == Seq::<Seq<char>>::empty(),
    decreases names.len(),
{
    if names.len() > 0 {
        lemma_same_groups_differ_in_nothing(names.drop_last(), groups);
    }
}

/// Change detection is lopsided: with no previous snapshot every watched
/// name is reported; with no new snapshot none is; and two snapshots that
/// hold the same groups differ in nothing, whenever each was read.
pub proof fn lemma_distinct_asymmetry(s: SnapshotData, other: SnapshotData, names: Seq<Seq<char>>)
    requires
        other.groups == s.groups,
    ensures
        differing(None, Some(s), names) == names,
        differing(Some(s), None, names) == Seq::<Seq<char>>::empty(),
        differing(None, None, names) == Seq::<Seq<char>>::empty(),
        differing(Some(s), Some(other), names) == Seq::<Seq<char>>::empty(),
        differing(Some(s), Some(s), names) == Seq::<Seq<char>>::empty(),
{
    lemma_same_groups_differ_in_nothing(names, s.groups);
}

/// Every reported name is a watched name, and the report keeps their order:
/// it is never longer than the list of names.
pub proof fn lemma_changed_names_len(
    names: Seq<Seq<char>>,
    previous: Seq<GroupData>,
    new: Seq<GroupData>,
)
    ensures
        changed_names(names, previous, new).len() <= names.len(),
        forall|k: int|
            0 <= k < changed_names(names, previous, new).len() ==> names.contains(
                #[trigger] changed_names(names, previous, new)[k],
            ) && changed(previous, new, changed_names(names, previous, new)[k]),
    decreases names.len(),
{
    if names.len() > 0 {
        let head = names.drop_last();
        lemma_changed_names_len(head, previous, new);
        let out = changed_names(names, previous, new);
        assert forall|k: int| 0 <= k < out.len() implies names.contains(#[trigger] out[k])
            && changed(previous, new, out[k]) by {
            let inner = changed_names(head, previous, new);
            if k < inner.len() {
                assert(out[k] == inner[k]);
                assert(head.contains(inner[k]));
                let w = choose|w: int| 0 <= w < head.len() && head[w] == inner[k];
                assert(names[w] == inner[k]);
            } else {
                assert(out[k] == names.last());
                assert(names[names.len() - 1] == out[k]);
            }
        }
    }
}

fn find_uid<'a>(groups: &'a Vec<Group>, name: &String) -> (r: Option<&'a String>)
    ensures
        match r {
            Some(u) => uid_of_group(group_views(groups@), name@, 0) == Some(u@),
            None => uid_of_group(group_views(groups@), name@, 0).is_none(),
        },
{
    let ghost model = group_views(groups@);
    let mut i: usize = 0;
    while i < groups.len()
        invariant
            i <= groups.len(),
            model == group_views(groups@),
            uid_of_group(model, name@, 0) == uid_of_group(model, name@, i as int),
        decreases groups.len() - i,
    {
        assert(model[i as int] == groups@[i as int]@);
        if groups[i].name == *name {
            return Some(&groups[i].uid);
        }
        i = i + 1;
    }
    None
}

fn is_updated(previous: &Snapshot, new: &Snapshot, name: &String) -> (r: bool)
    ensures
        r == changed(previous@.groups, new@.groups, name@),
{
    match (find_uid(&previous.groups, name), find_uid(&new.groups, name)) {
        (Some(p), Some(n)) => !(*p == *n),
        (None, None) => false,
        _ => true,
    }
}

fn clone_names(names: &Vec<String>) -> (out: Vec<String>)
    ensures
        texts(out@) == texts(names@),
{
    let mut out: Vec<String> = Vec::new();
    let mut i: usize = 0;
    while i < names.len()
        invariant
            i <= names.len(),
            out@.len() == i,
            forall|k: int| 0 <= k < i ==> (#[trigger] out@[k])@ == names@[k]@,
        decreases names.len() - i,
    {
        out.push(names[i].clone());
        i = i + 1;
    }
    assert(texts(out@) =~= texts(names@));
    out
}

/// The watched group names whose groups differ between the previous and
/// the new snapshot.
pub fn distinct(previous: Option<&Snapshot>, new: Option<&Snapshot>, names: &Vec<String>) -> (out:
    Vec<String>)
    ensures
        texts(out@) == differing(snapshot_view(previous), snapshot_view(new), texts(names@)),
{
    let mut out: Vec<String> = Vec::new();
    assert(texts(out@) == Seq::<Seq<char>>::empty());
    let (p, n) = match (previous, new) {
        (Some(p), Some(n)) => (p, n),
        (None, Some(_)) => {
            return clone_names(names);
        },
        _ => {
            return out;
        },
    };
    if p.uid == n.uid {
        return out;
    }
    let ghost model = texts(names@);
    let mut i: usize = 0;
    assert(model.subrange(0, 0) == Seq::<Seq<char>>::empty());
    while i < names.len()
        invariant
            i <= names.len(),
            model == texts(names@),
            texts(out@) == changed_names(model.subrange(0, i as int), p@.groups, n@.groups),
        decreases names.len() - i,
    {
        proof {
            let q = model.subrange(0, i + 1);
            assert(q.drop_last() == model.subrange(0, i as int));
            assert(q.last() == names@[i as int]@);
        }
        if is_updated(p, n, &names[i]) {
            let ghost before = out@;
            out.push(names[i].clone());
            assert(texts(out@) == texts(before).push(names@[i as int]@));
        }
        i = i + 1;
    }
    assert(model.subrange(0, names.len() as int) == model);
    out
}

} // verus!
