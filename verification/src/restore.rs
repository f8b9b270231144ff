//! The restore protocol: reconcile a pre-index snapshot of instance
//! records against the re-indexed store.
//!
//! For each snapshot row the binary reports whether the artifact file
//! still exists and, if it had to re-run the compiler, whether that
//! build succeeded. A row whose file exists, or was rebuilt, is
//! re-inserted verbatim — usage and age included; a row whose rebuild
//! failed is dropped.

use vstd::prelude::*;

use crate::store::{insert_instance_restored, Instance, Store};

verus! {

/// What the binary observed for one snapshot row: whether the file
/// was still on disk, and whether the rebuild (run only when it was
/// not) succeeded.
pub struct RestoreEvent {
    pub file_exists: bool,
    pub build_ok: bool,
}

impl RestoreEvent {
    /// The row survives if its file exists or was rebuilt.
    pub open spec fn keeps(self) -> bool {
        self.file_exists || self.build_ok
    }
}

/// A snapshot fit for restoration into a store with age counter
/// `next_age`: paths unique, ages distinct and below the counter,
/// usage counts non-negative.
pub open spec fn snapshot_wf(s: Seq<Instance>, next_age: int) -> bool {
    &&& forall|i: int, j: int|
        0 <= i < j < s.len() ==> (#[trigger] s[i]).path@ != (#[trigger] s[j]).path@
    &&& forall|i: int, j: int| 0 <= i < j < s.len() ==> (#[trigger] s[i]).age != (#[trigger] s[j]).age
    &&& forall|i: int| 0 <= i < s.len() ==> 0 <= (#[trigger] s[i]).age < next_age
    &&& forall|i: int| 0 <= i < s.len() ==> (#[trigger] s[i]).usage >= 0
}

/// The snapshot rows that survive their events, in snapshot order.
pub open spec fn spec_restore_kept(snapshot: Seq<Instance>, events: Seq<RestoreEvent>) -> Seq<
    Instance,
>
    recommends
        snapshot.len() == events.len(),
    decreases snapshot.len(),
{
    if snapshot.len() == 0 {
        Seq::empty()
    } else {
        let r = spec_restore_kept(snapshot.drop_last(), events.drop_last());
        if events.len() > 0 && events.last().keeps() {
            r.push(snapshot.last())
        } else {
            r
        }
    }
}

/// Restoration of an unchanged tree is exact: when every row's file
/// exists or rebuild succeeds, the surviving records are the snapshot
/// itself.
pub proof fn lemma_restore_unchanged_tree(snapshot: Seq<Instance>, events: Seq<RestoreEvent>)
    requires
        snapshot.len() == events.len(),
        forall|i: int| 0 <= i < events.len() ==> (#[trigger] events[i]).keeps(),
    ensures
        spec_restore_kept(snapshot, events) == snapshot,
    decreases snapshot.len(),
{
    if snapshot.len() > 0 {
        lemma_restore_unchanged_tree(snapshot.drop_last(), events.drop_last());
        assert(spec_restore_kept(snapshot, events) =~= snapshot);
    } else {
        assert(spec_restore_kept(snapshot, events) =~= snapshot);
    }
}

/// Replay a snapshot against the freshly indexed store: each row whose
/// event keeps it is re-inserted verbatim, in snapshot order.
pub fn restore(store: &mut Store, snapshot: &Vec<Instance>, events: &Vec<RestoreEvent>)
    requires
        old(store).inv(),
        old(store).instances@.len() == 0,
        events@.len() == snapshot@.len(),
        snapshot_wf(snapshot@, old(store).next_age as int),
    ensures
        final(store).inv(),
        final(store).instances@ == spec_restore_kept(snapshot@, events@),
        final(store).models == old(store).models,
        final(store).parts == old(store).parts,
        final(store).parameters == old(store).parameters,
        final(store).next_age == old(store).next_age,
{
    let ghost snap = snapshot@;
    let ghost evs = events@;
    let mut i: usize = 0;
    while i < snapshot.len()
        invariant
            i <= snap.len(),
            snapshot@ == snap,
            events@ == evs,
            evs.len() == snap.len(),
            snapshot_wf(snap, old(store).next_age as int),
            store.inv(),
            store.instances@ == spec_restore_kept(snap.take(i as int), evs.take(i as int)),
            store.models == old(store).models,
            store.parts == old(store).parts,
            store.parameters == old(store).parameters,
            store.next_age == old(store).next_age,
            forall|a: int|
                0 <= a < store.instances@.len() ==> exists|x: int|
                    0 <= x < i && (#[trigger] store.instances@[a]) == snap[x],
        decreases snap.len() - i,
    {
        proof {
            assert(snap.take((i + 1) as int).drop_last() =~= snap.take(i as int));
            assert(evs.take((i + 1) as int).drop_last() =~= evs.take(i as int));
            assert(snap.take((i + 1) as int).last() == snap[i as int]);
            assert(evs.take((i + 1) as int).last() == evs[i as int]);
        }
        let keep = events[i].file_exists || events[i].build_ok;
        if keep {
            let row = snapshot[i].duplicate();
            proof {
                assert(!store.spec_contains_path(row.path@)) by {
                    if store.spec_contains_path(row.path@) {
                        let a = choose|a: int|
                            0 <= a < store.instances@.len() && (
                            #[trigger] store.instances@[a]).path@ == row.path@;
                        let x = choose|x: int|
                            0 <= x < i && (#[trigger] store.instances@[a]) == snap[x];
                        assert(snap[x].path@ == snap[i as int].path@);
                    }
                }
                assert forall|a: int|
                    0 <= a < store.instances@.len() implies (#[trigger] store.instances@[a]).age
                    != row.age by {
                    let x = choose|x: int|
                        0 <= x < i && (#[trigger] store.instances@[a]) == snap[x];
                    assert(snap[x].age != snap[i as int].age);
                }
            }
            insert_instance_restored(store, row);
        }
        i = i + 1;
    }
    proof {
        assert(snap.take(snap.len() as int) =~= snap);
        assert(evs.take(evs.len() as int) =~= evs);
    }
}

} // verus!
