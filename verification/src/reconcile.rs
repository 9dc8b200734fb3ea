//! The reconciler: which locally installed mods are no longer
//! subscribed to.  It diffs the manifest's keys against the subscription
//! list — sorted by mod id, so membership is a binary search — and emits
//! the removal list; the caller deletes each mod's files and then its
//! manifest record.

use vstd::prelude::*;

use crate::install::Subscription;
use crate::manifest::{Manifest, has_id};

verus! {

/// Some subscription carries id `id`.
pub open spec fn subs_have_id(subs: Seq<Subscription>, id: u32) -> bool {
    exists|i: int| 0 <= i < subs.len() && subs[i].mod_id == id
}

/// Subscriptions ordered by mod id, as the repository serves them.
pub open spec fn subs_sorted(subs: Seq<Subscription>) -> bool {
    forall|i: int, j: int| 0 <= i < j < subs.len() ==> subs[i].mod_id <= subs[j].mod_id
}

/// The set of subscribed mod ids.
pub open spec fn sub_id_set(subs: Seq<Subscription>) -> Set<u32> {
    Set::new(|id: u32| subs_have_id(subs, id))
}

/// Whether `id` is subscribed, by binary search over the sorted list.
pub fn subs_contain(subs: &Vec<Subscription>, id: u32) -> (b: bool)
    requires
        subs_sorted(subs@),
    ensures
        b == subs_have_id(subs@, id),
{
    let mut lo: usize = 0;
    let mut hi: usize = subs.len();
    while lo < hi
        invariant
            subs_sorted(subs@),
            lo <= hi <= subs@.len(),
            forall|k: int| 0 <= k < lo ==> subs@[k].mod_id < id,
            forall|k: int| hi <= k < subs@.len() ==> subs@[k].mod_id >= id,
        decreases hi - lo,
    {
        let mid = lo + (hi - lo) / 2;
        if subs[mid].mod_id < id {
            lo = mid + 1;
        } else {
            hi = mid;
        }
    }
    if lo < subs.len() && subs[lo].mod_id == id {
        true
    } else {
        proof {
            assert forall|k: int| 0 <= k < subs@.len() implies subs@[k].mod_id != id by {
                if k >= lo {
                    assert(subs@[lo as int].mod_id >= id);
                }
            }
        }
        false
    }
}

/// The ids to remove: every manifest key with no subscription, in
/// ascending order, each exactly once.
pub fn removal_ids(m: &Manifest, subs: &Vec<Subscription>) -> (r: Vec<u32>)
    requires
        m.wf(),
        subs_sorted(subs@),
    ensures
        forall|k: int| 0 <= k < r@.len()
            ==> has_id(m.records@, r@[k]) && !subs_have_id(subs@, r@[k]),
        forall|id: u32| has_id(m.records@, id) && !subs_have_id(subs@, id) ==> r@.contains(id),
        forall|i: int, j: int| 0 <= i < j < r@.len() ==> r@[i] < r@[j],
{
    let n = m.records.len();
    let mut r: Vec<u32> = Vec::new();
    let mut i: usize = 0;
    while i < n
        invariant
            m.wf(),
            subs_sorted(subs@),
            n == m.records@.len(),
            i <= n,
            forall|k: int| 0 <= k < r@.len()
                ==> has_id(m.records@, r@[k]) && !subs_have_id(subs@, r@[k]),
            forall|j: int| 0 <= j < i && !subs_have_id(subs@, m.records@[j].mod_id)
                ==> r@.contains(m.records@[j].mod_id),
            forall|k: int, j: int| 0 <= k < r@.len() && i <= j < m.records@.len()
                ==> r@[k] < m.records@[j].mod_id,
            forall|k: int, l: int| 0 <= k < l < r@.len() ==> r@[k] < r@[l],
        decreases n - i,
    {
        let id = m.records[i].mod_id;
        if !subs_contain(subs, id) {
            let ghost r0 = r@;
            r.push(id);
            proof {
                assert(has_id(m.records@, id));
                assert forall|j: int|
                    0 <= j < i + 1 && !subs_have_id(subs@, m.records@[j].mod_id) implies
                    r@.contains(m.records@[j].mod_id) by {
                    if j < i {
                        assert(r0.contains(m.records@[j].mod_id));
                        let w = choose|w: int| 0 <= w < r0.len() && r0[w]
                            == m.records@[j].mod_id;
                        assert(r@[w] == m.records@[j].mod_id);
                    } else {
                        assert(r@[r@.len() - 1] == id);
                    }
                }
            }
        } else {
            proof {
                assert forall|j: int|
                    0 <= j < i + 1 && !subs_have_id(subs@, m.records@[j].mod_id) implies
                    r@.contains(m.records@[j].mod_id) by {
                }
            }
        }
        i += 1;
    }
    r
}

/// Reconciliation is set difference and intersection: the removal list
/// holds exactly the installed ids that lost their subscription, and a
/// manifest those ids were removed from keeps exactly the installed ids
/// that are still subscribed, each with its record unchanged.
pub proof fn lemma_reconciliation(
    m: Manifest,
    subs: Seq<Subscription>,
    removed: Seq<u32>,
    m2: Manifest,
)
    requires
        forall|k: int| 0 <= k < removed.len()
            ==> has_id(m.records@, removed[k]) && !subs_have_id(subs, removed[k]),
        forall|id: u32| has_id(m.records@, id) && !subs_have_id(subs, id)
            ==> removed.contains(id),
        forall|id: u32| #[trigger] m2.get_model(id) == if removed.contains(id) {
            None
        } else {
            m.get_model(id)
        },
    ensures
        removed.to_set() == m.key_set().difference(sub_id_set(subs)),
        m2.key_set() == m.key_set().intersect(sub_id_set(subs)),
        forall|id: u32| m2.key_set().contains(id)
            ==> #[trigger] m2.get_model(id) == m.get_model(id),
{
    assert(removed.to_set() =~= m.key_set().difference(sub_id_set(subs))) by {
        assert forall|id: u32| removed.to_set().contains(id) implies m.key_set().difference(
            sub_id_set(subs),
        ).contains(id) by {
            let w = choose|w: int| 0 <= w < removed.len() && removed[w] == id;
            assert(has_id(m.records@, removed[w]) && !subs_have_id(subs, removed[w]));
        }
        assert forall|id: u32| m.key_set().difference(sub_id_set(subs)).contains(id) implies
            removed.to_set().contains(id) by {
            assert(removed.contains(id));
        }
    }
    assert forall|id: u32| m2.key_set().contains(id) implies #[trigger] m2.get_model(id)
        == m.get_model(id) by {
        assert(m2.get_model(id) is Some);
    }
    assert(m2.key_set() =~= m.key_set().intersect(sub_id_set(subs))) by {
        assert forall|id: u32| m2.key_set().contains(id) implies m.key_set().intersect(
            sub_id_set(subs),
        ).contains(id) by {
            assert(m2.get_model(id) is Some);
            assert(!removed.contains(id));
            assert(m.get_model(id) is Some);
            if !subs_have_id(subs, id) {
                assert(removed.contains(id));
            }
        }
        assert forall|id: u32| m.key_set().intersect(sub_id_set(subs)).contains(id) implies
            m2.key_set().contains(id) by {
            assert(m.get_model(id) is Some);
            if removed.contains(id) {
                let w = choose|w: int| 0 <= w < removed.len() && removed[w] == id;
                assert(!subs_have_id(subs, removed[w]));
            }
            assert(m2.get_model(id) is Some);
        }
    }
}

} // verus!
