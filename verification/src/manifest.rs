//! The manifest: the persisted map from mod id to its installed record,
//! kept as a vector of records strictly sorted by id, together with the
//! secret-store chunk count that is persisted alongside it.

use vstd::prelude::*;

verus! {

/// One installed mod: its id, the update timestamp it was installed at
/// (epoch seconds), and the top-level filesystem entry (as bytes) that
/// extracting its archive created.
pub struct InstalledMod {
    pub mod_id: u32,
    pub date_updated: u64,
    pub folder: Vec<u8>,
}

/// Mathematical model of one record: `(mod_id, date_updated, folder)`.
pub type ModEntry = (u32, u64, Seq<u8>);

impl InstalledMod {
    /// The record as a plain triple.
    pub open spec fn model(self) -> ModEntry {
        (self.mod_id, self.date_updated, self.folder@)
    }
}

/// The records of a sequence as plain triples.
pub open spec fn models(s: Seq<InstalledMod>) -> Seq<ModEntry> {
    s.map_values(|r: InstalledMod| r.model())
}

/// Some record in `s` carries id `id`.
pub open spec fn has_id(s: Seq<InstalledMod>, id: u32) -> bool {
    exists|i: int| 0 <= i < s.len() && s[i].mod_id == id
}

/// The index of the record with id `id` (meaningful when ids are unique).
pub open spec fn idx_of(s: Seq<InstalledMod>, id: u32) -> int {
    choose|i: int| 0 <= i < s.len() && s[i].mod_id == id
}

/// What the manifest maps `id` to: the timestamp and folder of the record
/// with that id, or `None` when no record carries it.
pub open spec fn spec_get(s: Seq<InstalledMod>, id: u32) -> Option<(u64, Seq<u8>)> {
    if has_id(s, id) {
        Some((s[idx_of(s, id)].date_updated, s[idx_of(s, id)].folder@))
    } else {
        None
    }
}

/// No two records carry the same id.
pub open spec fn unique_ids(s: Seq<InstalledMod>) -> bool {
    forall|i: int, j: int| 0 <= i < j < s.len() ==> s[i].mod_id != s[j].mod_id
}

/// Records are strictly sorted by id.
pub open spec fn sorted_by_id(s: Seq<InstalledMod>) -> bool {
    forall|i: int, j: int| 0 <= i < j < s.len() ==> s[i].mod_id < s[j].mod_id
}

/// The persisted map of installed-mod records, one per mod id, plus the
/// number of secret-store chunks the split authentication token occupies.
pub struct Manifest {
    pub secret_chunk_count: u8,
    pub records: Vec<InstalledMod>,
}

impl Manifest {
    /// Well-formedness: records strictly sorted by id, hence one per id.
    pub open spec fn wf(self) -> bool {
        sorted_by_id(self.records@)
    }

    /// What this manifest maps `id` to.
    pub open spec fn get_model(self, id: u32) -> Option<(u64, Seq<u8>)> {
        spec_get(self.records@, id)
    }

    /// The set of installed mod ids.
    pub open spec fn key_set(self) -> Set<u32> {
        Set::new(|id: u32| has_id(self.records@, id))
    }

    /// An empty manifest: no records, no secret chunks.
    pub fn empty() -> (m: Manifest)
        ensures
            m.wf(),
            m.secret_chunk_count == 0,
            m.records@.len() == 0,
    {
        Manifest { secret_chunk_count: 0, records: Vec::new() }
    }

    /// Index of the record for `id`, if one exists.
    pub fn find(&self, id: u32) -> (r: Option<usize>)
        requires
            self.wf(),
        ensures
            match r {
                Some(i) => i < self.records@.len() && self.records@[i as int].mod_id == id
                    && self.get_model(id)
                        == Some((self.records@[i as int].date_updated, self.records@[i as int].folder@)),
                None => !has_id(self.records@, id) && self.get_model(id) is None,
            },
    {
        proof {
            lemma_sorted_unique(self.records@);
        }
        let n = self.records.len();
        let mut i: usize = 0;
        while i < n
            invariant
                self.wf(),
                n == self.records@.len(),
                i <= n,
                forall|k: int| 0 <= k < i ==> self.records@[k].mod_id != id,
            decreases n - i,
        {
            if self.records[i].mod_id == id {
                proof {
                    lemma_idx_unique(self.records@, id, i as int);
                }
                return Some(i);
            }
            i += 1;
        }
        None
    }

    /// The timestamp recorded for `id`, if any.
    pub fn lookup_date(&self, id: u32) -> (r: Option<u64>)
        requires
            self.wf(),
        ensures
            match r {
                Some(d) => self.get_model(id) matches Some(e) && e.0 == d,
                None => self.get_model(id) is None,
            },
    {
        match self.find(id) {
            Some(i) => Some(self.records[i].date_updated),
            None => None,
        }
    }

    /// Insert a record, or overwrite the one already carrying its id.
    pub fn upsert(&mut self, rec: InstalledMod)
        requires
            old(self).wf(),
        ensures
            final(self).wf(),
            final(self).secret_chunk_count == old(self).secret_chunk_count,
            final(self).get_model(rec.mod_id) == Some((rec.date_updated, rec.folder@)),
            forall|id: u32| id != rec.mod_id
                ==> final(self).get_model(id) == old(self).get_model(id),
    {
        proof {
            lemma_sorted_unique(self.records@);
        }
        let ghost s0 = self.records@;
        let n = self.records.len();
        let mut i: usize = 0;
        while i < n && self.records[i].mod_id < rec.mod_id
            invariant
                sorted_by_id(s0),
                unique_ids(s0),
                self.records@ == s0,
                n == s0.len(),
                i <= n,
                forall|k: int| 0 <= k < i ==> s0[k].mod_id < rec.mod_id,
            decreases n - i,
        {
            i += 1;
        }
        // `i` is the first position whose id is not below `rec.mod_id`.
        if i < n && self.records[i].mod_id == rec.mod_id {
            let _ = self.records.remove(i);
            self.records.insert(i, rec);
            proof {
                assert(self.records@ =~= s0.update(i as int, rec));
                lemma_get_after_update(s0, i as int, rec);
            }
        } else {
            assert(forall|k: int| i <= k < s0.len() ==> s0[k].mod_id > rec.mod_id);
            self.records.insert(i, rec);
            proof {
                lemma_get_after_insert(s0, i as int, rec);
            }
        }
    }

    /// Delete the record for `id`, if one exists.
    pub fn remove_id(&mut self, id: u32)
        requires
            old(self).wf(),
        ensures
            final(self).wf(),
            final(self).secret_chunk_count == old(self).secret_chunk_count,
            final(self).get_model(id) is None,
            forall|other: u32| other != id
                ==> final(self).get_model(other) == old(self).get_model(other),
    {
        proof {
            lemma_sorted_unique(self.records@);
        }
        let ghost s0 = self.records@;
        match self.find(id) {
            Some(i) => {
                let _ = self.records.remove(i);
                proof {
                    lemma_get_after_remove(s0, i as int);
                }
            },
            None => {
                assert(forall|other: u32| self.get_model(other) == old(self).get_model(other));
            },
        }
    }
}

/// Strictly sorted ids are unique.
pub proof fn lemma_sorted_unique(s: Seq<InstalledMod>)
    requires
        sorted_by_id(s),
    ensures
        unique_ids(s),
{
}

/// Under unique ids, any index carrying `id` is the chosen one, which
/// pins `spec_get` to that record.
pub proof fn lemma_idx_unique(s: Seq<InstalledMod>, id: u32, i: int)
    requires
        unique_ids(s),
        0 <= i < s.len(),
        s[i].mod_id == id,
    ensures
        has_id(s, id),
        idx_of(s, id) == i,
        spec_get(s, id) == Some((s[i].date_updated, s[i].folder@)),
{
    assert(has_id(s, id));
    let j = idx_of(s, id);
    assert(0 <= j < s.len() && s[j].mod_id == id);
    if i < j {
        assert(s[i].mod_id != s[j].mod_id);
    } else if j < i {
        assert(s[j].mod_id != s[i].mod_id);
    }
}

/// Replacing the record at `p` by one with the same id rewrites that id's
/// entry and leaves every other id's entry unchanged.
proof fn lemma_get_after_update(s: Seq<InstalledMod>, p: int, rec: InstalledMod)
    requires
        sorted_by_id(s),
        0 <= p < s.len(),
        s[p].mod_id == rec.mod_id,
    ensures
        sorted_by_id(s.update(p, rec)),
        spec_get(s.update(p, rec), rec.mod_id) == Some((rec.date_updated, rec.folder@)),
        forall|id: u32| id != rec.mod_id ==> spec_get(s.update(p, rec), id) == spec_get(s, id),
{
    let t = s.update(p, rec);
    lemma_sorted_unique(s);
    assert(sorted_by_id(t));
    lemma_sorted_unique(t);
    lemma_idx_unique(t, rec.mod_id, p);
    assert forall|id: u32| id != rec.mod_id implies spec_get(t, id) == spec_get(s, id) by {
        if has_id(s, id) {
            let i = idx_of(s, id);
            assert(t[i] == s[i]);
            lemma_idx_unique(t, id, i);
        } else {
            assert forall|i: int| 0 <= i < t.len() implies t[i].mod_id != id by {
                if i != p {
                    assert(t[i] == s[i]);
                }
            }
            assert(!has_id(t, id));
        }
    }
}

/// Inserting a record between its strict neighbours keeps the records
/// sorted, maps its id to it, and leaves every other id unchanged.
proof fn lemma_get_after_insert(s: Seq<InstalledMod>, p: int, rec: InstalledMod)
    requires
        sorted_by_id(s),
        0 <= p <= s.len(),
        forall|k: int| 0 <= k < p ==> s[k].mod_id < rec.mod_id,
        forall|k: int| p <= k < s.len() ==> s[k].mod_id > rec.mod_id,
    ensures
        sorted_by_id(s.insert(p, rec)),
        spec_get(s.insert(p, rec), rec.mod_id) == Some((rec.date_updated, rec.folder@)),
        forall|id: u32| id != rec.mod_id ==> spec_get(s.insert(p, rec), id) == spec_get(s, id),
{
    let t = s.insert(p, rec);
    assert(t.len() == s.len() + 1);
    assert(forall|k: int| 0 <= k < p ==> t[k] == s[k]);
    assert(t[p] == rec);
    assert(forall|k: int| p < k < t.len() ==> t[k] == s[k - 1]);
    assert forall|i: int, j: int| 0 <= i < j < t.len() implies t[i].mod_id < t[j].mod_id by {
        if i < p && j > p {
            assert(t[i].mod_id < rec.mod_id);
            assert(t[j].mod_id > rec.mod_id);
        }
    }
    lemma_sorted_unique(s);
    lemma_sorted_unique(t);
    lemma_idx_unique(t, rec.mod_id, p);
    assert forall|id: u32| id != rec.mod_id implies spec_get(t, id) == spec_get(s, id) by {
        if has_id(s, id) {
            let i = idx_of(s, id);
            if i < p {
                assert(t[i] == s[i]);
                lemma_idx_unique(t, id, i);
            } else {
                assert(t[i + 1] == s[i]);
                lemma_idx_unique(t, id, i + 1);
            }
        } else {
            assert forall|i: int| 0 <= i < t.len() implies t[i].mod_id != id by {
                if i < p {
                    assert(t[i] == s[i]);
                } else if i > p {
                    assert(t[i] == s[i - 1]);
                }
            }
            assert(!has_id(t, id));
        }
    }
}

/// Removing the record at `p` unmaps its id and leaves every other id
/// unchanged.
proof fn lemma_get_after_remove(s: Seq<InstalledMod>, p: int)
    requires
        sorted_by_id(s),
        0 <= p < s.len(),
    ensures
        sorted_by_id(s.remove(p)),
        spec_get(s.remove(p), s[p].mod_id) is None,
        forall|id: u32| id != s[p].mod_id ==> spec_get(s.remove(p), id) == spec_get(s, id),
{
    let t = s.remove(p);
    lemma_sorted_unique(s);
    assert(forall|k: int| 0 <= k < p ==> t[k] == s[k]);
    assert(forall|k: int| p <= k < t.len() ==> t[k] == s[k + 1]);
    assert(sorted_by_id(t));
    lemma_sorted_unique(t);
    assert forall|i: int| 0 <= i < t.len() implies t[i].mod_id != s[p].mod_id by {
        if i < p {
            assert(t[i] == s[i]);
        } else {
            assert(t[i] == s[i + 1]);
        }
    }
    assert(!has_id(t, s[p].mod_id));
    assert forall|id: u32| id != s[p].mod_id implies spec_get(t, id) == spec_get(s, id) by {
        if has_id(s, id) {
            let i = idx_of(s, id);
            if i < p {
                lemma_idx_unique(t, id, i);
            } else {
                assert(i > p);
                assert(t[i - 1] == s[i]);
                lemma_idx_unique(t, id, i - 1);
            }
        } else {
            assert(!has_id(t, id));
        }
    }
}

} // verus!
