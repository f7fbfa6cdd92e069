//! In-memory UI context: the active workset and, per workset, the
//! workspace last used. The surrounding application loads this from disk at
//! startup and persists it after each mutation.

use vstd::prelude::*;
use crate::error::ErrorEnvelope;

verus! {

/// No two entries share a workset key.
pub open spec fn distinct_keys(s: Seq<(String, String)>) -> bool {
    forall|i: int, k: int| 0 <= i < s.len() && 0 <= k < s.len() && i != k ==> s[i].0@ != s[k].0@
}

/// Some entry carries this workset key.
pub open spec fn has_key(s: Seq<(String, String)>, key: Seq<char>) -> bool {
    exists|i: int| 0 <= i < s.len() && (#[trigger] s[i]).0@ == key
}

pub struct UiContextStore {
    active_workset_id: Option<String>,
    last_workspace_per_workset: Vec<(String, String)>,
}

impl UiContextStore {
    /// The active workset identifier's content, if one is set.
    pub closed spec fn active(&self) -> Option<Seq<char>> {
        match self.active_workset_id {
            Some(s) => Some(s@),
            None => None,
        }
    }

    pub closed spec fn entries(&self) -> Seq<(String, String)> {
        self.last_workspace_per_workset@
    }

    pub open spec fn wf(&self) -> bool {
        distinct_keys(self.entries())
    }

    /// The index of the entry with this workset key.
    pub open spec fn key_index(&self, key: Seq<char>) -> int {
        choose|i: int| 0 <= i < self.entries().len() && (#[trigger] self.entries()[i]).0@ == key
    }

    pub open spec fn spec_has_key(&self, key: Seq<char>) -> bool {
        has_key(self.entries(), key)
    }

    /// The workspace recorded for this workset key (meaningful only when
    /// `spec_has_key` holds; unique by the store invariant).
    pub open spec fn workspace_for(&self, key: Seq<char>) -> Seq<char> {
        self.entries()[self.key_index(key)].1@
    }

    pub fn new() -> (r: UiContextStore)
        ensures
            r.wf(),
            r.active() is None,
            r.entries().len() == 0,
    {
        UiContextStore { active_workset_id: None, last_workspace_per_workset: Vec::new() }
    }

    /// Build the store from loaded data. An entry whose key was already
    /// seen is dropped, so the store invariant holds whatever the file
    /// held; a list with distinct keys is taken whole, in order.
    pub fn from_parts(active_workset_id: Option<String>, entries: Vec<(String, String)>) -> (r:
        UiContextStore)
        ensures
            r.wf(),
            r.active() == (match active_workset_id {
                Some(s) => Some(s@),
                None => None::<Seq<char>>,
            }),
            distinct_keys(entries@) ==> r.entries() == entries@,
    {
        let ghost orig = entries@;
        let mut kept: Vec<(String, String)> = Vec::new();
        let mut rest = entries;
        while rest.len() > 0
            invariant
                rest@.len() <= orig.len(),
                rest@ == orig.skip(orig.len() - rest@.len()),
                distinct_keys(kept@),
                distinct_keys(orig.take(orig.len() - rest@.len())) ==> kept@ == orig.take(
                    orig.len() - rest@.len(),
                ),
            decreases rest@.len(),
        {
            let ghost j = orig.len() - rest@.len();
            let p = rest.remove(0);
            proof {
                assert(p == orig[j]);
                assert(rest@ =~= orig.skip(j + 1));
            }
            let ghost pre = kept@;
            if !contains_key(&kept, p.0.as_str()) {
                kept.push(p);
                proof {
                    let m = kept@.len() as int;
                    assert forall|a: int, b: int|
                        0 <= a < m && 0 <= b < m && a != b implies kept@[a].0@ != kept@[b].0@ by {
                        if a < m - 1 && b < m - 1 {
                            assert(kept@[a] == pre[a]);
                            assert(kept@[b] == pre[b]);
                        } else if a == m - 1 {
                            assert(kept@[b] == pre[b]);
                        } else {
                            assert(kept@[a] == pre[a]);
                        }
                    }
                }
            }
            proof {
                if distinct_keys(orig.take(j + 1)) {
                    let t1 = orig.take(j + 1);
                    let t0 = orig.take(j);
                    assert(distinct_keys(t0)) by {
                        assert forall|a: int, b: int|
                            0 <= a < t0.len() && 0 <= b < t0.len() && a != b implies t0[a].0@
                            != t0[b].0@ by {
                            assert(t0[a] == t1[a] && t0[b] == t1[b]);
                        }
                    }
                    if pre == t0 {
                        assert(!has_key(pre, p.0@)) by {
                            if has_key(pre, p.0@) {
                                let w = choose|w: int|
                                    0 <= w < pre.len() && (#[trigger] pre[w]).0@ == p.0@;
                                assert(t1[w] == pre[w]);
                                assert(t1[j] == orig[j]);
                                assert(t1[w].0@ != t1[j].0@);
                            }
                        }
                        assert(kept@ =~= t1);
                    }
                }
            }
        }
        proof {
            assert(orig.take(orig.len() as int) =~= orig);
        }
        UiContextStore { active_workset_id, last_workspace_per_workset: kept }
    }

    pub fn active_workset_id(&self) -> (r: Option<&str>)
        ensures
            match r {
                Some(s) => self.active() matches Some(a) && s@ == a,
                None => self.active() is None,
            },
    {
        match &self.active_workset_id {
            Some(s) => Some(s.as_str()),
            None => None,
        }
    }

    pub fn last_workspace_for(&self, workset_id: &str) -> (r: Option<&str>)
        requires
            self.wf(),
        ensures
            match r {
                Some(s) => self.spec_has_key(workset_id@) && s@ == self.workspace_for(workset_id@),
                None => !self.spec_has_key(workset_id@),
            },
    {
        let key = workset_id.to_owned();
        let n = self.last_workspace_per_workset.len();
        let mut i: usize = 0;
        while i < n
            invariant
                i <= n,
                n == self.entries().len(),
                self.wf(),
                key@ == workset_id@,
                forall|j: int| 0 <= j < i ==> (#[trigger] self.entries()[j]).0@ != workset_id@,
            decreases n - i,
        {
            if self.last_workspace_per_workset[i].0 == key {
                proof {
                    self.lemma_key_index_unique(workset_id@, i as int);
                }
                return Some(self.last_workspace_per_workset[i].1.as_str());
            }
            i = i + 1;
        }
        None
    }

    /// With distinct keys, any matching index is the chosen one.
    proof fn lemma_key_index_unique(&self, key: Seq<char>, i: int)
        requires
            self.wf(),
            0 <= i < self.entries().len(),
            self.entries()[i].0@ == key,
        ensures
            self.key_index(key) == i,
            self.spec_has_key(key),
    {
        assert(self.spec_has_key(key));
        let wi = self.key_index(key);
        if wi != i {
            assert(self.entries()[wi].0@ != self.entries()[i].0@);
        }
    }

    /// Make this workset the active one. The surrounding application
    /// persists the store afterwards; the record itself cannot fail.
    pub fn set_active_workset(&mut self, workset_id: &str) -> (r: Result<(), ErrorEnvelope>)
        ensures
            r is Ok,
            final(self).active() matches Some(a) && a == workset_id@,
            final(self).entries() == old(self).entries(),
    {
        self.active_workset_id = Some(workset_id.to_owned());
        Ok(())
    }

    /// Record the workspace last used within a workset, replacing any
    /// earlier record for the same workset. The surrounding application
    /// persists the store afterwards; the record itself cannot fail.
    pub fn set_active_workspace(&mut self, workset_id: &str, workspace_name: &str) -> (r: Result<
        (),
        ErrorEnvelope,
    >)
        requires
            old(self).wf(),
        ensures
            r is Ok,
            final(self).wf(),
            final(self).active() == old(self).active(),
            final(self).spec_has_key(workset_id@),
            final(self).workspace_for(workset_id@) == workspace_name@,
            forall|o: Seq<char>|
                o != workset_id@ ==> (#[trigger] final(self).spec_has_key(o) <==> old(
                    self,
                ).spec_has_key(o)),
            forall|o: Seq<char>|
                o != workset_id@ && old(self).spec_has_key(o) ==> final(self).workspace_for(o)
                    == old(self).workspace_for(o),
    {
        let key = workset_id.to_owned();
        let n = self.last_workspace_per_workset.len();
        let mut i: usize = 0;
        while i < n
            invariant
                i <= n,
                n == self.entries().len(),
                *self == *old(self),
                old(self).wf(),
                key@ == workset_id@,
                forall|j: int| 0 <= j < i ==> (#[trigger] self.entries()[j]).0@ != workset_id@,
            decreases n - i,
        {
            if self.last_workspace_per_workset[i].0 == key {
                proof {
                    self.lemma_key_index_unique(workset_id@, i as int);
                }
                self.last_workspace_per_workset[i].1 = workspace_name.to_owned();
                proof {
                    let e1 = self.last_workspace_per_workset@[i as int];
                    assert(e1.0@ == workset_id@);
                    assert(self.last_workspace_per_workset@ =~= old(
                        self,
                    ).last_workspace_per_workset@.update(i as int, e1));
                    assert forall|a: int, b: int|
                        0 <= a < self.entries().len() && 0 <= b < self.entries().len() && a
                            != b implies self.entries()[a].0@ != self.entries()[b].0@ by {
                        assert(self.entries()[a] == if a == i as int {
                            e1
                        } else {
                            old(self).entries()[a]
                        });
                        assert(self.entries()[b] == if b == i as int {
                            e1
                        } else {
                            old(self).entries()[b]
                        });
                    }
                    self.lemma_key_index_unique(workset_id@, i as int);
                    assert forall|o: Seq<char>|
                        o != workset_id@ implies (#[trigger] self.spec_has_key(o) <==> old(
                        self,
                    ).spec_has_key(o)) by {
                        if self.spec_has_key(o) {
                            let j = choose|j: int|
                                0 <= j < self.entries().len() && (#[trigger] self.entries()[j]).0@
                                    == o;
                            assert(j != i as int);
                            assert(old(self).entries()[j] == self.entries()[j]);
                            assert(old(self).spec_has_key(o));
                        }
                        if old(self).spec_has_key(o) {
                            let j = choose|j: int|
                                0 <= j < old(self).entries().len() && (#[trigger] old(
                                    self,
                                ).entries()[j]).0@ == o;
                            assert(j != i as int);
                            assert(self.entries()[j] == old(self).entries()[j]);
                            assert(self.spec_has_key(o));
                        }
                    }
                    assert forall|o: Seq<char>|
                        o != workset_id@ && old(self).spec_has_key(o) implies self.workspace_for(o)
                        == old(self).workspace_for(o) by {
                        let j0 = old(self).key_index(o);
                        assert(0 <= j0 < old(self).entries().len() && old(self).entries()[j0].0@
                            == o);
                        assert(j0 != i as int);
                        assert(self.entries()[j0] == old(self).entries()[j0]);
                        self.lemma_key_index_unique(o, j0);
                    }
                }
                return Ok(());
            }
            i = i + 1;
        }
        self.last_workspace_per_workset.push((key, workspace_name.to_owned()));
        proof {
            let m = self.entries().len() as int;
            assert(self.entries()[m - 1].0@ == workset_id@);
            assert forall|a: int, b: int|
                0 <= a < m && 0 <= b < m && a != b implies self.entries()[a].0@
                != self.entries()[b].0@ by {
                if a < m - 1 && b < m - 1 {
                    assert(self.entries()[a] == old(self).entries()[a]);
                    assert(self.entries()[b] == old(self).entries()[b]);
                } else if a == m - 1 {
                    assert(self.entries()[b] == old(self).entries()[b]);
                } else {
                    assert(self.entries()[a] == old(self).entries()[a]);
                }
            }
            self.lemma_key_index_unique(workset_id@, m - 1);
            assert forall|o: Seq<char>|
                o != workset_id@ implies (#[trigger] self.spec_has_key(o) <==> old(
                self,
            ).spec_has_key(o)) by {
                if self.spec_has_key(o) {
                    let j = choose|j: int|
                        0 <= j < self.entries().len() && (#[trigger] self.entries()[j]).0@ == o;
                    assert(j < m - 1);
                    assert(old(self).entries()[j] == self.entries()[j]);
                    assert(old(self).spec_has_key(o));
                }
                if old(self).spec_has_key(o) {
                    let j = choose|j: int|
                        0 <= j < old(self).entries().len() && (#[trigger] old(
                            self,
                        ).entries()[j]).0@ == o;
                    assert(self.entries()[j] == old(self).entries()[j]);
                    assert(self.spec_has_key(o));
                }
            }
            assert forall|o: Seq<char>|
                o != workset_id@ && old(self).spec_has_key(o) implies self.workspace_for(o) == old(
                self,
            ).workspace_for(o) by {
                let j = choose|j: int|
                    0 <= j < old(self).entries().len() && (#[trigger] old(self).entries()[j]).0@
                        == o;
                assert(self.entries()[j] == old(self).entries()[j]);
                self.lemma_key_index_unique(o, j);
                old(self).lemma_key_index_unique(o, j);
            }
        }
        Ok(())
    }

}

/// Whether some entry carries this workset key.
fn contains_key(v: &Vec<(String, String)>, key: &str) -> (r: bool)
    ensures
        r == has_key(v@, key@),
{
    let k = key.to_owned();
    let n = v.len();
    let mut i: usize = 0;
    while i < n
        invariant
            i <= n,
            n == v@.len(),
            k@ == key@,
            forall|j: int| 0 <= j < i ==> (#[trigger] v@[j]).0@ != key@,
        decreases n - i,
    {
        if v[i].0 == k {
            return true;
        }
        i = i + 1;
    }
    false
}

} // verus!
