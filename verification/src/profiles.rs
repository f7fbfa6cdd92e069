//! In-memory store of workset profiles: creation with a unique slug
//! identifier, updates, and repo / workspace membership edits. The
//! surrounding application loads the profile list from disk at startup and
//! persists it after each mutation.

use vstd::prelude::*;
use vstd::string::StringExecFns;
use vstd::string::StrSliceExecFns;
use crate::error::ErrorEnvelope;
use crate::text::clone_string_vec;
use crate::text::clone_opt_string;
use crate::text::push_char;
use crate::types::WorksetDefaults;
use crate::types::WorksetProfile;

verus! {

/// What `str::to_lowercase` returns: a function of the characters alone.
pub uninterp spec fn lower_of(s: Seq<char>) -> Seq<char>;

/// Relies on `str::to_lowercase`: the lower-case form, depending on the
/// characters alone; an empty string stays empty.
#[verifier::external_body]
fn lowercase(s: &str) -> (r: String)
    ensures
        r@ == lower_of(s@),
        s@.len() == 0 ==> r@.len() == 0,
{
    s.to_lowercase()
}

/// What `char::is_alphanumeric` returns: a function of the character alone.
pub uninterp spec fn is_alnum(c: char) -> bool;

/// Relies on `char::is_alphanumeric`: whether the character is in one of
/// the Unicode letter or number categories, a property of the character
/// alone.
#[verifier::external_body]
fn char_is_alphanumeric(c: char) -> (r: bool)
    ensures
        r == is_alnum(c),
{
    c.is_alphanumeric()
}

/// Relies on `chrono::Utc::now` and `to_rfc3339`: the current time in
/// RFC 3339 form.
#[verifier::external_body]
fn now_rfc3339() -> (r: String)
{
    chrono::Utc::now().to_rfc3339()
}

/// Each alphanumeric character kept, every other one replaced by a dash.
pub open spec fn dashified(s: Seq<char>) -> Seq<char> {
    Seq::new(s.len(), |i: int| if is_alnum(s[i]) { s[i] } else { '-' })
}

/// The sequence without its leading dashes.
pub open spec fn trim_leading(s: Seq<char>) -> Seq<char>
    decreases s.len(),
{
    if s.len() > 0 && s[0] == '-' {
        trim_leading(s.skip(1))
    } else {
        s
    }
}

/// The sequence without its trailing dashes.
pub open spec fn trim_trailing(s: Seq<char>) -> Seq<char>
    decreases s.len(),
{
    if s.len() > 0 && s[s.len() - 1] == '-' {
        trim_trailing(s.drop_last())
    } else {
        s
    }
}

/// The slug base of a display name: lower-cased, non-alphanumeric
/// characters dashed, surrounding dashes trimmed; `workset` when nothing
/// remains.
pub open spec fn slug_base(name: Seq<char>) -> Seq<char> {
    let t = trim_trailing(trim_leading(dashified(lower_of(name))));
    if t.len() == 0 {
        "workset"@
    } else {
        t
    }
}

/// The decimal digit characters of a non-negative number.
pub open spec fn dec_chars(n: int) -> Seq<char>
    recommends
        n >= 0,
    decreases n,
{
    if n < 10 {
        seq![(48 + if n >= 0 { n } else { 0 }) as u8 as char]
    } else {
        dec_chars(n / 10) + seq![(48 + n % 10) as u8 as char]
    }
}

/// A run of zero digits.
pub open spec fn zero_run(k: int) -> Seq<char>
    recommends
        k >= 0,
    decreases k,
{
    if k <= 0 {
        Seq::empty()
    } else {
        zero_run(k - 1) + seq!['0']
    }
}

/// The shapes a unique slug can take: the base itself, the base with a
/// numeric suffix, or — only when every numbered candidate in range is
/// taken — the base with a zero suffix longer than every stored identifier.
pub open spec fn slug_shape(r: Seq<char>, base: Seq<char>) -> bool {
    ||| r == base
    ||| exists|i: int| 2 <= i && r == base + seq!['-'] + dec_chars(i)
    ||| exists|k: int| k > 0 && r == base + seq!['-'] + zero_run(k)
}

/// Whether two profiles agree on every field (their vectors compared by
/// content).
pub open spec fn profile_like(a: WorksetProfile, b: WorksetProfile) -> bool {
    &&& a.id == b.id
    &&& a.name == b.name
    &&& a.repos@ == b.repos@
    &&& a.workspace_ids@ == b.workspace_ids@
    &&& a.defaults == b.defaults
    &&& a.created_at == b.created_at
    &&& a.updated_at == b.updated_at
}

/// No two profiles share an identifier.
pub open spec fn distinct_profile_ids(s: Seq<WorksetProfile>) -> bool {
    forall|i: int, k: int| 0 <= i < s.len() && 0 <= k < s.len() && i != k ==> s[i].id@ != s[k].id@
}

/// Some profile carries this identifier.
pub open spec fn has_profile_id(s: Seq<WorksetProfile>, id: Seq<char>) -> bool {
    exists|i: int| 0 <= i < s.len() && (#[trigger] s[i]).id@ == id
}

pub struct WorksetProfileStore {
    profiles: Vec<WorksetProfile>,
}

impl WorksetProfileStore {
    pub closed spec fn profiles(&self) -> Seq<WorksetProfile> {
        self.profiles@
    }

    pub open spec fn wf(&self) -> bool {
        distinct_profile_ids(self.profiles())
    }

    pub open spec fn spec_has(&self, id: Seq<char>) -> bool {
        has_profile_id(self.profiles(), id)
    }

    /// The index of the profile with this identifier.
    pub open spec fn profile_index(&self, id: Seq<char>) -> int {
        choose|i: int| 0 <= i < self.profiles().len() && (#[trigger] self.profiles()[i]).id@ == id
    }

    /// The profile with this identifier (meaningful only when `spec_has`
    /// holds; unique by the store invariant).
    pub open spec fn profile(&self, id: Seq<char>) -> WorksetProfile {
        self.profiles()[self.profile_index(id)]
    }

    pub fn new() -> (r: WorksetProfileStore)
        ensures
            r.wf(),
            r.profiles().len() == 0,
    {
        WorksetProfileStore { profiles: Vec::new() }
    }

    /// Build the store from a loaded profile list. A profile whose
    /// identifier was already seen is dropped, so the store invariant holds
    /// whatever the file held; a list with distinct identifiers is taken
    /// whole, in order.
    pub fn from_profiles(list: Vec<WorksetProfile>) -> (r: WorksetProfileStore)
        ensures
            r.wf(),
            distinct_profile_ids(list@) ==> r.profiles() == list@,
    {
        let ghost orig = list@;
        let mut store = WorksetProfileStore { profiles: Vec::new() };
        let mut rest = list;
        while rest.len() > 0
            invariant
                rest@.len() <= orig.len(),
                rest@ == orig.skip(orig.len() - rest@.len()),
                store.wf(),
                distinct_profile_ids(orig.take(orig.len() - rest@.len())) ==> store.profiles@
                    == orig.take(orig.len() - rest@.len()),
            decreases rest@.len(),
        {
            let ghost j = orig.len() - rest@.len();
            let p = rest.remove(0);
            proof {
                assert(p == orig[j]);
                assert(rest@ =~= orig.skip(j + 1));
            }
            let ghost pre = store.profiles@;
            if store.find(p.id.as_str()).is_none() {
                store.profiles.push(p);
                proof {
                    let m = store.profiles@.len() as int;
                    assert forall|a: int, b: int|
                        0 <= a < m && 0 <= b < m && a != b implies store.profiles@[a].id@
                        != store.profiles@[b].id@ by {
                        if a < m - 1 && b < m - 1 {
                            assert(store.profiles@[a] == pre[a]);
                            assert(store.profiles@[b] == pre[b]);
                        } else if a == m - 1 {
                            assert(store.profiles@[b] == pre[b]);
                        } else {
                            assert(store.profiles@[a] == pre[a]);
                        }
                    }
                }
            }
            proof {
                if distinct_profile_ids(orig.take(j + 1)) {
                    let t1 = orig.take(j + 1);
                    let t0 = orig.take(j);
                    assert(distinct_profile_ids(t0)) by {
                        assert forall|a: int, b: int|
                            0 <= a < t0.len() && 0 <= b < t0.len() && a != b implies t0[a].id@
                            != t0[b].id@ by {
                            assert(t0[a] == t1[a] && t0[b] == t1[b]);
                        }
                    }
                    if pre == t0 {
                        assert(!has_profile_id(pre, p.id@)) by {
                            if has_profile_id(pre, p.id@) {
                                let w = choose|w: int|
                                    0 <= w < pre.len() && (#[trigger] pre[w]).id@ == p.id@;
                                assert(t1[w] == pre[w]);
                                assert(t1[j] == orig[j]);
                                assert(t1[w].id@ != t1[j].id@);
                            }
                        }
                        assert(store.profiles@ =~= t1);
                    }
                }
            }
        }
        proof {
            assert(orig.take(orig.len() as int) =~= orig);
        }
        store
    }

    /// With distinct identifiers, any matching index is the chosen one.
    proof fn lemma_index_unique(&self, id: Seq<char>, i: int)
        requires
            self.wf(),
            0 <= i < self.profiles().len(),
            self.profiles()[i].id@ == id,
        ensures
            self.profile_index(id) == i,
            self.profile(id) == self.profiles()[i],
            self.spec_has(id),
    {
        assert(self.spec_has(id));
        let wi = self.profile_index(id);
        if wi != i {
            assert(self.profiles()[wi].id@ != self.profiles()[i].id@);
        }
    }

    /// Index of the profile with this identifier, if any.
    fn find(&self, id: &str) -> (r: Option<usize>)
        ensures
            match r {
                Some(i) => i < self.profiles().len() && self.profiles()[i as int].id@ == id@,
                None => !self.spec_has(id@),
            },
    {
        let key = id.to_owned();
        let n = self.profiles.len();
        let mut i: usize = 0;
        while i < n
            invariant
                i <= n,
                n == self.profiles().len(),
                key@ == id@,
                forall|j: int| 0 <= j < i ==> (#[trigger] self.profiles()[j]).id@ != id@,
            decreases n - i,
        {
            if self.profiles[i].id == key {
                return Some(i);
            }
            i = i + 1;
        }
        None
    }

    /// A unique slug identifier derived from the display name: the slug
    /// base itself when free, else the first free numbered variant, else —
    /// only when every numbered candidate in range is taken — the base
    /// with a zero suffix longer than every stored identifier. The result
    /// never ends in a dash.
    pub fn slugify_unique(&self, name: &str) -> (r: String)
        requires
            self.wf(),
        ensures
            !self.spec_has(r@),
            slug_shape(r@, slug_base(name@)),
            !self.spec_has(slug_base(name@)) ==> r@ == slug_base(name@),
            r@.len() > 0 && r@[r@.len() - 1] != '-',
    {
        let lowered = lowercase(name);
        let ghost low = lower_of(name@);
        let ln = lowered.as_str().unicode_len();
        let mut dash = String::new();
        let mut i: usize = 0;
        while i < ln
            invariant
                i <= ln,
                ln == low.len(),
                lowered@ == low,
                dash@ == dashified(low).take(i as int),
            decreases ln - i,
        {
            let c = lowered.as_str().get_char(i);
            let mapped = if char_is_alphanumeric(c) {
                c
            } else {
                '-'
            };
            push_char(&mut dash, mapped);
            proof {
                assert(dashified(low).take(i as int).push(mapped) =~= dashified(low).take(
                    i as int + 1,
                ));
            }
            i = i + 1;
        }
        proof {
            assert(dashified(low).take(ln as int) =~= dashified(low));
        }
        let ghost d = dashified(low);
        let mut start: usize = 0;
        while start < ln && dash.as_str().get_char(start) == '-'
            invariant
                start <= ln,
                ln == d.len(),
                dash@ == d,
                forall|k: int| 0 <= k < start ==> d[k] == '-',
            decreases ln - start,
        {
            start = start + 1;
        }
        let mut end: usize = ln;
        while end > start && dash.as_str().get_char(end - 1) == '-'
            invariant
                start <= end <= ln,
                ln == d.len(),
                dash@ == d,
                forall|k: int| end <= k < ln ==> d[k] == '-',
            decreases end,
        {
            end = end - 1;
        }
        proof {
            lemma_trim_leading_skip(d, start as int);
            lemma_trim_trailing_take(d.skip(start as int), end - start as int);
            assert(d.skip(start as int).take(end - start as int) =~= d.subrange(
                start as int,
                end as int,
            ));
        }
        let base: String = if end == start {
            let w = String::from_str("workset");
            proof {
                assert(trim_trailing(trim_leading(d)).len() == 0);
                reveal_strlit("workset");
                assert(w@.len() == 7);
            }
            w
        } else {
            dash.as_str().substring_char(start, end).to_owned()
        };
        proof {
            assert(base@ == slug_base(name@));
            assert(base@.len() >= 1);
            lemma_trim_trailing_no_dash(trim_leading(d));
            if trim_trailing(trim_leading(d)).len() == 0 {
                reveal_strlit("workset");
                assert(("workset"@)[6] != '-');
            }
            assert(base@[base@.len() - 1] != '-');
        }
        if self.find(base.as_str()).is_none() {
            return base;
        }
        let n = self.profiles.len();
        let bound: u64 = if (n as u64) > u64::MAX - 2 {
            u64::MAX
        } else {
            (n as u64) + 2
        };
        let mut num: u64 = 2;
        while num < bound
            invariant
                2 <= num,
                self.wf(),
                base@ == slug_base(name@),
                self.spec_has(slug_base(name@)),
            decreases bound - num,
        {
            let mut cand = base.clone();
            cand.append("-");
            append_dec(&mut cand, num);
            if self.find(cand.as_str()).is_none() {
                proof {
                    assert(cand@ == base@ + seq!['-'] + dec_chars(num as int)) by {
                        assert(base@ + "-"@ + dec_chars(num as int) =~= base@ + seq!['-']
                            + dec_chars(num as int)) by {
                            reveal_strlit("-");
                        }
                    }
                    lemma_dec_chars_props(num as int);
                    assert(cand@[cand@.len() - 1] == dec_chars(num as int)[dec_chars(
                        num as int,
                    ).len() - 1]);
                    assert(cand@[cand@.len() - 1] != '-');
                }
                return cand;
            }
            num = num + 1;
        }
        let mut ml: usize = 0;
        let mut j: usize = 0;
        let pn = self.profiles.len();
        while j < pn
            invariant
                j <= pn,
                pn == self.profiles().len(),
                self.wf(),
                forall|k: int| 0 <= k < j ==> (#[trigger] self.profiles()[k]).id@.len() <= ml,
            decreases pn - j,
        {
            let l = self.profiles[j].id.as_str().unicode_len();
            if l > ml {
                ml = l;
            }
            j = j + 1;
        }
        let mut fb = base.clone();
        push_char(&mut fb, '-');
        push_char(&mut fb, '0');
        let mut klen: usize = 1;
        proof {
            assert(zero_run(0).len() == 0) by {
                lemma_zero_run_props(0);
            }
            assert(zero_run(0) + seq!['0'] =~= seq!['0']);
            assert(fb@ =~= base@ + seq!['-'] + zero_run(1));
            lemma_zero_run_props(1);
        }
        while fb.as_str().unicode_len() <= ml
            invariant
                self.wf(),
                base@ == slug_base(name@),
                base@.len() >= 1,
                klen >= 1,
                fb@ == base@ + seq!['-'] + zero_run(klen as int),
                fb@.len() == base@.len() + 1 + klen,
            decreases ml + 1 - fb@.len(),
        {
            push_char(&mut fb, '0');
            proof {
                assert(base@ + seq!['-'] + zero_run(klen as int) + seq!['0'] =~= base@ + seq!['-']
                    + zero_run(klen as int + 1));
                lemma_zero_run_props(klen as int);
                lemma_zero_run_props(klen as int + 1);
            }
            klen = klen + 1;
        }
        proof {
            assert(fb@.len() > ml);
            assert forall|k: int| 0 <= k < self.profiles().len() implies (
            #[trigger] self.profiles()[k]).id@ != fb@ by {
                assert(self.profiles()[k].id@.len() <= ml);
            }
            assert(exists|k: int| k > 0 && fb@ == base@ + seq!['-'] + zero_run(k)) by {
                assert(klen as int > 0 && fb@ == base@ + seq!['-'] + zero_run(klen as int));
            }
            lemma_zero_run_props(klen as int);
            assert(fb@[fb@.len() - 1] == zero_run(klen as int)[klen - 1]);
            assert(fb@[fb@.len() - 1] == '0');
        }
        fb
    }

    /// Create a profile under a fresh slug identifier, with empty repo and
    /// workspace lists and equal creation and update stamps. The stored and
    /// the returned profile agree on every field.
    pub fn create(&mut self, name: &str, defaults: Option<WorksetDefaults>) -> (r: Result<
        WorksetProfile,
        ErrorEnvelope,
    >)
        requires
            old(self).wf(),
        ensures
            final(self).wf(),
            r is Ok,
            r matches Ok(p) ==> ({
                &&& p.name@ == name@
                &&& p.repos@.len() == 0
                &&& p.workspace_ids@.len() == 0
                &&& p.defaults == defaults
                &&& p.created_at == p.updated_at
                &&& !old(self).spec_has(p.id@)
                &&& slug_shape(p.id@, slug_base(name@))
                &&& (!old(self).spec_has(slug_base(name@)) ==> p.id@ == slug_base(name@))
                &&& p.id@.len() > 0 && p.id@[p.id@.len() - 1] != '-'
                &&& final(self).spec_has(p.id@)
                &&& final(self).profiles().len() == old(self).profiles().len() + 1
                &&& (forall|j: int|
                    0 <= j < old(self).profiles().len() ==> final(self).profiles()[j] == old(
                        self,
                    ).profiles()[j])
                &&& profile_like(final(self).profiles().last(), p)
            }),
    {
        let id = self.slugify_unique(name);
        let now = now_rfc3339();
        let profile = WorksetProfile {
            id,
            name: name.to_owned(),
            repos: Vec::new(),
            workspace_ids: Vec::new(),
            defaults,
            created_at: now.clone(),
            updated_at: now,
        };
        let result = clone_profile(&profile);
        proof {
            lemma_profiles_push(self.profiles@, profile);
        }
        self.profiles.push(profile);
        Ok(result)
    }

    /// Update a profile's display name and defaults, leaving out whatever
    /// was not supplied; the update stamp is renewed. Fails, with a config
    /// envelope naming the identifier, exactly when it is unknown.
    pub fn update(&mut self, id: &str, name: Option<&str>, defaults: Option<WorksetDefaults>) -> (r:
        Result<WorksetProfile, ErrorEnvelope>)
        requires
            old(self).wf(),
        ensures
            final(self).wf(),
            r is Ok <==> old(self).spec_has(id@),
            r matches Err(e) ==> *final(self) == *old(self) && e.category@ == "config"@
                && e.operation@ == "workset_profiles.update"@ && e.message@ == "Workset '"@ + id@
                + "' not found"@,
            r matches Ok(p) ==> ({
                let i = old(self).profile_index(id@);
                let p0 = old(self).profiles()[i];
                let p1 = final(self).profiles()[i];
                &&& final(self).profiles().len() == old(self).profiles().len()
                &&& (forall|j: int|
                    0 <= j < old(self).profiles().len() && j != i ==> final(self).profiles()[j]
                        == old(self).profiles()[j])
                &&& p1.id == p0.id
                &&& p1.name@ == (match name {
                    Some(n) => n@,
                    None => p0.name@,
                })
                &&& p1.defaults == (match defaults {
                    Some(d) => Some(d),
                    None => p0.defaults,
                })
                &&& p1.repos@ == p0.repos@
                &&& p1.workspace_ids@ == p0.workspace_ids@
                &&& p1.created_at == p0.created_at
                &&& profile_like(p, p1)
            }),
    {
        match self.find(id) {
            Some(i) => {
                proof {
                    self.lemma_index_unique(id@, i as int);
                }
                match name {
                    Some(n) => {
                        self.profiles[i].name = n.to_owned();
                    },
                    None => {},
                }
                match defaults {
                    Some(d) => {
                        self.profiles[i].defaults = Some(d);
                    },
                    None => {},
                }
                self.profiles[i].updated_at = now_rfc3339();
                let result = clone_profile(&self.profiles[i]);
                proof {
                    let p1 = self.profiles@[i as int];
                    assert(self.profiles@ =~= old(self).profiles@.update(i as int, p1));
                    lemma_profiles_update(old(self).profiles@, i as int, p1);
                }
                Ok(result)
            },
            None => Err(workset_not_found("workset_profiles.update", id)),
        }
    }

    /// Remove the profile with this identifier. Fails, with a config
    /// envelope naming it, exactly when it is unknown.
    pub fn delete(&mut self, id: &str) -> (r: Result<(), ErrorEnvelope>)
        requires
            old(self).wf(),
        ensures
            final(self).wf(),
            r is Ok <==> old(self).spec_has(id@),
            r matches Err(e) ==> *final(self) == *old(self) && e.category@ == "config"@
                && e.operation@ == "workset_profiles.delete"@ && e.message@ == "Workset '"@ + id@
                + "' not found"@,
            !final(self).spec_has(id@),
            r is Ok ==> final(self).profiles() == old(self).profiles().remove(
                old(self).profile_index(id@),
            ),
            forall|o: Seq<char>|
                o != id@ ==> (#[trigger] final(self).spec_exists_like(o) <==> old(
                    self,
                ).spec_exists_like(o)),
    {
        match self.find(id) {
            Some(i) => {
                proof {
                    self.lemma_index_unique(id@, i as int);
                    lemma_profiles_remove(self.profiles@, i as int);
                }
                self.profiles.remove(i);
                Ok(())
            },
            None => Err(workset_not_found("workset_profiles.delete", id)),
        }
    }

    /// `spec_has`, under a name usable as a quantified trigger.
    pub open spec fn spec_exists_like(&self, id: Seq<char>) -> bool {
        self.spec_has(id)
    }

    /// Add a repo source to a profile's list unless already present; only
    /// an actual addition renews the update stamp. Fails, with a config
    /// envelope naming the identifier, exactly when it is unknown.
    pub fn add_repo(&mut self, workset_id: &str, source: &str) -> (r: Result<
        WorksetProfile,
        ErrorEnvelope,
    >)
        requires
            old(self).wf(),
        ensures
            final(self).wf(),
            r is Ok <==> old(self).spec_has(workset_id@),
            r matches Err(e) ==> *final(self) == *old(self) && e.category@ == "config"@
                && e.operation@ == "workset_profiles.add_repo"@ && e.message@ == "Workset '"@
                + workset_id@ + "' not found"@,
            r matches Ok(p) ==> ({
                let i = old(self).profile_index(workset_id@);
                let p0 = old(self).profiles()[i];
                let p1 = final(self).profiles()[i];
                &&& final(self).profiles().len() == old(self).profiles().len()
                &&& (forall|j: int|
                    0 <= j < old(self).profiles().len() && j != i ==> final(self).profiles()[j]
                        == old(self).profiles()[j])
                &&& p1.id == p0.id
                &&& p1.name == p0.name
                &&& p1.workspace_ids@ == p0.workspace_ids@
                &&& p1.defaults == p0.defaults
                &&& p1.created_at == p0.created_at
                &&& (has_str(p0.repos@, source@) ==> p1 == p0)
                &&& (!has_str(p0.repos@, source@) ==> p1.repos@.len() == p0.repos@.len() + 1
                    && p1.repos@.take(p0.repos@.len() as int) == p0.repos@
                    && p1.repos@.last()@ == source@)
                &&& profile_like(p, p1)
            }),
    {
        match self.find(workset_id) {
            Some(i) => {
                proof {
                    self.lemma_index_unique(workset_id@, i as int);
                }
                if !contains_str(&self.profiles[i].repos, source) {
                    self.profiles[i].repos.push(source.to_owned());
                    self.profiles[i].updated_at = now_rfc3339();
                }
                let result = clone_profile(&self.profiles[i]);
                proof {
                    let p1 = self.profiles@[i as int];
                    assert(self.profiles@ =~= old(self).profiles@.update(i as int, p1));
                    lemma_profiles_update(old(self).profiles@, i as int, p1);
                    let p0 = old(self).profiles@[i as int];
                    if !has_str(p0.repos@, source@) {
                        assert(p1.repos@.take(p0.repos@.len() as int) =~= p0.repos@);
                    }
                }
                Ok(result)
            },
            None => Err(workset_not_found("workset_profiles.add_repo", workset_id)),
        }
    }

    /// Remove every occurrence of a repo source from a profile's list; the
    /// update stamp is renewed. Fails, with a config envelope naming the
    /// identifier, exactly when it is unknown.
    pub fn remove_repo(&mut self, workset_id: &str, source: &str) -> (r: Result<
        WorksetProfile,
        ErrorEnvelope,
    >)
        requires
            old(self).wf(),
        ensures
            final(self).wf(),
            r is Ok <==> old(self).spec_has(workset_id@),
            r matches Err(e) ==> *final(self) == *old(self) && e.category@ == "config"@
                && e.operation@ == "workset_profiles.remove_repo"@ && e.message@ == "Workset '"@
                + workset_id@ + "' not found"@,
            r matches Ok(p) ==> ({
                let i = old(self).profile_index(workset_id@);
                let p0 = old(self).profiles()[i];
                let p1 = final(self).profiles()[i];
                &&& final(self).profiles().len() == old(self).profiles().len()
                &&& (forall|j: int|
                    0 <= j < old(self).profiles().len() && j != i ==> final(self).profiles()[j]
                        == old(self).profiles()[j])
                &&& p1.id == p0.id
                &&& p1.name == p0.name
                &&& p1.workspace_ids@ == p0.workspace_ids@
                &&& p1.defaults == p0.defaults
                &&& p1.created_at == p0.created_at
                &&& p1.repos@ == p0.repos@.filter(|x: String| x@ != source@)
                &&& !has_str(p1.repos@, source@)
                &&& profile_like(p, p1)
            }),
    {
        match self.find(workset_id) {
            Some(i) => {
                proof {
                    self.lemma_index_unique(workset_id@, i as int);
                }
                let kept = retain_without(&self.profiles[i].repos, source);
                self.profiles[i].repos = kept;
                self.profiles[i].updated_at = now_rfc3339();
                let result = clone_profile(&self.profiles[i]);
                proof {
                    let p1 = self.profiles@[i as int];
                    assert(self.profiles@ =~= old(self).profiles@.update(i as int, p1));
                    lemma_profiles_update(old(self).profiles@, i as int, p1);
                }
                Ok(result)
            },
            None => Err(workset_not_found("workset_profiles.remove_repo", workset_id)),
        }
    }

    /// Record a workspace under a profile unless already recorded; only an
    /// actual addition renews the update stamp. Fails, with a config
    /// envelope naming the identifier, exactly when it is unknown.
    pub fn add_workspace(&mut self, workset_id: &str, workspace_name: &str) -> (r: Result<
        (),
        ErrorEnvelope,
    >)
        requires
            old(self).wf(),
        ensures
            final(self).wf(),
            r is Ok <==> old(self).spec_has(workset_id@),
            r matches Err(e) ==> *final(self) == *old(self) && e.category@ == "config"@
                && e.operation@ == "workset_profiles.add_workspace"@ && e.message@ == "Workset '"@
                + workset_id@ + "' not found"@,
            r is Ok ==> ({
                let i = old(self).profile_index(workset_id@);
                let p0 = old(self).profiles()[i];
                let p1 = final(self).profiles()[i];
                &&& final(self).profiles().len() == old(self).profiles().len()
                &&& (forall|j: int|
                    0 <= j < old(self).profiles().len() && j != i ==> final(self).profiles()[j]
                        == old(self).profiles()[j])
                &&& p1.id == p0.id
                &&& p1.name == p0.name
                &&& p1.repos@ == p0.repos@
                &&& p1.defaults == p0.defaults
                &&& p1.created_at == p0.created_at
                &&& (has_str(p0.workspace_ids@, workspace_name@) ==> p1 == p0)
                &&& (!has_str(p0.workspace_ids@, workspace_name@) ==> p1.workspace_ids@.len()
                    == p0.workspace_ids@.len() + 1 && p1.workspace_ids@.take(
                    p0.workspace_ids@.len() as int,
                ) == p0.workspace_ids@ && p1.workspace_ids@.last()@ == workspace_name@)
            }),
    {
        match self.find(workset_id) {
            Some(i) => {
                proof {
                    self.lemma_index_unique(workset_id@, i as int);
                }
                if !contains_str(&self.profiles[i].workspace_ids, workspace_name) {
                    self.profiles[i].workspace_ids.push(workspace_name.to_owned());
                    self.profiles[i].updated_at = now_rfc3339();
                }
                proof {
                    let p1 = self.profiles@[i as int];
                    assert(self.profiles@ =~= old(self).profiles@.update(i as int, p1));
                    lemma_profiles_update(old(self).profiles@, i as int, p1);
                    let p0 = old(self).profiles@[i as int];
                    if !has_str(p0.workspace_ids@, workspace_name@) {
                        assert(p1.workspace_ids@.take(p0.workspace_ids@.len() as int)
                            =~= p0.workspace_ids@);
                    }
                }
                Ok(())
            },
            None => Err(workset_not_found("workset_profiles.add_workspace", workset_id)),
        }
    }

    /// Remove every record of a workspace from a profile; the update stamp
    /// is renewed. Fails, with a config envelope naming the identifier,
    /// exactly when it is unknown.
    pub fn remove_workspace(&mut self, workset_id: &str, workspace_name: &str) -> (r: Result<
        (),
        ErrorEnvelope,
    >)
        requires
            old(self).wf(),
        ensures
            final(self).wf(),
            r is Ok <==> old(self).spec_has(workset_id@),
            r matches Err(e) ==> *final(self) == *old(self) && e.category@ == "config"@
                && e.operation@ == "workset_profiles.remove_workspace"@ && e.message@
                == "Workset '"@ + workset_id@ + "' not found"@,
            r is Ok ==> ({
                let i = old(self).profile_index(workset_id@);
                let p0 = old(self).profiles()[i];
                let p1 = final(self).profiles()[i];
                &&& final(self).profiles().len() == old(self).profiles().len()
                &&& (forall|j: int|
                    0 <= j < old(self).profiles().len() && j != i ==> final(self).profiles()[j]
                        == old(self).profiles()[j])
                &&& p1.id == p0.id
                &&& p1.name == p0.name
                &&& p1.repos@ == p0.repos@
                &&& p1.defaults == p0.defaults
                &&& p1.created_at == p0.created_at
                &&& p1.workspace_ids@ == p0.workspace_ids@.filter(
                    |x: String| x@ != workspace_name@,
                )
                &&& !has_str(p1.workspace_ids@, workspace_name@)
            }),
    {
        match self.find(workset_id) {
            Some(i) => {
                proof {
                    self.lemma_index_unique(workset_id@, i as int);
                }
                let kept = retain_without(&self.profiles[i].workspace_ids, workspace_name);
                self.profiles[i].workspace_ids = kept;
                self.profiles[i].updated_at = now_rfc3339();
                proof {
                    let p1 = self.profiles@[i as int];
                    assert(self.profiles@ =~= old(self).profiles@.update(i as int, p1));
                    lemma_profiles_update(old(self).profiles@, i as int, p1);
                }
                Ok(())
            },
            None => Err(workset_not_found("workset_profiles.remove_workspace", workset_id)),
        }
    }

    /// The stored profiles, in order.
    pub fn list(&self) -> (r: Vec<WorksetProfile>)
        ensures
            r@.len() == self.profiles().len(),
            forall|i: int|
                0 <= i < r@.len() ==> profile_like(#[trigger] r@[i], self.profiles()[i]),
    {
        let n = self.profiles.len();
        let mut r: Vec<WorksetProfile> = Vec::new();
        let mut i: usize = 0;
        while i < n
            invariant
                i <= n,
                n == self.profiles().len(),
                r@.len() == i,
                forall|j: int|
                    0 <= j < i ==> profile_like(#[trigger] r@[j], self.profiles()[j]),
            decreases n - i,
        {
            r.push(clone_profile(&self.profiles[i]));
            i = i + 1;
        }
        r
    }
}

/// Some string in the sequence has this content.
pub open spec fn has_str(v: Seq<String>, s: Seq<char>) -> bool {
    exists|j: int| 0 <= j < v.len() && (#[trigger] v[j])@ == s
}

/// Whether some stored string has this content.
fn contains_str(v: &Vec<String>, s: &str) -> (r: bool)
    ensures
        r == has_str(v@, s@),
{
    let key = s.to_owned();
    let n = v.len();
    let mut i: usize = 0;
    while i < n
        invariant
            i <= n,
            n == v@.len(),
            key@ == s@,
            forall|j: int| 0 <= j < i ==> (#[trigger] v@[j])@ != s@,
        decreases n - i,
    {
        if v[i] == key {
            return true;
        }
        i = i + 1;
    }
    false
}

/// The strings whose content differs from `s`, in order.
fn retain_without(v: &Vec<String>, s: &str) -> (r: Vec<String>)
    ensures
        r@ == v@.filter(|x: String| x@ != s@),
        !has_str(r@, s@),
{
    let key = s.to_owned();
    let n = v.len();
    let mut r: Vec<String> = Vec::new();
    let mut i: usize = 0;
    proof {
        reveal(Seq::filter);
        assert(v@.take(0).filter(|x: String| x@ != s@) =~= Seq::<String>::empty());
    }
    while i < n
        invariant
            i <= n,
            n == v@.len(),
            key@ == s@,
            r@ == v@.take(i as int).filter(|x: String| x@ != s@),
            !has_str(r@, s@),
        decreases n - i,
    {
        let ghost pre = r@;
        if !(v[i] == key) {
            r.push(v[i].clone());
            proof {
                assert forall|j: int| 0 <= j < r@.len() implies (#[trigger] r@[j])@ != s@ by {
                    if j < pre.len() {
                        assert(r@[j] == pre[j]);
                    }
                }
            }
        }
        proof {
            lemma_filter_push(v@.take(i as int), v@[i as int], |x: String| x@ != s@);
            assert(v@.take(i as int).push(v@[i as int]) =~= v@.take(i as int + 1));
            if (v@[i as int])@ != s@ {
                assert(pre.push(v@[i as int]) =~= v@.take(i as int + 1).filter(
                    |x: String| x@ != s@,
                ));
            } else {
                assert(pre + Seq::<String>::empty() =~= pre);
            }
        }
        i = i + 1;
    }
    proof {
        assert(v@.take(n as int) =~= v@);
    }
    r
}

/// Filtering distributes over appending one element.
proof fn lemma_filter_push<A>(s: Seq<A>, x: A, pred: spec_fn(A) -> bool)
    ensures
        s.push(x).filter(pred) == s.filter(pred) + (if pred(x) {
            seq![x]
        } else {
            Seq::<A>::empty()
        }),
{
    reveal(Seq::filter);
    assert(s.push(x).drop_last() =~= s);
    assert(s.push(x).last() == x);
    if pred(x) {
        assert(s.push(x).filter(pred) =~= s.filter(pred) + seq![x]);
    } else {
        assert(s.filter(pred) + Seq::<A>::empty() =~= s.filter(pred));
    }
}

/// The config envelope for an operation on an unknown workset identifier.
fn workset_not_found(operation: &str, id: &str) -> (r: ErrorEnvelope)
    ensures
        r.category@ == "config"@,
        r.operation@ == operation@,
        r.message@ == "Workset '"@ + id@ + "' not found"@,
{
    let mut m = String::from_str("Workset '");
    m.append(id);
    m.append("' not found");
    ErrorEnvelope::config(operation, m.as_str())
}

/// Appending a profile with a fresh identifier keeps identifiers distinct
/// and registers exactly it in addition.
proof fn lemma_profiles_push(s: Seq<WorksetProfile>, p: WorksetProfile)
    requires
        distinct_profile_ids(s),
        !has_profile_id(s, p.id@),
    ensures
        distinct_profile_ids(s.push(p)),
        has_profile_id(s.push(p), p.id@),
        forall|o: Seq<char>|
            o != p.id@ ==> (#[trigger] has_profile_id(s.push(p), o) <==> has_profile_id(s, o)),
{
    let r = s.push(p);
    let n = s.len() as int;
    assert(r[n] == p);
    assert forall|a: int, b: int|
        0 <= a < r.len() && 0 <= b < r.len() && a != b implies r[a].id@ != r[b].id@ by {
        if a < n && b < n {
            assert(r[a] == s[a] && r[b] == s[b]);
        } else if a == n {
            assert(r[b] == s[b]);
            if r[a].id@ == r[b].id@ {
                assert(has_profile_id(s, p.id@));
            }
        } else {
            assert(r[a] == s[a]);
            if r[a].id@ == r[b].id@ {
                assert(has_profile_id(s, p.id@));
            }
        }
    }
    assert forall|o: Seq<char>|
        o != p.id@ implies (#[trigger] has_profile_id(r, o) <==> has_profile_id(s, o)) by {
        if has_profile_id(r, o) {
            let j = choose|j: int| 0 <= j < r.len() && (#[trigger] r[j]).id@ == o;
            assert(j < n);
            assert(s[j] == r[j]);
            assert(has_profile_id(s, o));
        }
        if has_profile_id(s, o) {
            let j = choose|j: int| 0 <= j < s.len() && (#[trigger] s[j]).id@ == o;
            assert(r[j] == s[j]);
            assert(has_profile_id(r, o));
        }
    }
}

/// Replacing a profile by one with the same identifier keeps identifiers
/// distinct and registers exactly the same identifiers.
proof fn lemma_profiles_update(s: Seq<WorksetProfile>, i: int, p: WorksetProfile)
    requires
        0 <= i < s.len(),
        distinct_profile_ids(s),
        p.id@ == s[i].id@,
    ensures
        distinct_profile_ids(s.update(i, p)),
        forall|o: Seq<char>| #[trigger] has_profile_id(s.update(i, p), o) <==> has_profile_id(s, o),
{
    let r = s.update(i, p);
    assert forall|a: int, b: int|
        0 <= a < r.len() && 0 <= b < r.len() && a != b implies r[a].id@ != r[b].id@ by {
        assert(r[a] == if a == i { p } else { s[a] });
        assert(r[b] == if b == i { p } else { s[b] });
    }
    assert forall|o: Seq<char>| #[trigger] has_profile_id(r, o) <==> has_profile_id(s, o) by {
        if has_profile_id(r, o) {
            let j = choose|j: int| 0 <= j < r.len() && (#[trigger] r[j]).id@ == o;
            assert(r[j] == if j == i { p } else { s[j] });
            assert(s[j].id@ == o);
            assert(has_profile_id(s, o));
        }
        if has_profile_id(s, o) {
            let j = choose|j: int| 0 <= j < s.len() && (#[trigger] s[j]).id@ == o;
            assert(r[j] == if j == i { p } else { s[j] });
            assert(r[j].id@ == o);
            assert(has_profile_id(r, o));
        }
    }
}

/// Removing a profile keeps identifiers distinct; its identifier is gone
/// and every other one stays.
proof fn lemma_profiles_remove(s: Seq<WorksetProfile>, i: int)
    requires
        0 <= i < s.len(),
        distinct_profile_ids(s),
    ensures
        distinct_profile_ids(s.remove(i)),
        !has_profile_id(s.remove(i), s[i].id@),
        forall|o: Seq<char>|
            o != s[i].id@ ==> (#[trigger] has_profile_id(s.remove(i), o) <==> has_profile_id(s, o)),
{
    let r = s.remove(i);
    s.remove_ensures(i);
    assert forall|j: int| 0 <= j < r.len() implies #[trigger] r[j] == s[if j < i {
        j
    } else {
        j + 1
    }] by {}
    assert forall|a: int, b: int|
        0 <= a < r.len() && 0 <= b < r.len() && a != b implies r[a].id@ != r[b].id@ by {
        let a0 = if a < i { a } else { a + 1 };
        let b0 = if b < i { b } else { b + 1 };
        assert(r[a] == s[a0] && r[b] == s[b0]);
    }
    assert forall|j: int| 0 <= j < r.len() implies (#[trigger] r[j]).id@ != s[i].id@ by {
        let j0 = if j < i { j } else { j + 1 };
        assert(r[j] == s[j0]);
        assert(s[j0].id@ != s[i].id@);
    }
    assert forall|o: Seq<char>|
        o != s[i].id@ implies (#[trigger] has_profile_id(r, o) <==> has_profile_id(s, o)) by {
        if has_profile_id(r, o) {
            let j = choose|j: int| 0 <= j < r.len() && (#[trigger] r[j]).id@ == o;
            let j0 = if j < i { j } else { j + 1 };
            assert(s[j0] == r[j]);
            assert(has_profile_id(s, o));
        }
        if has_profile_id(s, o) {
            let j0 = choose|j0: int| 0 <= j0 < s.len() && (#[trigger] s[j0]).id@ == o;
            if j0 != i {
                let j = if j0 < i { j0 } else { j0 - 1 };
                assert(r[j] == s[j0]);
                assert(has_profile_id(r, o));
            }
        }
    }
}

/// With dashes up to `a` and a non-dash at `a`, trimming leading dashes is
/// dropping the first `a` characters.
proof fn lemma_trim_leading_skip(s: Seq<char>, a: int)
    requires
        0 <= a <= s.len(),
        forall|k: int| 0 <= k < a ==> s[k] == '-',
        a < s.len() ==> s[a] != '-',
    ensures
        trim_leading(s) == s.skip(a),
    decreases a,
{
    if a == 0 {
        assert(s.skip(0) =~= s);
    } else {
        assert(s[0] == '-');
        let t = s.skip(1);
        assert forall|k: int| 0 <= k < a - 1 implies t[k] == '-' by {
            assert(t[k] == s[k + 1]);
        }
        if a - 1 < t.len() {
            assert(t[a - 1] == s[a]);
        }
        lemma_trim_leading_skip(t, a - 1);
        assert(t.skip(a - 1) =~= s.skip(a));
    }
}

/// With dashes from `b` on and a non-dash just before `b`, trimming
/// trailing dashes is keeping the first `b` characters.
proof fn lemma_trim_trailing_take(s: Seq<char>, b: int)
    requires
        0 <= b <= s.len(),
        forall|k: int| b <= k < s.len() ==> s[k] == '-',
        b > 0 ==> s[b - 1] != '-',
    ensures
        trim_trailing(s) == s.take(b),
    decreases s.len(),
{
    if b == s.len() {
        assert(s.take(b) =~= s);
        if s.len() > 0 {
            assert(s[s.len() - 1] != '-');
        }
    } else {
        assert(s[s.len() - 1] == '-');
        let t = s.drop_last();
        assert forall|k: int| b <= k < t.len() implies t[k] == '-' by {
            assert(t[k] == s[k]);
        }
        if b > 0 {
            assert(t[b - 1] == s[b - 1]);
        }
        lemma_trim_trailing_take(t, b);
        assert(t.take(b) =~= s.take(b));
    }
}

/// A zero run has as many characters as its count, every one the digit
/// zero.
proof fn lemma_zero_run_props(k: int)
    requires
        k >= 0,
    ensures
        zero_run(k).len() == k,
        forall|i: int| 0 <= i < k ==> zero_run(k)[i] == '0',
    decreases k,
{
    if k > 0 {
        lemma_zero_run_props(k - 1);
        assert forall|i: int| 0 <= i < k implies zero_run(k)[i] == '0' by {
            if i < k - 1 {
                assert(zero_run(k)[i] == zero_run(k - 1)[i]);
            }
        }
    }
}

/// A non-empty trailing-trim never ends in a dash.
proof fn lemma_trim_trailing_no_dash(s: Seq<char>)
    ensures
        trim_trailing(s).len() > 0 ==> trim_trailing(s)[trim_trailing(s).len() - 1] != '-',
    decreases s.len(),
{
    if s.len() > 0 && s[s.len() - 1] == '-' {
        lemma_trim_trailing_no_dash(s.drop_last());
    }
}

/// Decimal digit characters: at least one, the last the low-order digit.
proof fn lemma_dec_chars_props(n: int)
    requires
        n >= 0,
    ensures
        dec_chars(n).len() >= 1,
        dec_chars(n)[dec_chars(n).len() - 1] == (48 + n % 10) as u8 as char,
    decreases n,
{
    if n >= 10 {
        lemma_dec_chars_props(n / 10);
    }
}

/// The one-character string of a decimal digit.
fn digit_str(d: u64) -> (r: &'static str)
    requires
        d < 10,
    ensures
        r@ == seq![(48 + d) as u8 as char],
{
    if d == 0 {
        proof {
            reveal_strlit("0");
            assert("0"@ =~= seq![(48u64 + 0) as u8 as char]);
        }
        "0"
    } else if d == 1 {
        proof {
            reveal_strlit("1");
            assert("1"@ =~= seq![(48u64 + 1) as u8 as char]);
        }
        "1"
    } else if d == 2 {
        proof {
            reveal_strlit("2");
            assert("2"@ =~= seq![(48u64 + 2) as u8 as char]);
        }
        "2"
    } else if d == 3 {
        proof {
            reveal_strlit("3");
            assert("3"@ =~= seq![(48u64 + 3) as u8 as char]);
        }
        "3"
    } else if d == 4 {
        proof {
            reveal_strlit("4");
            assert("4"@ =~= seq![(48u64 + 4) as u8 as char]);
        }
        "4"
    } else if d == 5 {
        proof {
            reveal_strlit("5");
            assert("5"@ =~= seq![(48u64 + 5) as u8 as char]);
        }
        "5"
    } else if d == 6 {
        proof {
            reveal_strlit("6");
            assert("6"@ =~= seq![(48u64 + 6) as u8 as char]);
        }
        "6"
    } else if d == 7 {
        proof {
            reveal_strlit("7");
            assert("7"@ =~= seq![(48u64 + 7) as u8 as char]);
        }
        "7"
    } else if d == 8 {
        proof {
            reveal_strlit("8");
            assert("8"@ =~= seq![(48u64 + 8) as u8 as char]);
        }
        "8"
    } else {
        proof {
            reveal_strlit("9");
            assert("9"@ =~= seq![(48u64 + 9) as u8 as char]);
        }
        "9"
    }
}

/// Append the decimal digit characters of a number.
fn append_dec(s: &mut String, n: u64)
    ensures
        final(s)@ == old(s)@ + dec_chars(n as int),
    decreases n,
{
    if n < 10 {
        s.append(digit_str(n));
        proof {
            assert(old(s)@ + seq![(48 + n as int) as u8 as char] =~= old(s)@ + dec_chars(n as int));
        }
    } else {
        append_dec(s, n / 10);
        s.append(digit_str(n % 10));
        proof {
            assert(old(s)@ + dec_chars(n as int / 10) + seq![(48 + n as int % 10) as u8 as char]
                =~= old(s)@ + dec_chars(n as int));
        }
    }
}

/// A field-for-field copy of a profile.
fn clone_profile(p: &WorksetProfile) -> (r: WorksetProfile)
    ensures
        profile_like(r, *p),
{
    WorksetProfile {
        id: p.id.clone(),
        name: p.name.clone(),
        repos: clone_string_vec(&p.repos),
        workspace_ids: clone_string_vec(&p.workspace_ids),
        defaults: clone_defaults(&p.defaults),
        created_at: p.created_at.clone(),
        updated_at: p.updated_at.clone(),
    }
}

/// A copy of optional workset defaults, equal to the original.
fn clone_defaults(d: &Option<WorksetDefaults>) -> (r: Option<WorksetDefaults>)
    ensures
        r == *d,
{
    match d {
        Some(v) => Some(
            WorksetDefaults {
                base_branch: clone_opt_string(&v.base_branch),
                default_remote: clone_opt_string(&v.default_remote),
                workspace_root: clone_opt_string(&v.workspace_root),
            },
        ),
        None => None,
    }
}

} // verus!
