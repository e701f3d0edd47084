//! The directive store.
//!
//! `Server` owns the persisted directives: claiming identifiers, create and
//! overwrite, point lookup, cursor listing, deletion, and the composite
//! redirect that binds lookup, access-policy evaluation and the quota
//! increment into one operation. The backing storage here is a vector kept
//! strictly sorted by identifier; its abstract value is the map from
//! identifiers to directive views, and every operation is specified against
//! that map. Expiry is checked lazily at read time: an entry past its expiry
//! instant answers like an absent one, whether or not it is still physically
//! present.
//!
//! The store is a sequential object; a process serializes operations on it
//! (a deployment keeps one store instance behind a shared handle, or relies
//! on a backend that serializes per-key updates). Under that discipline the
//! contracts below pin down every interleaving of per-directive operations.

use vstd::prelude::*;

use crate::directive::{
    auth_option_view, directive_wf, expiry_option_view, spec_expired, Directive,
    DirectiveACLAuth, DirectiveACLAuthView, DirectiveACLCalls, DirectiveACLCallsView,
    DirectiveACLs, DirectiveACLsView, DirectiveView, ExpirySpec,
};
use crate::errors::StoreError;
use crate::expiry::{resolve, spec_resolve};
use crate::ids::fresh_uuid_string;
use crate::order::{
    lemma_lex_asym, lemma_lex_connected, lemma_lex_irrefl, lemma_lex_trans, lex_lt, str_eq, str_lt,
};
use crate::policy::{bump_acls, evaluate, spec_evaluate, AccessDecision, DenyReason};

verus! {

/// The map denoted by a sequence of directive entries: later entries shadow
/// earlier ones, though the store never keeps two entries with one id.
pub open spec fn assoc(entries: Seq<DirectiveView>) -> Map<Seq<char>, DirectiveView>
    decreases entries.len(),
{
    if entries.len() == 0 {
        Map::empty()
    } else {
        assoc(entries.drop_last()).insert(entries.last().id, entries.last())
    }
}

/// No two entries carry the same identifier.
pub open spec fn distinct_ids(entries: Seq<DirectiveView>) -> bool {
    forall|i: int, j: int|
        0 <= i < j < entries.len() ==> entries[i].id != entries[j].id
}

/// Identifiers in strictly ascending lexicographic order.
pub open spec fn sorted_ids(ids: Seq<Seq<char>>) -> bool {
    forall|i: int, j: int| 0 <= i < j < ids.len() ==> lex_lt(ids[i], ids[j])
}

/// With distinct identifiers, `assoc` holds exactly the entries, each under
/// its own identifier.
proof fn lemma_assoc_characterize(entries: Seq<DirectiveView>)
    requires
        distinct_ids(entries),
    ensures
        forall|i: int|
            0 <= i < entries.len() ==> assoc(entries).contains_key(#[trigger] entries[i].id),
        forall|i: int|
            0 <= i < entries.len() ==> assoc(entries)[#[trigger] entries[i].id] == entries[i],
        forall|k: Seq<char>|
            #[trigger] assoc(entries).contains_key(k) ==> exists|i: int|
                0 <= i < entries.len() && entries[i].id == k,
    decreases entries.len(),
{
    if entries.len() > 0 {
        let prefix = entries.drop_last();
        assert(distinct_ids(prefix)) by {
            assert(forall|i: int|
                0 <= i < prefix.len() ==> prefix[i] == entries[i]);
        }
        lemma_assoc_characterize(prefix);
        assert(forall|i: int|
            0 <= i < prefix.len() ==> prefix[i] == entries[i]);
        assert forall|i: int| 0 <= i < entries.len() implies assoc(entries).contains_key(
            #[trigger] entries[i].id,
        ) && assoc(entries)[entries[i].id] == entries[i] by {
            if i < entries.len() - 1 {
                assert(entries[i].id != entries.last().id);
            }
        }
        assert forall|k: Seq<char>| #[trigger]
            assoc(entries).contains_key(k) implies exists|i: int|
            0 <= i < entries.len() && entries[i].id == k by {
            if k == entries.last().id {
                assert(entries[entries.len() - 1].id == k);
            } else {
                assert(assoc(prefix).contains_key(k));
                let i = choose|i: int| 0 <= i < prefix.len() && prefix[i].id == k;
                assert(entries[i].id == k);
            }
        }
    }
}

/// The directive store. The vector is kept strictly sorted by identifier.
pub struct Server {
    directives: Vec<Directive>,
}

impl View for Server {
    type V = Map<Seq<char>, DirectiveView>;

    open spec fn view(&self) -> Map<Seq<char>, DirectiveView> {
        assoc(self.entries())
    }
}

impl Server {
    /// The stored entries as views, in storage (identifier) order.
    pub closed spec fn entries(self) -> Seq<DirectiveView> {
        self.directives@.map_values(|d: Directive| d@)
    }

    /// The stored identifiers in storage order.
    pub open spec fn ids(self) -> Seq<Seq<char>> {
        self.entries().map_values(|d: DirectiveView| d.id)
    }

    /// The store invariant: sorted identifiers, each entry well formed, and
    /// each entry keyed by its own identifier.
    pub open spec fn wf(self) -> bool {
        &&& sorted_ids(self.ids())
        &&& forall|i: int|
            0 <= i < self.entries().len() ==> directive_wf(#[trigger] self.entries()[i])
    }

    /// Sorted identifiers are pairwise distinct.
    proof fn lemma_distinct(self)
        requires
            self.wf(),
        ensures
            distinct_ids(self.entries()),
    {
        assert forall|i: int, j: int|
            0 <= i < j < self.entries().len() implies self.entries()[i].id
            != self.entries()[j].id by {
            assert(lex_lt(self.ids()[i], self.ids()[j]));
            if self.entries()[i].id == self.entries()[j].id {
                lemma_lex_irrefl(self.ids()[i]);
            }
        }
    }

    /// Everything the map holds is one of the entries, and each entry is in
    /// the map under its identifier.
    pub proof fn lemma_view_entries(self)
        requires
            self.wf(),
        ensures
            forall|i: int|
                0 <= i < self.entries().len() ==> self@.contains_key(
                    #[trigger] self.entries()[i].id,
                ),
            forall|i: int|
                0 <= i < self.entries().len() ==> self@[#[trigger] self.entries()[i].id]
                    == self.entries()[i],
            forall|k: Seq<char>|
                #[trigger] self@.contains_key(k) ==> exists|i: int|
                    0 <= i < self.entries().len() && self.entries()[i].id == k,
    {
        self.lemma_distinct();
        lemma_assoc_characterize(self.entries());
    }

    /// A fresh, empty store.
    pub fn new() -> (r: Server)
        ensures
            r.wf(),
            r@ == Map::<Seq<char>, DirectiveView>::empty(),
            r.ids().len() == 0,
    {
        let r = Server { directives: Vec::new() };
        proof {
            assert(r.entries() =~= Seq::<DirectiveView>::empty());
            assert(r.ids() =~= Seq::<Seq<char>>::empty());
            assert(r@ =~= Map::<Seq<char>, DirectiveView>::empty());
        }
        r
    }

    /// Claims a fresh identifier without persisting anything: a random
    /// version-4 UUID in its 36-character hyphenated form.
    pub fn claim_id(&self) -> (r: String)
        ensures
            r@.len() == 36,
    {
        fresh_uuid_string()
    }

    /// Where `id` is stored, if anywhere.
    fn find_index(&self, id: &str) -> (r: Option<usize>)
        ensures
            r matches Some(i) ==> i < self.entries().len() && self.entries()[i as int].id == id@,
            r is None ==> forall|i: int|
                0 <= i < self.entries().len() ==> self.entries()[i].id != id@,
    {
        let n = self.directives.len();
        let mut i: usize = 0;
        while i < n
            invariant
                i <= n,
                n == self.directives.len(),
                forall|j: int| 0 <= j < i ==> self.entries()[j].id != id@,
            decreases n - i,
        {
            if str_eq(self.directives[i].id.as_str(), id) {
                assert(self.entries()[i as int].id == id@);
                return Some(i);
            }
            i = i + 1;
        }
        None
    }

    /// Point lookup: a copy of the stored directive. Ignores the access
    /// policy entirely — no credential or quota check, no mutation — but an
    /// entry past its expiry instant at `now` answers `NotFound`.
    pub fn read(&self, id: &str, now: u64) -> (r: Result<Directive, StoreError>)
        requires
            self.wf(),
        ensures
            r matches Ok(d) ==> self@.contains_key(id@) && d@ == self@[id@] && !spec_expired(
                self@[id@].acls,
                now,
            ),
            r matches Err(e) ==> e == StoreError::NotFound && (!self@.contains_key(id@)
                || spec_expired(self@[id@].acls, now)),
    {
        proof {
            self.lemma_view_entries();
        }
        match self.find_index(id) {
            Some(i) => {
                let d = &self.directives[i];
                if d.acls.is_expired(now) {
                    Err(StoreError::NotFound)
                } else {
                    Ok(d.duplicate())
                }
            },
            None => Err(StoreError::NotFound),
        }
    }

    /// Removes `id`. Deleting an absent identifier is not an error: the
    /// operation is idempotent, and afterwards the store never holds `id`.
    pub fn delete(&mut self, id: &str)
        requires
            old(self).wf(),
        ensures
            final(self).wf(),
            final(self)@ == old(self)@.remove(id@),
    {
        proof {
            self.lemma_view_entries();
        }
        match self.find_index(id) {
            Some(i) => {
                let ghost old_entries = self.entries();
                self.directives.remove(i);
                proof {
                    assert(self.entries() =~= old_entries.remove(i as int));
                    assert(self.ids() =~= old(self).ids().remove(i as int));
                    assert(sorted_ids(self.ids())) by {
                        assert(forall|j: int|
                            0 <= j < self.ids().len() ==> self.ids()[j] == if j < i as int {
                                old(self).ids()[j]
                            } else {
                                old(self).ids()[j + 1]
                            });
                    }
                    assert(final (self).wf());
                    old(self).lemma_distinct();
                    self.lemma_distinct();
                    lemma_assoc_characterize(old_entries);
                    lemma_assoc_characterize(self.entries());
                    assert forall|k: Seq<char>| #[trigger]
                        self@.contains_key(k) implies old(self)@.remove(id@).contains_key(k) by {
                        let j = choose|j: int|
                            0 <= j < self.entries().len() && self.entries()[j].id == k;
                        if j < i as int {
                            assert(old_entries[j].id == k);
                        } else {
                            assert(old_entries[j + 1].id == k);
                        }
                        assert(k != id@);
                    }
                    assert forall|k: Seq<char>| #[trigger]
                        old(self)@.remove(id@).contains_key(k) implies self@.contains_key(k)
                        && self@[k] == old(self)@.remove(id@)[k] by {
                        let j = choose|j: int|
                            0 <= j < old_entries.len() && old_entries[j].id == k;
                        if j < i as int {
                            assert(self.entries()[j].id == k);
                            assert(self.entries()[j] == old_entries[j]);
                        } else {
                            assert(j != i as int);
                            assert(self.entries()[j - 1].id == k);
                            assert(self.entries()[j - 1] == old_entries[j]);
                        }
                    }
                    assert(self@ =~= old(self)@.remove(id@));
                }
            },
            None => {
                proof {
                    assert(!old(self)@.contains_key(id@));
                    assert(self@ =~= old(self)@.remove(id@));
                }
            },
        }
    }

    /// Removes every directive. Idempotent.
    pub fn clear(&mut self)
        ensures
            final(self).wf(),
            final(self)@ == Map::<Seq<char>, DirectiveView>::empty(),
            final(self).ids().len() == 0,
    {
        self.directives.clear();
        proof {
            assert(self.entries() =~= Seq::<DirectiveView>::empty());
            assert(self.ids() =~= Seq::<Seq<char>>::empty());
            assert(self@ =~= Map::<Seq<char>, DirectiveView>::empty());
        }
    }

    /// The position where `id` belongs in the sorted vector: after every
    /// smaller identifier, before everything else.
    fn lower_bound(&self, id: &str) -> (r: usize)
        requires
            self.wf(),
        ensures
            r <= self.entries().len(),
            forall|i: int| 0 <= i < r ==> lex_lt(self.entries()[i].id, id@),
            forall|i: int|
                r <= i < self.entries().len() ==> !lex_lt(self.entries()[i].id, id@),
    {
        let n = self.directives.len();
        let mut i: usize = 0;
        while i < n
            invariant
                i <= n,
                n == self.directives.len(),
                self.wf(),
                forall|j: int| 0 <= j < i ==> lex_lt(self.entries()[j].id, id@),
            decreases n - i,
        {
            if !str_lt(self.directives[i].id.as_str(), id) {
                proof {
                    assert forall|j: int|
                        i as int <= j < self.entries().len() implies !lex_lt(
                        self.entries()[j].id,
                        id@,
                    ) by {
                        if j > i as int {
                            assert(lex_lt(self.ids()[i as int], self.ids()[j]));
                            lemma_lex_trans(self.ids()[i as int], self.ids()[j], id@);
                        }
                    }
                }
                return i;
            }
            i = i + 1;
        }
        n
    }

    /// Stores `d` under its identifier, overwriting any previous directive
    /// with that identifier.
    fn upsert(&mut self, d: Directive)
        requires
            old(self).wf(),
            directive_wf(d@),
        ensures
            final(self).wf(),
            final(self)@ == old(self)@.insert(d@.id, d@),
    {
        let ghost k = d@.id;
        let ghost dv = d@;
        let ghost old_entries = old(self).entries();
        let i = self.lower_bound(d.id.as_str());
        let replace = i < self.directives.len() && str_eq(
            self.directives[i].id.as_str(),
            d.id.as_str(),
        );
        if replace {
            self.directives.remove(i);
            self.directives.insert(i, d);
            proof {
                assert(self.entries() =~= old_entries.update(i as int, dv)) by {
                    assert(self.directives@ =~= old(self).directives@.update(i as int, d));
                }
                lemma_entry_updated(*old(self), *self, i as int, dv);
            }
        } else {
            self.directives.insert(i, d);
            proof {
                assert(self.entries() =~= old_entries.insert(i as int, dv)) by {
                    assert(self.directives@ =~= old(self).directives@.insert(i as int, d));
                }
                // The new identifier is distinct from everything at or past
                // the insertion point.
                assert forall|j: int|
                    i as int <= j < old_entries.len() implies old_entries[j].id != k by {
                    if old_entries[j].id == k {
                        if j == i as int {
                            assert(false);
                        } else {
                            assert(lex_lt(old(self).ids()[i as int], old(self).ids()[j]));
                            assert(false);
                        }
                    }
                }
                assert(sorted_ids(self.ids())) by {
                    assert(self.ids() =~= old(self).ids().insert(i as int, k));
                    assert forall|j1: int, j2: int|
                        0 <= j1 < j2 < self.ids().len() implies lex_lt(
                        self.ids()[j1],
                        self.ids()[j2],
                    ) by {
                        let olds = old(self).ids();
                        if j2 < i as int {
                        } else if j1 > i as int {
                        } else if j1 == i as int {
                            // ids[j1] is the new key; everything after is not
                            // smaller and not equal, hence larger.
                            let e = olds[j2 - 1];
                            assert(!lex_lt(e, k));
                            assert(old_entries[j2 - 1].id != k);
                            lemma_lex_connected(k, e);
                        } else if j2 == i as int {
                            assert(lex_lt(olds[j1], k));
                        } else {
                            // j1 < i < j2: smaller than the key, key smaller
                            // than the rest; or directly from the old order.
                            assert(lex_lt(olds[j1], olds[j2 - 1]));
                        }
                    }
                }
                assert(final (self).wf());
                old(self).lemma_distinct();
                self.lemma_distinct();
                lemma_assoc_characterize(old_entries);
                lemma_assoc_characterize(self.entries());
                assert forall|k2: Seq<char>| #[trigger]
                    self@.contains_key(k2) implies old(self)@.insert(k, dv).contains_key(k2)
                    && self@[k2] == old(self)@.insert(k, dv)[k2] by {
                    let j = choose|j: int|
                        0 <= j < self.entries().len() && self.entries()[j].id == k2;
                    if j == i as int {
                        assert(k2 == k);
                        assert(self@[k2] == dv);
                    } else if j < i as int {
                        assert(old_entries[j].id == k2);
                        assert(k2 != k);
                        assert(self@[k2] == self.entries()[j]);
                        assert(old(self)@[k2] == old_entries[j]);
                    } else {
                        assert(old_entries[j - 1].id == k2);
                        assert(k2 != k);
                        assert(self@[k2] == self.entries()[j]);
                        assert(old(self)@[k2] == old_entries[j - 1]);
                    }
                }
                assert forall|k2: Seq<char>| #[trigger]
                    old(self)@.insert(k, dv).contains_key(k2) implies self@.contains_key(k2) by {
                    if k2 == k {
                        assert(self.entries()[i as int].id == k);
                    } else {
                        let j = choose|j: int|
                            0 <= j < old_entries.len() && old_entries[j].id == k2;
                        if j < i as int {
                            assert(self.entries()[j].id == k2);
                        } else {
                            assert(self.entries()[j + 1].id == k2);
                        }
                    }
                }
                assert(self@ =~= old(self)@.insert(k, dv));
            }
        }
    }

    /// Persists a directive. A supplied identifier overwrites any directive
    /// already stored under it; without one, a fresh identifier is claimed.
    /// The declarative expiry is resolved against `now`; the call counter
    /// always restarts at zero. An empty destination URL is rejected before
    /// anything is written, and a directive is never stored without an
    /// identifier.
    pub fn register(
        &mut self,
        id: Option<String>,
        url: String,
        expiry: Option<ExpirySpec>,
        max_calls: Option<u64>,
        auth: Option<DirectiveACLAuth>,
        now: u64,
    ) -> (r: Result<String, StoreError>)
        requires
            old(self).wf(),
        ensures
            final(self).wf(),
            r is Err <==> spec_register_error(url@, expiry_option_view(expiry), now) is Some,
            r matches Err(e) ==> Some(e) == spec_register_error(
                url@,
                expiry_option_view(expiry),
                now,
            ) && *final(self) == *old(self),
            r matches Ok(out) ==> (id matches Some(given) ==> out@ == given@),
            r matches Ok(out) ==> (id is None ==> out@.len() == 36),
            r matches Ok(out) ==> (spec_resolve(expiry_option_view(expiry), now) matches Ok(t)
                && final(self)@ == old(self)@.insert(
                out@,
                registered_view(out@, url@, t, max_calls, auth_option_view(auth)),
            )),
    {
        if url.as_str().is_empty() {
            return Err(StoreError::Validation);
        }
        let expire_at = match resolve(&expiry, now) {
            Ok(t) => t,
            Err(e) => {
                return Err(e);
            },
        };
        let out = match id {
            Some(given) => given,
            None => self.claim_id(),
        };
        let d = Directive {
            id: out.clone(),
            url,
            acls: DirectiveACLs {
                expire_at,
                calls: DirectiveACLCalls { max: max_calls, curr: 0 },
                auth,
            },
        };
        proof {
            assert(d@ =~= registered_view(
                out@,
                d.url@,
                expire_at,
                max_calls,
                auth_option_view(d.acls.auth),
            ));
        }
        self.upsert(d);
        Ok(out)
    }

    /// Lists up to `next` identifiers in ascending lexicographic order,
    /// starting strictly after `cursor`, or from the beginning without one.
    /// Passing the last identifier of one page as the cursor of the next
    /// enumerates the whole set without duplicates or omissions, provided
    /// nothing is deleted or inserted between pages (there is no snapshot
    /// isolation: a mutation between pages may skip or repeat entries next
    /// to it). Listing reads the physical key set: an expired entry still
    /// present is listed, and reading it answers `NotFound`.
    pub fn list(&self, next: u16, cursor: Option<String>) -> (r: Vec<String>)
        requires
            self.wf(),
        ensures
            cut_of(self.ids(), cursor_of(cursor)) + r@.len() <= self.ids().len(),
            r@.map_values(|s: String| s@) == self.ids().subrange(
                cut_of(self.ids(), cursor_of(cursor)),
                cut_of(self.ids(), cursor_of(cursor)) + r@.len(),
            ),
            r@.len() <= next as int,
            r@.len() < next as int ==> cut_of(self.ids(), cursor_of(cursor)) + r@.len()
                == self.ids().len(),
    {
        let n = self.directives.len();
        let mut i: usize = 0;
        match &cursor {
            Some(c) => {
                while i < n && !str_lt(c.as_str(), self.directives[i].id.as_str())
                    invariant
                        i <= n,
                        n == self.directives.len(),
                        self.wf(),
                        forall|j: int| 0 <= j < i ==> !after_cursor(self.ids()[j], Some(c@)),
                    decreases n - i,
                {
                    i = i + 1;
                }
                proof {
                    assert forall|j: int|
                        i as int <= j < self.ids().len() implies after_cursor(
                        self.ids()[j],
                        Some(c@),
                    ) by {
                        assert(lex_lt(c@, self.ids()[i as int]));
                        if j > i as int {
                            lemma_lex_trans(c@, self.ids()[i as int], self.ids()[j]);
                        }
                    }
                    lemma_cut_unique(self.ids(), cursor_of(cursor), i as int);
                }
            },
            None => {
                proof {
                    lemma_cut_unique(self.ids(), cursor_of(cursor), 0);
                }
            },
        }
        let mut r: Vec<String> = Vec::new();
        let mut k = i;
        let limit = next as usize;
        proof {
            assert(r@.map_values(|s: String| s@) =~= self.ids().subrange(i as int, i as int));
        }
        while k < n && k - i < limit
            invariant
                i <= k <= n,
                n == self.directives.len(),
                self.wf(),
                k - i <= limit,
                r@.len() == k - i,
                r@.map_values(|s: String| s@) == self.ids().subrange(i as int, k as int),
            decreases n - k,
        {
            r.push(self.directives[k].id.clone());
            proof {
                assert(r@.map_values(|s: String| s@) =~= self.ids().subrange(
                    i as int,
                    k as int + 1,
                ));
            }
            k = k + 1;
        }
        r
    }

    /// The composite redirect: look the directive up, evaluate the access
    /// policy against the presented credentials, and on `Allow` consume one
    /// quota unit and answer the destination URL, all as one operation. An
    /// absent or expired directive answers `NotFound`; a failed credential
    /// gate `Unauthorized`; a consumed quota `Exhausted`. Nothing changes
    /// unless the redirect is allowed.
    pub fn redirect(&mut self, id: &str, presented: &Option<DirectiveACLAuth>, now: u64) -> (r:
        Result<String, StoreError>)
        requires
            old(self).wf(),
        ensures
            final(self).wf(),
            (!old(self)@.contains_key(id@) || spec_expired(old(self)@[id@].acls, now)) ==> (
            r matches Err(e) && e == StoreError::NotFound && *final(self) == *old(self)),
            old(self)@.contains_key(id@) && !spec_expired(old(self)@[id@].acls, now) ==> (
            match spec_evaluate(old(self)@[id@].acls, auth_option_view(*presented)) {
                AccessDecision::Deny(DenyReason::Unauthorized) => r matches Err(e) && e
                    == StoreError::Unauthorized && *final(self) == *old(self),
                AccessDecision::Deny(DenyReason::Exhausted) => r matches Err(e) && e
                    == StoreError::Exhausted && *final(self) == *old(self),
                AccessDecision::Allow => r matches Ok(url) && url@ == old(self)@[id@].url
                    && final(self)@ == old(self)@.insert(id@, bump_directive(old(self)@[id@])),
            }),
    {
        proof {
            self.lemma_view_entries();
        }
        let i = match self.find_index(id) {
            Some(i) => i,
            None => {
                return Err(StoreError::NotFound);
            },
        };
        if self.directives[i].acls.is_expired(now) {
            return Err(StoreError::NotFound);
        }
        let decision = evaluate(&self.directives[i].acls, presented);
        match decision {
            AccessDecision::Deny(DenyReason::Unauthorized) => Err(StoreError::Unauthorized),
            AccessDecision::Deny(DenyReason::Exhausted) => Err(StoreError::Exhausted),
            AccessDecision::Allow => {
                let ghost old_entries = self.entries();
                let ghost dv_old = self.entries()[i as int];
                let d = self.directives.remove(i);
                let out_url = d.url.clone();
                let quota = d.acls.calls.max.is_some();
                let new_curr = if quota {
                    d.acls.calls.curr + 1
                } else {
                    d.acls.calls.curr
                };
                let d2 = Directive {
                    id: d.id,
                    url: d.url,
                    acls: DirectiveACLs {
                        expire_at: d.acls.expire_at,
                        calls: DirectiveACLCalls { max: d.acls.calls.max, curr: new_curr },
                        auth: d.acls.auth,
                    },
                };
                proof {
                    assert(d2@ =~= bump_directive(dv_old));
                }
                self.directives.insert(i, d2);
                proof {
                    assert(self.entries() =~= old_entries.update(i as int, d2@)) by {
                        assert(self.directives@ =~= old(self).directives@.update(i as int, d2));
                    }
                    lemma_entry_updated(*old(self), *self, i as int, d2@);
                }
                Ok(out_url)
            },
        }
    }
}

/// A directive after the quota-increment side effect of an allowed redirect.
pub open spec fn bump_directive(d: DirectiveView) -> DirectiveView {
    DirectiveView { id: d.id, url: d.url, acls: bump_acls(d.acls) }
}

/// Whether `id` lies strictly after the cursor; no cursor admits everything.
pub open spec fn after_cursor(id: Seq<char>, c: Option<Seq<char>>) -> bool {
    match c {
        None => true,
        Some(cv) => lex_lt(cv, id),
    }
}

/// The view of an optional cursor string.
pub open spec fn cursor_of(c: Option<String>) -> Option<Seq<char>> {
    match c {
        Some(s) => Some(s@),
        None => None,
    }
}

/// How many leading identifiers the cursor skips: the length of the prefix
/// of identifiers not strictly after it.
pub open spec fn cut_of(ids: Seq<Seq<char>>, c: Option<Seq<char>>) -> int
    decreases ids.len(),
{
    if ids.len() == 0 {
        0
    } else if after_cursor(ids[0], c) {
        0
    } else {
        1 + cut_of(ids.drop_first(), c)
    }
}

/// On sorted identifiers the cursor splits cleanly: everything before the
/// cut is at or before the cursor, everything from the cut on lies strictly
/// after it.
pub proof fn lemma_cut_properties(ids: Seq<Seq<char>>, c: Option<Seq<char>>)
    requires
        sorted_ids(ids),
    ensures
        0 <= cut_of(ids, c) <= ids.len(),
        forall|i: int| 0 <= i < cut_of(ids, c) ==> !after_cursor(ids[i], c),
        forall|i: int| cut_of(ids, c) <= i < ids.len() ==> after_cursor(ids[i], c),
    decreases ids.len(),
{
    if ids.len() == 0 {
    } else if after_cursor(ids[0], c) {
        assert forall|i: int| 0 <= i < ids.len() implies after_cursor(ids[i], c) by {
            if i > 0 {
                match c {
                    Some(cv) => {
                        lemma_lex_trans(cv, ids[0], ids[i]);
                    },
                    None => {},
                }
            }
        }
    } else {
        let rest = ids.drop_first();
        assert(sorted_ids(rest)) by {
            assert(forall|i: int| 0 <= i < rest.len() ==> rest[i] == ids[i + 1]);
        }
        lemma_cut_properties(rest, c);
        let cr = cut_of(rest, c);
        assert(cut_of(ids, c) == 1 + cr);
        assert forall|i: int| 0 <= i < 1 + cr implies !after_cursor(ids[i], c) by {
            if i > 0 {
                assert(rest[i - 1] == ids[i]);
                assert(!after_cursor(rest[i - 1], c));
            }
        }
        assert forall|i: int| 1 + cr <= i < ids.len() implies after_cursor(ids[i], c) by {
            assert(rest[i - 1] == ids[i]);
            assert(after_cursor(rest[i - 1], c));
        }
    }
}

/// Any split point with the cut's two properties is the cut.
proof fn lemma_cut_unique(ids: Seq<Seq<char>>, c: Option<Seq<char>>, j: int)
    requires
        0 <= j <= ids.len(),
        forall|i: int| 0 <= i < j ==> !after_cursor(ids[i], c),
        forall|i: int| j <= i < ids.len() ==> after_cursor(ids[i], c),
    ensures
        cut_of(ids, c) == j,
    decreases ids.len(),
{
    if ids.len() == 0 {
    } else if j == 0 {
        assert(after_cursor(ids[0], c));
    } else {
        assert(!after_cursor(ids[0], c));
        let rest = ids.drop_first();
        assert(forall|i: int| 0 <= i < rest.len() ==> rest[i] == ids[i + 1]);
        lemma_cut_unique(rest, c, j - 1);
    }
}

/// One redirect is one attempt in the sense of `attempts_after`: on
/// `Allow` the stored directive advances by the quota increment, otherwise
/// it stands still. Together with the quota-enforcement law this carries
/// the per-call contract of `redirect` to whole runs of redirects.
pub proof fn lemma_redirect_step_is_attempt(d: DirectiveView, p: Option<DirectiveACLAuthView>)
    ensures
        spec_evaluate(d.acls, p) == AccessDecision::Allow ==> bump_directive(d).acls
            == crate::policy::attempts_after(d.acls, p, 1),
        spec_evaluate(d.acls, p) != AccessDecision::Allow ==> d.acls
            == crate::policy::attempts_after(d.acls, p, 1),
{
    assert(crate::policy::attempts_after(d.acls, p, 0) == d.acls);
}

/// Law (delete idempotence): `delete` has no error case — its contract
/// holds for absent identifiers too — and removing an identifier that is
/// not there leaves the store's value untouched, so deleting twice is the
/// same as deleting once.
pub proof fn lemma_delete_idempotent(m: Map<Seq<char>, DirectiveView>, k: Seq<char>)
    ensures
        !m.contains_key(k) ==> m.remove(k) == m,
        m.remove(k).remove(k) == m.remove(k),
{
    if !m.contains_key(k) {
        assert(m.remove(k) =~= m);
    }
    assert(m.remove(k).remove(k) =~= m.remove(k));
}

/// Law (pagination completeness): on sorted identifiers, taking the last
/// element of a nonempty contiguous page as the next cursor resumes exactly
/// one past where the page ended. Pages obtained this way tile the
/// identifier space: no identifier is repeated and none is skipped, as long
/// as the set does not change between pages.
pub proof fn lemma_pagination_resumes(ids: Seq<Seq<char>>, start: int, len: int)
    requires
        sorted_ids(ids),
        0 <= start,
        0 < len,
        start + len <= ids.len(),
    ensures
        cut_of(ids, Some(ids[start + len - 1])) == start + len,
{
    let last = ids[start + len - 1];
    assert forall|i: int| 0 <= i < start + len implies !after_cursor(ids[i], Some(last)) by {
        if i < start + len - 1 {
            assert(lex_lt(ids[i], last));
            lemma_lex_asym(ids[i], last);
        } else {
            lemma_lex_irrefl(last);
        }
    }
    assert forall|i: int| start + len <= i < ids.len() implies after_cursor(
        ids[i],
        Some(last),
    ) by {
        assert(lex_lt(last, ids[i]));
    }
    lemma_cut_unique(ids, Some(last), start + len);
}

/// Replacing one entry by another with the same identifier keeps the store
/// well formed and updates the abstract map pointwise.
proof fn lemma_entry_updated(pre: Server, post: Server, i: int, dv: DirectiveView)
    requires
        pre.wf(),
        0 <= i < pre.entries().len(),
        dv.id == pre.entries()[i].id,
        directive_wf(dv),
        post.entries() == pre.entries().update(i, dv),
    ensures
        post.wf(),
        post@ == pre@.insert(dv.id, dv),
{
    let k = dv.id;
    let old_entries = pre.entries();
    assert(post.ids() =~= pre.ids()) by {
        assert(old_entries[i].id == k);
    }
    assert(post.wf());
    pre.lemma_distinct();
    post.lemma_distinct();
    lemma_assoc_characterize(old_entries);
    lemma_assoc_characterize(post.entries());
    assert forall|k2: Seq<char>| #[trigger]
        post@.contains_key(k2) implies pre@.insert(k, dv).contains_key(k2) && post@[k2]
        == pre@.insert(k, dv)[k2] by {
        let j = choose|j: int| 0 <= j < post.entries().len() && post.entries()[j].id == k2;
        if j == i {
            assert(k2 == k);
            assert(post@[k2] == dv);
        } else {
            assert(old_entries[j].id == k2);
            assert(k2 != k);
            assert(post@[k2] == post.entries()[j]);
            assert(pre@[k2] == old_entries[j]);
        }
    }
    assert forall|k2: Seq<char>| #[trigger]
        pre@.insert(k, dv).contains_key(k2) implies post@.contains_key(k2) by {
        if k2 == k {
            assert(post.entries()[i].id == k);
        } else {
            let j = choose|j: int| 0 <= j < old_entries.len() && old_entries[j].id == k2;
            assert(j != i);
            assert(post.entries()[j].id == k2);
        }
    }
    assert(post@ =~= pre@.insert(k, dv));
}

/// The directive view that `register` stores for these inputs.
pub open spec fn registered_view(
    id: Seq<char>,
    url: Seq<char>,
    expire_at: Option<u64>,
    max_calls: Option<u64>,
    auth: Option<DirectiveACLAuthView>,
) -> DirectiveView {
    DirectiveView {
        id,
        url,
        acls: DirectiveACLsView {
            expire_at,
            calls: DirectiveACLCallsView { max: max_calls, curr: 0 },
            auth,
        },
    }
}

/// The error `register` answers for these inputs, if any: an empty
/// destination is invalid, then the expiry must resolve.
pub open spec fn spec_register_error(
    url: Seq<char>,
    expiry: Option<crate::directive::ExpirySpecView>,
    now: u64,
) -> Option<StoreError> {
    if url.len() == 0 {
        Some(StoreError::Validation)
    } else {
        match spec_resolve(expiry, now) {
            Ok(_) => None,
            Err(err) => Some(err),
        }
    }
}

} // verus!
