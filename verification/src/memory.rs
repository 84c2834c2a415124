//! The in-process backend: identity records in a process-local associative
//! store, keyed by identifier, with insertion order as the listing order.

use vstd::prelude::*;

use crate::pagination::page_bounds;
use crate::pagination::page_count;
use crate::pagination::page_slice;
use crate::pagination::total_pages;
use crate::store::SsiStore;
use crate::Error;

verus! {

/// One stored identity: the caller-chosen identifier, the public identity
/// descriptor as text, and the encrypted secret as text.
struct IdentityRecord {
    id: String,
    ssi: String,
    secret: String,
}

/// No two records share an identifier.
spec fn unique_ids(s: Seq<IdentityRecord>) -> bool {
    forall|i: int, j: int| 0 <= i < j < s.len() ==> s[i].id@ != s[j].id@
}

/// Some record carries the identifier `k`.
spec fn has_key(s: Seq<IdentityRecord>, k: Seq<char>) -> bool {
    exists|i: int| 0 <= i < s.len() && s[i].id@ == k
}

/// The position of the record carrying `k`; meaningful only under
/// `unique_ids` and `has_key`.
spec fn key_index(s: Seq<IdentityRecord>, k: Seq<char>) -> int {
    choose|i: int| 0 <= i < s.len() && s[i].id@ == k
}

/// The records as a map from identifier to (descriptor, secret).
spec fn map_of(s: Seq<IdentityRecord>) -> Map<Seq<char>, (Seq<char>, Seq<char>)> {
    Map::new(
        |k: Seq<char>| has_key(s, k),
        |k: Seq<char>| (s[key_index(s, k)].ssi@, s[key_index(s, k)].secret@),
    )
}

/// The identifiers in storage order.
spec fn ids_of(s: Seq<IdentityRecord>) -> Seq<Seq<char>> {
    Seq::new(s.len(), |i: int| s[i].id@)
}

proof fn lemma_key_index(s: Seq<IdentityRecord>, i: int)
    requires
        unique_ids(s),
        0 <= i < s.len(),
    ensures
        has_key(s, s[i].id@),
        key_index(s, s[i].id@) == i,
{
    assert(has_key(s, s[i].id@));
    let j = key_index(s, s[i].id@);
    assert(0 <= j < s.len() && s[j].id@ == s[i].id@);
}

/// The in-memory store: zero or more identity records, no persistence, no
/// teardown. Listing order is insertion order.
pub struct SsiMemoryStore {
    records: Vec<IdentityRecord>,
}

impl SsiMemoryStore {
    /// No two records share an identifier.
    pub closed spec fn wf(&self) -> bool {
        unique_ids(self.records@)
    }

    /// The stored identifiers, in listing order.
    pub closed spec fn ids(&self) -> Seq<Seq<char>> {
        ids_of(self.records@)
    }

    /// The store as a map from identifier to (descriptor text, secret text).
    pub closed spec fn contents(&self) -> Map<Seq<char>, (Seq<char>, Seq<char>)> {
        map_of(self.records@)
    }

    /// The identifier listing carries exactly the map's keys, each once.
    pub proof fn lemma_ids_match_contents(&self)
        requires
            self.wf(),
        ensures
            forall|i: int|
                0 <= i < self.ids().len() ==> #[trigger] self.contents().dom().contains(
                    self.ids()[i],
                ),
            forall|k: Seq<char>| #[trigger]
                self.contents().dom().contains(k) ==> self.ids().contains(k),
            forall|i: int, j: int|
                0 <= i < j < self.ids().len() ==> self.ids()[i] != self.ids()[j],
    {
        let s = self.records@;
        assert forall|i: int| 0 <= i < self.ids().len() implies #[trigger] self.contents(
        ).dom().contains(self.ids()[i]) by {
            lemma_key_index(s, i);
        }
        assert forall|k: Seq<char>| #[trigger] self.contents().dom().contains(k) implies self.ids(
        ).contains(k) by {
            let i = key_index(s, k);
            assert(self.ids()[i] == k);
        }
    }

    /// An empty store.
    pub fn new() -> (r: Self)
        ensures
            r.wf(),
            r.contents() == Map::<Seq<char>, (Seq<char>, Seq<char>)>::empty(),
            r.ids() == Seq::<Seq<char>>::empty(),
    {
        let r = SsiMemoryStore { records: Vec::new() };
        proof {
            assert(r.contents() =~= Map::<Seq<char>, (Seq<char>, Seq<char>)>::empty());
            assert(r.ids() =~= Seq::<Seq<char>>::empty());
        }
        r
    }

    /// The position of the record keyed by `identity`, if one is stored.
    fn find_index(&self, identity: &String) -> (r: Option<usize>)
        requires
            self.wf(),
        ensures
            match r {
                Some(i) => i < self.records@.len() && self.records@[i as int].id@ == identity@
                    && self.contents().dom().contains(identity@),
                None => !self.contents().dom().contains(identity@),
            },
    {
        let n = self.records.len();
        let mut i: usize = 0;
        while i < n
            invariant
                i <= n,
                n == self.records@.len(),
                self.wf(),
                forall|j: int| 0 <= j < i ==> self.records@[j].id@ != identity@,
            decreases n - i,
        {
            if self.records[i].id == *identity {
                proof {
                    lemma_key_index(self.records@, i as int);
                }
                return Some(i);
            }
            i = i + 1;
        }
        None
    }

    /// Stores or overwrites the record for `identity`: an upsert. Never
    /// fails. A fresh identifier goes to the end of the listing order; an
    /// existing one keeps its place.
    pub fn insert(&mut self, identity: String, ssi: String, secret: String) -> (r: Result<
        (),
        Error,
    >)
        requires
            old(self).wf(),
        ensures
            final(self).wf(),
            r is Ok,
            final(self).contents() == old(self).contents().insert(identity@, (ssi@, secret@)),
            old(self).contents().dom().contains(identity@) ==> final(self).ids() == old(self).ids(),
            !old(self).contents().dom().contains(identity@) ==> final(self).ids() == old(self).ids().push(identity@),
    {
        let ghost s0 = self.records@;
        let rec = IdentityRecord { id: identity, ssi, secret };
        match self.find_index(&rec.id) {
            Some(i) => {
                let ghost k = rec.id@;
                let ghost v = (rec.ssi@, rec.secret@);
                self.records[i] = rec;
                proof {
                    let s1 = self.records@;
                    assert(unique_ids(s1));
                    assert(self.ids() =~= ids_of(s0));
                    assert forall|k2: Seq<char>| true implies #[trigger] has_key(s1, k2) == has_key(
                        s0,
                        k2,
                    ) by {
                        if has_key(s0, k2) {
                            let j = choose|j: int| 0 <= j < s0.len() && s0[j].id@ == k2;
                            assert(s1[j].id@ == k2);
                        }
                        if has_key(s1, k2) {
                            let j = choose|j: int| 0 <= j < s1.len() && s1[j].id@ == k2;
                            assert(s0[j].id@ == k2);
                        }
                    }
                    assert forall|k2: Seq<char>| has_key(s1, k2) && k2 != k implies map_of(s1)[k2]
                        == map_of(s0)[k2] by {
                        let j = key_index(s1, k2);
                        assert(s0[j].id@ == k2);
                        lemma_key_index(s0, j);
                    }
                    lemma_key_index(s1, i as int);
                    assert(map_of(s1) =~= map_of(s0).insert(k, v));
                }
                Ok(())
            },
            None => {
                let ghost k = rec.id@;
                let ghost v = (rec.ssi@, rec.secret@);
                self.records.push(rec);
                proof {
                    let s1 = self.records@;
                    assert forall|i: int, j: int| 0 <= i < j < s1.len() implies s1[i].id@
                        != s1[j].id@ by {
                        if j < s0.len() {
                        } else {
                            assert(s1[j].id@ == k);
                            assert(s0[i].id@ == s1[i].id@);
                            assert(!has_key(s0, s1[i].id@) ==> false);
                        }
                    }
                    assert(self.ids() =~= ids_of(s0).push(k));
                    assert forall|k2: Seq<char>| true implies #[trigger] has_key(s1, k2) == (
                    has_key(s0, k2) || k2 == k) by {
                        if has_key(s0, k2) {
                            let j = choose|j: int| 0 <= j < s0.len() && s0[j].id@ == k2;
                            assert(s1[j].id@ == k2);
                        }
                        if has_key(s1, k2) {
                            let j = choose|j: int| 0 <= j < s1.len() && s1[j].id@ == k2;
                            if j < s0.len() {
                                assert(s0[j].id@ == k2);
                            }
                        }
                        if k2 == k {
                            assert(s1[s1.len() - 1].id@ == k2);
                        }
                    }
                    assert forall|k2: Seq<char>| has_key(s1, k2) && k2 != k implies map_of(s1)[k2]
                        == map_of(s0)[k2] by {
                        let j = key_index(s1, k2);
                        assert(s0[j].id@ == k2);
                        lemma_key_index(s0, j);
                    }
                    lemma_key_index(s1, s1.len() - 1);
                    assert(map_of(s1) =~= map_of(s0).insert(k, v));
                }
                Ok(())
            },
        }
    }

    /// Hands back copies of the descriptor and secret stored under
    /// `identity`, or `UnknownIdentity` when nothing is.
    pub fn get(&self, identity: &str) -> (r: Result<(String, String), Error>)
        requires
            self.wf(),
        ensures
            r is Ok <==> self.contents().dom().contains(identity@),
            r matches Ok(v) ==> (v.0@, v.1@) == self.contents()[identity@],
            r matches Err(e) ==> e matches Error::UnknownIdentity(s) && s@ == identity@,
    {
        let key: String = identity.to_owned();
        match self.find_index(&key) {
            Some(i) => {
                proof {
                    lemma_key_index(self.records@, i as int);
                }
                Ok((self.records[i].ssi.clone(), self.records[i].secret.clone()))
            },
            None => Err(Error::UnknownIdentity(key)),
        }
    }

    /// Drops the record for `identity` and says whether one existed;
    /// removing an absent identifier is not an error.
    pub fn remove(&mut self, identity: &str) -> (r: Result<bool, Error>)
        requires
            old(self).wf(),
        ensures
            final(self).wf(),
            r matches Ok(b) && b == old(self).contents().dom().contains(identity@),
            final(self).contents() == old(self).contents().remove(identity@),
            !old(self).contents().dom().contains(identity@) ==> final(self).ids() == old(self).ids(),
            old(self).contents().dom().contains(identity@) ==> exists|i: int|
                0 <= i < old(self).ids().len() && old(self).ids()[i] == identity@ && final(self).ids() == old(self).ids().remove(i),
    {
        let ghost s0 = self.records@;
        let key: String = identity.to_owned();
        match self.find_index(&key) {
            Some(i) => {
                self.records.remove(i);
                proof {
                    let s1 = self.records@;
                    let k = identity@;
                    assert(unique_ids(s1));
                    assert(self.ids() =~= ids_of(s0).remove(i as int));
                    assert(ids_of(s0)[i as int] == k);
                    assert forall|k2: Seq<char>| true implies #[trigger] has_key(s1, k2) == (
                    has_key(s0, k2) && k2 != k) by {
                        if has_key(s1, k2) {
                            let j = choose|j: int| 0 <= j < s1.len() && s1[j].id@ == k2;
                            if j < i {
                                assert(s0[j].id@ == k2);
                            } else {
                                assert(s0[j + 1].id@ == k2);
                            }
                            if k2 == k {
                                lemma_key_index(s0, i as int);
                                if j < i {
                                    assert(s0[j].id@ == s0[i as int].id@);
                                } else {
                                    assert(s0[j + 1].id@ == s0[i as int].id@);
                                }
                                assert(false);
                            }
                        }
                        if has_key(s0, k2) && k2 != k {
                            let j = choose|j: int| 0 <= j < s0.len() && s0[j].id@ == k2;
                            if j < i {
                                assert(s1[j].id@ == k2);
                            } else {
                                assert(j != i);
                                assert(s1[j - 1].id@ == k2);
                            }
                        }
                    }
                    assert forall|k2: Seq<char>| has_key(s1, k2) implies map_of(s1)[k2] == map_of(
                        s0,
                    )[k2] by {
                        let j = key_index(s1, k2);
                        if j < i {
                            assert(s0[j].id@ == k2);
                            lemma_key_index(s0, j);
                        } else {
                            assert(s0[j + 1].id@ == k2);
                            lemma_key_index(s0, j + 1);
                        }
                    }
                    assert(map_of(s1) =~= map_of(s0).remove(k));
                    assert(old(self).ids()[i as int] == identity@);
                    assert(final(self).ids() == old(self).ids().remove(i as int));
                }
                Ok(true)
            },
            None => {
                proof {
                    assert(self.contents() =~= old(self).contents().remove(identity@));
                }
                Ok(false)
            },
        }
    }

    /// Every stored identifier, in listing order.
    pub fn all_identities(&self) -> (r: Result<Vec<String>, Error>)
        requires
            self.wf(),
        ensures
            r matches Ok(v) && v.deep_view() == self.ids(),
    {
        let n = self.records.len();
        let mut out: Vec<String> = Vec::new();
        let mut i: usize = 0;
        while i < n
            invariant
                i <= n,
                n == self.records@.len(),
                out.deep_view() =~= self.ids().take(i as int),
            decreases n - i,
        {
            let ghost pre = out.deep_view();
            let elem = self.records[i].id.clone();
            proof {
                assert(elem@ == self.ids()[i as int]);
            }
            out.push(elem);
            proof {
                assert(out.deep_view() =~= pre.push(self.ids()[i as int]));
                assert(out.deep_view() =~= self.ids().take(i + 1 as int));
            }
            i = i + 1;
        }
        proof {
            assert(out.deep_view() =~= self.ids());
        }
        Ok(out)
    }

    /// The identifiers of the requested 1-indexed page, and the total page
    /// count `ceil(record count / per_page)`. A page size of zero is
    /// rejected with `InvalidPageSize`.
    pub fn paginated_identities(&self, page: usize, per_page: usize) -> (r: Result<
        (Vec<String>, usize),
        Error,
    >)
        requires
            self.wf(),
            page >= 1,
        ensures
            per_page == 0 <==> r matches Err(Error::InvalidPageSize),
            per_page >= 1 ==> (r matches Ok(p) && p.0.deep_view() == page_slice(
                self.ids(),
                page as nat,
                per_page as nat,
            ) && p.1 == total_pages(self.ids().len(), per_page as nat)),
    {
        if per_page == 0 {
            return Err(Error::InvalidPageSize);
        }
        let n = self.records.len();
        let total: usize = match page_count(n, per_page) {
            Ok(t) => t,
            Err(e) => return Err(e),
        };
        let (start, end) = page_bounds(n, page, per_page);
        let mut out: Vec<String> = Vec::new();
        let mut i: usize = start;
        while i < end
            invariant
                start <= i <= end,
                end <= n,
                n == self.records@.len(),
                out.deep_view() =~= self.ids().subrange(start as int, i as int),
            decreases end - i,
        {
            let ghost pre = out.deep_view();
            let elem = self.records[i].id.clone();
            proof {
                assert(elem@ == self.ids()[i as int]);
            }
            out.push(elem);
            proof {
                assert(out.deep_view() =~= pre.push(self.ids()[i as int]));
                assert(out.deep_view() =~= self.ids().subrange(start as int, i + 1 as int));
            }
            i = i + 1;
        }
        proof {
            assert(page_slice(self.ids(), page as nat, per_page as nat) == self.ids().subrange(
                start as int,
                end as int,
            ));
        }
        Ok((out, total))
    }
}

/// The in-memory backend meets the backend capability contract; its
/// inherent methods say more — that it never fails an operation beyond the
/// defined not-found case.
impl SsiStore for SsiMemoryStore {
    open spec fn wf(&self) -> bool {
        SsiMemoryStore::wf(self)
    }

    open spec fn contents(&self) -> Map<Seq<char>, (Seq<char>, Seq<char>)> {
        SsiMemoryStore::contents(self)
    }

    open spec fn ids(&self) -> Seq<Seq<char>> {
        SsiMemoryStore::ids(self)
    }

    fn insert(&mut self, identity: String, ssi: String, secret: String) -> (r: Result<(), Error>) {
        SsiMemoryStore::insert(self, identity, ssi, secret)
    }

    fn get(&self, identity: &str) -> (r: Result<(String, String), Error>) {
        SsiMemoryStore::get(self, identity)
    }

    fn remove(&mut self, identity: &str) -> (r: Result<bool, Error>) {
        let r = SsiMemoryStore::remove(self, identity);
        proof {
            if SsiMemoryStore::contents(old(self)).dom().contains(identity@) {
                let i = choose|i: int|
                    0 <= i < SsiMemoryStore::ids(old(self)).len() && SsiMemoryStore::ids(old(self))[i]
                        == identity@ && SsiMemoryStore::ids(self) == SsiMemoryStore::ids(
                        old(self),
                    ).remove(i);
                assert(0 <= i < SsiStore::ids(old(self)).len() && SsiStore::ids(old(self))[i]
                    == identity@ && SsiStore::ids(self) == SsiStore::ids(old(self)).remove(i));
            }
        }
        r
    }

    fn paginated_identities(&self, page: usize, per_page: usize) -> (r: Result<
        (Vec<String>, usize),
        Error,
    >) {
        SsiMemoryStore::paginated_identities(self, page, per_page)
    }

    fn all_identities(&self) -> (r: Result<Vec<String>, Error>) {
        SsiMemoryStore::all_identities(self)
    }
}

impl Default for SsiMemoryStore {
    /// An empty store.
    fn default() -> (r: Self)
        ensures
            r.wf(),
            r.contents() == Map::<Seq<char>, (Seq<char>, Seq<char>)>::empty(),
            r.ids() == Seq::<Seq<char>>::empty(),
    {
        SsiMemoryStore::new()
    }
}

} // verus!
