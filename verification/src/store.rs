//! The capability contract every persistence backend meets: insert, get,
//! remove and two listings, uniform across backends. A durable backend may
//! fail with persistence errors, but what any operation does when it
//! succeeds — and that a failed one leaves the records as they were — is
//! fixed here once.

use vstd::prelude::*;

use crate::pagination::page_slice;
use crate::pagination::total_pages;
use crate::Error;

verus! {

pub trait SsiStore: Sized {
    /// The backend's internal consistency.
    spec fn wf(&self) -> bool;

    /// The records as a map from identifier to (descriptor text, secret
    /// text).
    spec fn contents(&self) -> Map<Seq<char>, (Seq<char>, Seq<char>)>;

    /// The stored identifiers, in the backend's stable listing order.
    spec fn ids(&self) -> Seq<Seq<char>>;

    /// Stores or overwrites the record for `identity` — an upsert; a failed
    /// insert leaves the records as they were.
    fn insert(&mut self, identity: String, ssi: String, secret: String) -> (r: Result<(), Error>)
        requires
            old(self).wf(),
        ensures
            final(self).wf(),
            r is Ok ==> final(self).contents() == old(self).contents().insert(
                identity@,
                (ssi@, secret@),
            ),
            r is Ok && old(self).contents().dom().contains(identity@) ==> final(self).ids() == old(self).ids(),
            r is Ok && !old(self).contents().dom().contains(identity@) ==> final(self).ids()
                == old(self).ids().push(identity@),
            r is Err ==> final(self).contents() == old(self).contents() && final(self).ids()
                == old(self).ids(),
    ;

    /// Hands back copies of what is stored under `identity`; absence is the
    /// `UnknownIdentity` error, never some other record.
    fn get(&self, identity: &str) -> (r: Result<(String, String), Error>)
        requires
            self.wf(),
        ensures
            r matches Ok(v) ==> self.contents().dom().contains(identity@) && (v.0@, v.1@)
                == self.contents()[identity@],
            r matches Err(e) ==> (e matches Error::UnknownIdentity(s) ==> s@ == identity@
                && !self.contents().dom().contains(identity@)),
    ;

    /// Drops the record for `identity` and says whether one existed;
    /// removing an absent identifier is not an error, it reports false.
    fn remove(&mut self, identity: &str) -> (r: Result<bool, Error>)
        requires
            old(self).wf(),
        ensures
            final(self).wf(),
            r matches Ok(b) ==> b == old(self).contents().dom().contains(identity@) && final(self).contents() == old(self).contents().remove(identity@),
            r matches Ok(b) && !b ==> final(self).ids() == old(self).ids(),
            r matches Ok(b) && b ==> exists|i: int|
                0 <= i < old(self).ids().len() && old(self).ids()[i] == identity@ && final(self).ids() == old(self).ids().remove(i),
            r is Err ==> final(self).contents() == old(self).contents() && final(self).ids()
                == old(self).ids(),
    ;

    /// The identifiers of the requested 1-indexed page and the total page
    /// count; a page size of zero is rejected with `InvalidPageSize`.
    fn paginated_identities(&self, page: usize, per_page: usize) -> (r: Result<
        (Vec<String>, usize),
        Error,
    >)
        requires
            self.wf(),
            page >= 1,
        ensures
            per_page == 0 ==> r matches Err(Error::InvalidPageSize),
            r matches Ok(p) ==> per_page >= 1 && p.0.deep_view() == page_slice(
                self.ids(),
                page as nat,
                per_page as nat,
            ) && p.1 == total_pages(self.ids().len(), per_page as nat),
    ;

    /// Every stored identifier, in listing order.
    fn all_identities(&self) -> (r: Result<Vec<String>, Error>)
        requires
            self.wf(),
        ensures
            r matches Ok(v) ==> v.deep_view() == self.ids(),
    ;
}

/// Backend-consistency law: the same sequence of operations produces the
/// same outcomes whichever backend runs it. This scenario — store one
/// record in an empty backend, list, remove it, list again — is verified
/// against the backend contract alone, so any backend meeting it that
/// completes the run returns exactly the listed identifier, a true removal,
/// and an empty listing.
pub fn consistency_scenario<S: SsiStore>(
    store: &mut S,
    identity: &str,
    ssi: &str,
    secret: &str,
) -> (r: Result<(Vec<String>, bool, Vec<String>), Error>)
    requires
        old(store).wf(),
        old(store).contents() == Map::<Seq<char>, (Seq<char>, Seq<char>)>::empty(),
        old(store).ids() == Seq::<Seq<char>>::empty(),
    ensures
        final(store).wf(),
        r matches Ok(v) ==> v.0.deep_view() == seq![identity@] && v.1 == true
            && v.2.deep_view() == Seq::<Seq<char>>::empty(),
{
    match store.insert(identity.to_owned(), ssi.to_owned(), secret.to_owned()) {
        Ok(_) => (),
        Err(e) => {
            return Err(e);
        },
    }
    let listed = match store.all_identities() {
        Ok(v) => v,
        Err(e) => {
            return Err(e);
        },
    };
    proof {
        assert(listed.deep_view() =~= seq![identity@]);
    }
    let removed = match store.remove(identity) {
        Ok(b) => b,
        Err(e) => {
            return Err(e);
        },
    };
    let after = match store.all_identities() {
        Ok(v) => v,
        Err(e) => {
            return Err(e);
        },
    };
    proof {
        assert(after.deep_view() =~= Seq::<Seq<char>>::empty());
    }
    Ok((listed, removed, after))
}

} // verus!
