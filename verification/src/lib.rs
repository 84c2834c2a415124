//! Management of self-sovereign identities over pluggable persistence
//! backends.
//!
//! The library keeps identity records — an identifier, a public identity
//! descriptor and an encrypted secret, the latter two held as opaque text —
//! in a store, and states exactly how every operation changes the store and
//! which error each input earns. Key generation, secret encryption and
//! certificate signing belong to an outside identity library that a host
//! program drives; this crate makes every decision around those calls:
//! what is stored, what is looked up, when a revealed key is rejected,
//! and how listings are paginated.

use vstd::prelude::*;

mod memory;
mod pagination;
mod store;

pub use memory::SsiMemoryStore;
pub use pagination::page_bounds;
pub use pagination::page_count;
pub use pagination::page_slice;
pub use pagination::total_pages;
pub use store::consistency_scenario;
pub use store::SsiStore;

verus! {

use vstd::string::StringExecFns;

/// The password under which a secret is concealed when the caller supplies
/// none: the empty string.
pub const DEFAULT_EMPTY_PASSWORD: &'static str = "";

/// The error taxonomy of the library. Backend-native faults arrive here as
/// plain text, never as backend types.
#[derive(Debug)]
pub enum Error {
    /// A query against the durable backend failed.
    Diesel(String),
    /// Applying schema migrations to the durable backend failed.
    DieselMigration(String),
    /// Revealing an encrypted secret failed: wrong password or corrupt
    /// ciphertext, as the carried text tells.
    SecretReveal(String),
    /// The revealed key's public part does not match the stored descriptor:
    /// the password decrypted to a wrong key.
    SignerWrongKey,
    /// Opening a connection to the durable backend failed.
    SqliteConnection(String),
    /// A certificate could not be parsed from text.
    SsiCertParse(String),
    /// An identity descriptor could not be parsed from text.
    SsiParse(String),
    /// A certificate did not verify against the given text.
    VerifyText(String),
    /// A unique identifier could not be parsed from its text form.
    UidParse(String),
    /// No record is stored under the given identifier.
    UnknownIdentity(String),
    /// A paginated listing was requested with a page size of zero.
    InvalidPageSize,
}

impl PartialEq for Error {
    /// Two errors are equal when they are the same kind carrying the same
    /// text.
    fn eq(&self, other: &Self) -> (r: bool) {
        match (self, other) {
            (Error::Diesel(a), Error::Diesel(b)) => *a == *b,
            (Error::DieselMigration(a), Error::DieselMigration(b)) => *a == *b,
            (Error::SecretReveal(a), Error::SecretReveal(b)) => *a == *b,
            (Error::SignerWrongKey, Error::SignerWrongKey) => true,
            (Error::SqliteConnection(a), Error::SqliteConnection(b)) => *a == *b,
            (Error::SsiCertParse(a), Error::SsiCertParse(b)) => *a == *b,
            (Error::SsiParse(a), Error::SsiParse(b)) => *a == *b,
            (Error::VerifyText(a), Error::VerifyText(b)) => *a == *b,
            (Error::UidParse(a), Error::UidParse(b)) => *a == *b,
            (Error::UnknownIdentity(a), Error::UnknownIdentity(b)) => *a == *b,
            (Error::InvalidPageSize, Error::InvalidPageSize) => true,
            _ => false,
        }
    }
}

impl vstd::std_specs::cmp::PartialEqSpecImpl for Error {
    open spec fn obeys_eq_spec() -> bool {
        true
    }

    open spec fn eq_spec(&self, other: &Self) -> bool {
        match (self, other) {
            (Error::Diesel(a), Error::Diesel(b)) => a@ == b@,
            (Error::DieselMigration(a), Error::DieselMigration(b)) => a@ == b@,
            (Error::SecretReveal(a), Error::SecretReveal(b)) => a@ == b@,
            (Error::SignerWrongKey, Error::SignerWrongKey) => true,
            (Error::SqliteConnection(a), Error::SqliteConnection(b)) => a@ == b@,
            (Error::SsiCertParse(a), Error::SsiCertParse(b)) => a@ == b@,
            (Error::SsiParse(a), Error::SsiParse(b)) => a@ == b@,
            (Error::VerifyText(a), Error::VerifyText(b)) => a@ == b@,
            (Error::UidParse(a), Error::UidParse(b)) => a@ == b@,
            (Error::UnknownIdentity(a), Error::UnknownIdentity(b)) => a@ == b@,
            (Error::InvalidPageSize, Error::InvalidPageSize) => true,
            _ => false,
        }
    }
}

impl Eq for Error {

}

/// What revealing an encrypted secret under a password came to: the public
/// part of the revealed key, rendered as text, or the reveal failure.
pub enum RevealOutcome {
    /// The ciphertext decrypted to a key; `public_key` renders its public
    /// part.
    Revealed { public_key: String },
    /// Decryption failed: wrong password or corrupt ciphertext.
    Failed { reason: String },
}

/// The manager: one in-memory store, orchestrated per call; it caches no
/// secret of its own.
pub struct SsiMan {
    store: SsiMemoryStore,
}

impl SsiMan {
    /// No two records share an identifier.
    pub closed spec fn wf(&self) -> bool {
        self.store.wf()
    }

    /// The records as a map from identifier to (descriptor text, secret
    /// text).
    pub closed spec fn contents(&self) -> Map<Seq<char>, (Seq<char>, Seq<char>)> {
        self.store.contents()
    }

    /// The stored identifiers, in listing order.
    pub closed spec fn ids(&self) -> Seq<Seq<char>> {
        self.store.ids()
    }

    /// A manager over a fresh, empty in-memory backend.
    pub fn with_memory() -> (r: Self)
        ensures
            r.wf(),
            r.contents() == Map::<Seq<char>, (Seq<char>, Seq<char>)>::empty(),
            r.ids() == Seq::<Seq<char>>::empty(),
    {
        SsiMan { store: SsiMemoryStore::new() }
    }

    /// Stores the identity material a creation request produced — the public
    /// descriptor and the concealed secret, both as text — under `identity`,
    /// and hands back the descriptor text. An existing record under the same
    /// identifier is overwritten. The in-memory backend never fails this.
    pub fn new_ssi(&mut self, identity: &str, ssi: &str, secret: &str) -> (r: Result<
        String,
        Error,
    >)
        requires
            old(self).wf(),
        ensures
            final(self).wf(),
            r matches Ok(t) && t@ == ssi@,
            final(self).contents() == old(self).contents().insert(identity@, (ssi@, secret@)),
            old(self).contents().dom().contains(identity@) ==> final(self).ids() == old(self).ids(),
            !old(self).contents().dom().contains(identity@) ==> final(self).ids() == old(self).ids().push(identity@),
    {
        let rendered: String = ssi.to_owned();
        match self.store.insert(identity.to_owned(), ssi.to_owned(), secret.to_owned()) {
            Ok(_) => Ok(rendered),
            Err(e) => Err(e),
        }
    }

    /// The material a signing operation starts from: the stored descriptor
    /// and encrypted secret for `identity`, or `UnknownIdentity` when no
    /// record is stored under it.
    pub fn signing_material(&self, identity: &str) -> (r: Result<(String, String), Error>)
        requires
            self.wf(),
        ensures
            r is Ok <==> self.contents().dom().contains(identity@),
            r matches Ok(v) ==> (v.0@, v.1@) == self.contents()[identity@],
            r matches Err(e) ==> e matches Error::UnknownIdentity(s) && s@ == identity@,
    {
        self.store.get(identity)
    }

    /// Drops the record for `identity` and says whether one existed;
    /// removing an absent identifier is not an error.
    pub fn remove(&mut self, identity: &str) -> (r: Result<bool, Error>)
        requires
            old(self).wf(),
        ensures
            final(self).wf(),
            r matches Ok(b) && b == old(self).contents().dom().contains(identity@),
            final(self).contents() == old(self).contents().remove(identity@),
            !old(self).contents().dom().contains(identity@) ==> final(self).ids() == old(self).ids(),
            old(self).contents().dom().contains(identity@) ==> exists|i: int|
                0 <= i < old(self).ids().len() && old(self).ids()[i] == identity@ && final(self).ids() == old(self).ids().remove(i),
    {
        let r = self.store.remove(identity);
        proof {
            if old(self).contents().dom().contains(identity@) {
                let i = choose|i: int|
                    0 <= i < old(self).store.ids().len() && old(self).store.ids()[i] == identity@
                        && self.store.ids() == old(self).store.ids().remove(i);
                assert(0 <= i < old(self).ids().len() && old(self).ids()[i] == identity@
                    && self.ids() == old(self).ids().remove(i));
            }
        }
        r
    }

    /// The identifiers of the requested 1-indexed page, and the total page
    /// count `ceil(record count / per_page)`. A page size of zero is
    /// rejected with `InvalidPageSize`.
    pub fn paginated_identities(&self, page: usize, per_page: usize) -> (r: Result<
        (Vec<String>, usize),
        Error,
    >)
        requires
            self.wf(),
            page >= 1,
        ensures
            per_page == 0 <==> r matches Err(Error::InvalidPageSize),
            per_page >= 1 ==> (r matches Ok(p) && p.0.deep_view() == page_slice(
                self.ids(),
                page as nat,
                per_page as nat,
            ) && p.1 == total_pages(self.ids().len(), per_page as nat)),
    {
        self.store.paginated_identities(page, per_page)
    }

    /// Every stored identifier, in listing order.
    pub fn all_identities(&self) -> (r: Result<Vec<String>, Error>)
        requires
            self.wf(),
        ensures
            r matches Ok(v) && v.deep_view() == self.ids(),
    {
        self.store.all_identities()
    }
}

impl Default for SsiMan {
    /// A manager over a fresh, empty in-memory backend.
    fn default() -> (r: Self)
        ensures
            r.wf(),
            r.contents() == Map::<Seq<char>, (Seq<char>, Seq<char>)>::empty(),
            r.ids() == Seq::<Seq<char>>::empty(),
    {
        SsiMan::with_memory()
    }
}

/// The unique-identifier line a creation request hands to the outside
/// identifier parser: the display name, then the mail address in angle
/// brackets with a `mailto:` scheme.
pub fn uid_string(identity: &str, email: &str) -> (r: String)
    ensures
        r@ == identity@ + " <mailto:"@ + email@ + ">"@,
{
    let mut s: String = identity.to_owned();
    s.append(" <mailto:");
    s.append(email);
    s.append(">");
    s
}

/// The signing decision once the stored secret has been put to the password:
/// a failed reveal is a `SecretReveal` error carrying the reveal's own words;
/// a revealed key whose public part does not render to the stored
/// descriptor's public key is the wrong-password condition `SignerWrongKey`;
/// only a matching key lets signing proceed.
pub fn signing_decision(outcome: RevealOutcome, stored_public_key: &str) -> (r: Result<(), Error>)
    ensures
        r is Ok <==> (outcome matches RevealOutcome::Revealed { public_key } && public_key@
            == stored_public_key@),
        outcome matches RevealOutcome::Failed { reason } ==> (r matches Err(e) && e
            matches Error::SecretReveal(s) && s@ == reason@),
        (outcome matches RevealOutcome::Revealed { public_key } && public_key@
            != stored_public_key@) ==> r matches Err(Error::SignerWrongKey),
{
    match outcome {
        RevealOutcome::Failed { reason } => Err(Error::SecretReveal(reason)),
        RevealOutcome::Revealed { public_key } => {
            let stored: String = stored_public_key.to_owned();
            if public_key == stored {
                Ok(())
            } else {
                Err(Error::SignerWrongKey)
            }
        },
    }
}

/// Round-trip law: in the store state an insert of `id` with descriptor
/// `ssi` and secret `secret` leaves behind, `id` is present and mapped to
/// exactly that pair — so a `get` right after the insert, whose contract
/// returns the mapped pair, hands back what was stored.
pub proof fn lemma_insert_get_round_trip(
    contents: Map<Seq<char>, (Seq<char>, Seq<char>)>,
    id: Seq<char>,
    ssi: Seq<char>,
    secret: Seq<char>,
)
    ensures
        contents.insert(id, (ssi, secret)).dom().contains(id),
        contents.insert(id, (ssi, secret))[id] == (ssi, secret),
{
}

/// Idempotent-removal law: in the store state a removal of `id` leaves
/// behind, `id` is absent — so a second `remove` of the same identifier,
/// whose contract reports presence, returns false, and removing an absent
/// identifier leaves the store as it was.
pub proof fn lemma_remove_twice(contents: Map<Seq<char>, (Seq<char>, Seq<char>)>, id: Seq<char>)
    ensures
        !contents.remove(id).dom().contains(id),
        !contents.dom().contains(id) ==> contents.remove(id) == contents,
{
    if !contents.dom().contains(id) {
        assert(contents.remove(id) =~= contents);
    }
}

} // verus!
