//! The session manager: one connection target, one selected database and
//! collection, idempotent provisioning, and single-field CRUD operations.
//!
//! The manager owns a [`Store`] that models the data reachable through the
//! connection; every operation's effect on it is stated exactly. An operation
//! that needs a selected target fails fast with
//! [`SessionError::PreconditionError`] before touching the store.

use vstd::prelude::*;
use crate::errors::SessionError;
use crate::store::{
    db_names, inserted, match_idx, provisioned, target_coll_names, target_docs,
    with_target_docs, store_wf, DbModel, Store, StoreModel,
};
use crate::store::{lemma_match_idx, lemma_provisioned};
use crate::value::{doc_set, Document, Value};

verus! {

/// Characters allowed in an address scheme.
pub open spec fn is_scheme_char(c: char) -> bool {
    ||| 'a' <= c && c <= 'z'
    ||| 'A' <= c && c <= 'Z'
    ||| '0' <= c && c <= '9'
    ||| c == '+'
    ||| c == '-'
    ||| c == '.'
}

/// Decimal digits.
pub open spec fn is_digit_char(c: char) -> bool {
    '0' <= c && c <= '9'
}

/// Characters allowed in an address host.
pub open spec fn is_host_char(c: char) -> bool {
    c != ':' && c != '/'
}

/// The address splits as `<scheme>://<host>:<port>` with the separators at
/// `i` (the `://`) and `j` (the last `:`): a nonempty scheme before `i`, a
/// nonempty host between, and a nonempty all-digit port after `j`.
pub open spec fn valid_address_split(s: Seq<char>, i: int, j: int) -> bool {
    &&& 1 <= i
    &&& i + 3 < j
    &&& j + 1 < s.len()
    &&& (forall|k: int| 0 <= k < i ==> is_scheme_char(s[k]))
    &&& s[i] == ':'
    &&& s[i + 1] == '/'
    &&& s[i + 2] == '/'
    &&& (forall|k: int| i + 3 <= k < j ==> is_host_char(s[k]))
    &&& s[j] == ':'
    &&& (forall|k: int| j < k < s.len() ==> is_digit_char(s[k]))
}

/// Whether an address has the `<scheme>://<host>:<port>` form.
pub open spec fn valid_address(s: Seq<char>) -> bool {
    exists|i: int, j: int| valid_address_split(s, i, j)
}

/// Whether `c` may appear in an address scheme.
fn scheme_char(c: char) -> (r: bool)
    ensures
        r == is_scheme_char(c),
{
    ('a' <= c && c <= 'z') || ('A' <= c && c <= 'Z') || ('0' <= c && c <= '9') || c == '+' || c
        == '-' || c == '.'
}

/// Whether an address string has the `<scheme>://<host>:<port>` form.
pub fn parse_address(s: &str) -> (r: bool)
    ensures
        r == valid_address(s@),
{
    let n = s.unicode_len();
    // The scheme: a maximal run of scheme characters from the start.
    let mut i: usize = 0;
    while i < n && scheme_char(s.get_char(i))
        invariant
            n == s@.len(),
            0 <= i <= n,
            forall|k: int| 0 <= k < i ==> is_scheme_char(s@[k]),
        decreases n - i,
    {
        i += 1;
    }
    // In any valid split the first separator stands exactly at `i`.
    if i == 0 || i >= n || s.get_char(i) == '/' {
        proof {
            assert forall|a: int, b: int| !valid_address_split(s@, a, b) by {
                if valid_address_split(s@, a, b) {
                    if a < i {
                        assert(is_scheme_char(s@[a]));
                    } else if a > i && i < n {
                        assert(is_scheme_char(s@[i as int]));
                    }
                    assert(a == i);
                    assert(false);
                }
            }
        }
        return false;
    }
    if !(s.get_char(i) == ':') || n - i <= 2 || !(s.get_char(i + 1) == '/') || !(s.get_char(i + 2)
        == '/') {
        proof {
            assert forall|a: int, b: int| !valid_address_split(s@, a, b) by {
                if valid_address_split(s@, a, b) {
                    if a < i {
                        assert(is_scheme_char(s@[a]));
                    } else if a > i {
                        assert(is_scheme_char(s@[i as int]));
                    }
                    assert(a == i);
                    assert(false);
                }
            }
        }
        return false;
    }
    // The host: a maximal run of host characters after the `://`.
    let mut j: usize = i + 3;
    while j < n && !(s.get_char(j) == ':') && !(s.get_char(j) == '/')
        invariant
            n == s@.len(),
            i + 3 <= j <= n,
            i + 2 < n,
            s@[i as int] == ':',
            s@[i + 1] == '/',
            s@[i + 2] == '/',
            forall|k: int| 0 <= k < i ==> is_scheme_char(s@[k]),
            forall|k: int| i + 3 <= k < j ==> is_host_char(s@[k]),
        decreases n - j,
    {
        j += 1;
    }
    // In any valid split the second separator stands exactly at `j`.
    proof {
        assert forall|a: int, b: int|
            valid_address_split(s@, a, b) implies a == i && b == j by {
            if a < i {
                assert(is_scheme_char(s@[a]));
            } else if a > i {
                assert(is_scheme_char(s@[i as int]));
            }
            assert(a == i);
            if b < j {
                assert(is_host_char(s@[b]));
            } else if b > j && j < n {
                assert(is_host_char(s@[j as int]));
            }
            assert(b == j);
        }
    }
    if j >= n || !(s.get_char(j) == ':') || j == i + 3 || j + 1 >= n {
        proof {
            assert forall|a: int, b: int| !valid_address_split(s@, a, b) by {
                if valid_address_split(s@, a, b) {
                    assert(false);
                }
            }
        }
        return false;
    }
    // The port: every remaining character must be a digit.
    let mut k: usize = j + 1;
    while k < n && '0' <= s.get_char(k) && s.get_char(k) <= '9'
        invariant
            n == s@.len(),
            j + 1 <= k <= n,
            forall|q: int| j < q < k ==> is_digit_char(s@[q]),
        decreases n - k,
    {
        k += 1;
    }
    if k < n {
        proof {
            assert(!is_digit_char(s@[k as int]));
            assert forall|a: int, b: int| !valid_address_split(s@, a, b) by {
                if valid_address_split(s@, a, b) {
                    assert(is_digit_char(s@[k as int]));
                    assert(false);
                }
            }
        }
        return false;
    }
    proof {
        assert(valid_address_split(s@, i as int, j as int));
    }
    true
}

/// Decide the outcome of a collection-creation attempt: a failure because the
/// target already exists — the benign race with a concurrent provisioner — is
/// success; any other failure is a provisioning error.
pub fn provision_outcome(create_failed: bool, already_exists: bool) -> (r: Result<
    (),
    SessionError,
>)
    ensures
        r is Ok <==> (!create_failed || already_exists),
        r is Err ==> r == Err::<(), SessionError>(SessionError::ProvisionError),
{
    if create_failed && !already_exists {
        Err(SessionError::ProvisionError)
    } else {
        Ok(())
    }
}

/// A session manager: a connection's reachable data and the selected
/// database and collection names.
///
/// The manager performs no internal locking: selecting a target while other
/// operations run is last-write-wins on the session context, an accepted
/// limitation. Filtered delete and update check for a match and then act,
/// with no transaction between the two steps.
pub struct MongoWrapper {
    pub store: Store,
    pub database_name: String,
    pub collection_name: String,
}

impl MongoWrapper {
    /// The model of the data reachable through this session.
    pub open spec fn store_model(self) -> StoreModel {
        self.store.model()
    }

    /// The selected database name.
    pub open spec fn db_name(self) -> Seq<char> {
        self.database_name@
    }

    /// The selected collection name.
    pub open spec fn coll_name(self) -> Seq<char> {
        self.collection_name@
    }

    /// Whether a database and a collection are selected: both names are
    /// nonempty. Operations on the target are valid only then.
    pub open spec fn is_targeted(self) -> bool {
        self.db_name().len() > 0 && self.coll_name().len() > 0
    }

    /// The selected names are unchanged by an operation.
    pub open spec fn same_target(self, other: MongoWrapper) -> bool {
        self.db_name() == other.db_name() && self.coll_name() == other.coll_name()
    }

    /// Establish a session for `address`, which must have the
    /// `<scheme>://<host>:<port>` form; no database or collection is selected
    /// yet.
    pub fn create_mongo_connection(address: &str) -> (r: Result<MongoWrapper, SessionError>)
        ensures
            r is Ok <==> valid_address(address@),
            match r {
                Ok(w) => {
                    &&& w.store_model().dbs == Seq::<DbModel>::empty()
                    &&& w.db_name() == Seq::<char>::empty()
                    &&& w.coll_name() == Seq::<char>::empty()
                    &&& !w.is_targeted()
                    &&& store_wf(w.store_model())
                },
                Err(e) => e == SessionError::ConnectionError,
            },
    {
        if parse_address(address) {
            Ok(
                MongoWrapper {
                    store: Store::new(),
                    database_name: String::new(),
                    collection_name: String::new(),
                },
            )
        } else {
            Err(SessionError::ConnectionError)
        }
    }

    /// Select the database and collection the following operations act on: a
    /// pure mutation of the session context, no validation of existence.
    pub fn set_database_and_collection_names(&mut self, db_name: &str, coll_name: &str)
        ensures
            final(self).db_name() == db_name@,
            final(self).coll_name() == coll_name@,
            final(self).store == old(self).store,
    {
        self.database_name = db_name.to_owned();
        self.collection_name = coll_name.to_owned();
    }

    /// List the names of all databases.
    pub fn list_databases(&self) -> (r: Result<Vec<String>, SessionError>)
        ensures
            match r {
                Ok(names) => names@.map_values(|s: String| s@) == db_names(self.store_model()),
                Err(_) => false,
            },
    {
        Ok(self.store.database_names())
    }

    /// List the names of the selected database's collections; empty when the
    /// database does not exist yet.
    pub fn list_collections(&self) -> (r: Result<Vec<String>, SessionError>)
        ensures
            match r {
                Ok(names) => self.is_targeted() && names@.map_values(|s: String| s@)
                    == target_coll_names(self.store_model(), self.db_name()),
                Err(e) => e == SessionError::PreconditionError && !self.is_targeted(),
            },
    {
        if self.database_name.as_str().is_empty() || self.collection_name.as_str().is_empty() {
            return Err(SessionError::PreconditionError);
        }
        Ok(self.store.collection_names(self.database_name.as_str()))
    }
}

impl MongoWrapper {
    /// Create the selected database and collection if missing. Safe to call
    /// repeatedly; an existing target is left as it is.
    pub fn initiate_mongo_database(&mut self) -> (r: Result<(), SessionError>)
        ensures
            old(self).same_target(*final(self)),
            !old(self).is_targeted() ==> r == Err::<(), SessionError>(
                SessionError::PreconditionError,
            ) && *final(self) == *old(self),
            old(self).is_targeted() ==> r == Ok::<(), SessionError>(()) && final(self).store_model()
                == provisioned(old(self).store_model(), old(self).db_name(), old(self).coll_name()),
            store_wf(old(self).store_model()) ==> store_wf(final(self).store_model()),
    {
        if self.database_name.as_str().is_empty() || self.collection_name.as_str().is_empty() {
            return Err(SessionError::PreconditionError);
        }
        proof {
            lemma_provisioned(self.store_model(), self.db_name(), self.coll_name());
        }
        self.store.provision(self.database_name.as_str(), self.collection_name.as_str());
        Ok(())
    }

    /// Insert one document into the selected collection, creating the target
    /// if missing.
    pub fn insert_single_document(&mut self, data: Document) -> (r: Result<(), SessionError>)
        ensures
            old(self).same_target(*final(self)),
            !old(self).is_targeted() ==> r == Err::<(), SessionError>(
                SessionError::PreconditionError,
            ) && *final(self) == *old(self),
            old(self).is_targeted() ==> r == Ok::<(), SessionError>(()) && final(self).store_model()
                == inserted(
                old(self).store_model(),
                old(self).db_name(),
                old(self).coll_name(),
                seq![data.model()],
            ),
            store_wf(old(self).store_model()) ==> store_wf(final(self).store_model()),
    {
        if self.database_name.as_str().is_empty() || self.collection_name.as_str().is_empty() {
            return Err(SessionError::PreconditionError);
        }
        proof {
            if store_wf(self.store_model()) {
                lemma_insert_wf(self.store_model(), self.db_name(), self.coll_name(), seq![
                    data.model(),
                ]);
            }
        }
        self.store.insert_one(self.database_name.as_str(), self.collection_name.as_str(), &data);
        Ok(())
    }

    /// Insert each document, in order, into the selected collection, creating
    /// the target if missing.
    pub fn insert_multiple_documents(&mut self, data: Vec<Document>) -> (r: Result<
        (),
        SessionError,
    >)
        ensures
            old(self).same_target(*final(self)),
            !old(self).is_targeted() ==> r == Err::<(), SessionError>(
                SessionError::PreconditionError,
            ) && *final(self) == *old(self),
            old(self).is_targeted() ==> r == Ok::<(), SessionError>(()) && final(self).store_model()
                == inserted(
                old(self).store_model(),
                old(self).db_name(),
                old(self).coll_name(),
                crate::store::docs_model(data@),
            ),
            store_wf(old(self).store_model()) ==> store_wf(final(self).store_model()),
    {
        if self.database_name.as_str().is_empty() || self.collection_name.as_str().is_empty() {
            return Err(SessionError::PreconditionError);
        }
        proof {
            if store_wf(self.store_model()) {
                lemma_insert_wf(
                    self.store_model(),
                    self.db_name(),
                    self.coll_name(),
                    crate::store::docs_model(data@),
                );
            }
        }
        self.store.insert_many(self.database_name.as_str(), self.collection_name.as_str(), &data);
        Ok(())
    }

    /// Find the first document of the selected collection whose field `key`
    /// holds exactly `value`; `NotFoundError` when none matches.
    pub fn search_for_single_document(&self, key: &str, value: &Value) -> (r: Result<
        Document,
        SessionError,
    >)
        ensures
            match r {
                Ok(d) => {
                    &&& self.is_targeted()
                    &&& match_idx(
                        target_docs(self.store_model(), self.db_name(), self.coll_name()),
                        key@,
                        value.model(),
                    ) is Some
                    &&& d.model() == target_docs(
                        self.store_model(),
                        self.db_name(),
                        self.coll_name(),
                    )[match_idx(
                        target_docs(self.store_model(), self.db_name(), self.coll_name()),
                        key@,
                        value.model(),
                    )->0]
                    &&& crate::value::doc_matches(d.model(), key@, value.model())
                },
                Err(e) => {
                    if !self.is_targeted() {
                        e == SessionError::PreconditionError
                    } else {
                        e == SessionError::NotFoundError && match_idx(
                            target_docs(self.store_model(), self.db_name(), self.coll_name()),
                            key@,
                            value.model(),
                        ) is None
                    }
                },
            },
    {
        if self.database_name.as_str().is_empty() || self.collection_name.as_str().is_empty() {
            return Err(SessionError::PreconditionError);
        }
        match self.store.find_first(
            self.database_name.as_str(),
            self.collection_name.as_str(),
            key,
            value,
        ) {
            Some(d) => Ok(d),
            None => Err(SessionError::NotFoundError),
        }
    }

    /// Delete the first document of the selected collection whose field `key`
    /// holds exactly `value`. When none matches, nothing is deleted and
    /// `NotFoundError` is returned.
    pub fn delete_single_document(&mut self, key: &str, value: &Value) -> (r: Result<
        (),
        SessionError,
    >)
        ensures
            old(self).same_target(*final(self)),
            !old(self).is_targeted() ==> r == Err::<(), SessionError>(
                SessionError::PreconditionError,
            ) && *final(self) == *old(self),
            old(self).is_targeted() ==> ({
                let docs0 = target_docs(
                    old(self).store_model(),
                    old(self).db_name(),
                    old(self).coll_name(),
                );
                match match_idx(docs0, key@, value.model()) {
                    Some(i) => r == Ok::<(), SessionError>(()) && final(self).store_model()
                        == with_target_docs(
                        old(self).store_model(),
                        old(self).db_name(),
                        old(self).coll_name(),
                        docs0.remove(i),
                    ),
                    None => r == Err::<(), SessionError>(SessionError::NotFoundError) && *final(self) == *old(self),
                }
            }),
            store_wf(old(self).store_model()) ==> store_wf(final(self).store_model()),
    {
        if self.database_name.as_str().is_empty() || self.collection_name.as_str().is_empty() {
            return Err(SessionError::PreconditionError);
        }
        let ghost m0 = self.store_model();
        let ghost docs0 = target_docs(m0, self.db_name(), self.coll_name());
        let removed = self.store.delete_first(
            self.database_name.as_str(),
            self.collection_name.as_str(),
            key,
            value,
        );
        if removed {
            proof {
                lemma_match_idx(docs0, key@, value.model());
                if store_wf(m0) {
                    let i = match_idx(docs0, key@, value.model())->0;
                    crate::store::lemma_with_target_docs(
                        m0,
                        old(self).db_name(),
                        old(self).coll_name(),
                        docs0.remove(i),
                    );
                }
            }
            Ok(())
        } else {
            Err(SessionError::NotFoundError)
        }
    }

    /// In the first document of the selected collection whose field `key`
    /// holds exactly `value`, set the field `target_field` to `new_value`,
    /// leaving every other field and every other document untouched. When
    /// none matches, nothing is changed and `NotFoundError` is returned.
    pub fn update_single_document(
        &mut self,
        key: &str,
        value: &Value,
        target_field: &str,
        new_value: &Value,
    ) -> (r: Result<(), SessionError>)
        ensures
            old(self).same_target(*final(self)),
            !old(self).is_targeted() ==> r == Err::<(), SessionError>(
                SessionError::PreconditionError,
            ) && *final(self) == *old(self),
            old(self).is_targeted() ==> ({
                let docs0 = target_docs(
                    old(self).store_model(),
                    old(self).db_name(),
                    old(self).coll_name(),
                );
                match match_idx(docs0, key@, value.model()) {
                    Some(i) => r == Ok::<(), SessionError>(()) && final(self).store_model()
                        == with_target_docs(
                        old(self).store_model(),
                        old(self).db_name(),
                        old(self).coll_name(),
                        docs0.update(i, doc_set(docs0[i], target_field@, new_value.model())),
                    ),
                    None => r == Err::<(), SessionError>(SessionError::NotFoundError) && *final(self) == *old(self),
                }
            }),
            store_wf(old(self).store_model()) ==> store_wf(final(self).store_model()),
    {
        if self.database_name.as_str().is_empty() || self.collection_name.as_str().is_empty() {
            return Err(SessionError::PreconditionError);
        }
        let ghost m0 = self.store_model();
        let ghost docs0 = target_docs(m0, self.db_name(), self.coll_name());
        let updated = self.store.update_first(
            self.database_name.as_str(),
            self.collection_name.as_str(),
            key,
            value,
            target_field,
            new_value,
        );
        if updated {
            proof {
                lemma_match_idx(docs0, key@, value.model());
                if store_wf(m0) {
                    let i = match_idx(docs0, key@, value.model())->0;
                    crate::store::lemma_with_target_docs(
                        m0,
                        old(self).db_name(),
                        old(self).coll_name(),
                        docs0.update(i, doc_set(docs0[i], target_field@, new_value.model())),
                    );
                }
            }
            Ok(())
        } else {
            Err(SessionError::NotFoundError)
        }
    }

    /// How many documents the selected collection holds; zero when the target
    /// does not exist yet.
    pub fn count_documents(&self) -> (r: Result<usize, SessionError>)
        ensures
            match r {
                Ok(c) => self.is_targeted() && c == target_docs(
                    self.store_model(),
                    self.db_name(),
                    self.coll_name(),
                ).len(),
                Err(e) => e == SessionError::PreconditionError && !self.is_targeted(),
            },
    {
        if self.database_name.as_str().is_empty() || self.collection_name.as_str().is_empty() {
            return Err(SessionError::PreconditionError);
        }
        Ok(self.store.count_docs(self.database_name.as_str(), self.collection_name.as_str()))
    }
}

/// Insertion keeps well-formedness: provisioning keeps it and the document
/// contents play no part in it.
proof fn lemma_insert_wf(
    m: StoreModel,
    db: Seq<char>,
    coll: Seq<char>,
    docs: Seq<Seq<crate::value::FieldModel>>,
)
    requires
        store_wf(m),
    ensures
        store_wf(inserted(m, db, coll, docs)),
{
    let p = provisioned(m, db, coll);
    lemma_provisioned(m, db, coll);
    crate::store::lemma_with_target_docs(p, db, coll, target_docs(p, db, coll) + docs);
}

} // verus!
