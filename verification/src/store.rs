//! A document store: named databases holding named collections of documents.
//!
//! [`Store`] is the executable store; [`StoreModel`] is its mathematical
//! model. The spec functions here define the exact semantics of provisioning
//! and of single-field filtered reads, deletes, and updates; the executable
//! methods are proved to implement them.

use vstd::prelude::*;
use crate::value::{Document, FieldModel, Value, ValModel, doc_matches, doc_set};

verus! {

/// Model of one collection: its name and its documents, in insertion order.
#[verifier::ext_equal]
pub ghost struct CollModel {
    pub name: Seq<char>,
    pub docs: Seq<Seq<FieldModel>>,
}

/// Model of one database: its name and its collections.
#[verifier::ext_equal]
pub ghost struct DbModel {
    pub name: Seq<char>,
    pub colls: Seq<CollModel>,
}

/// Model of a whole store: its databases.
#[verifier::ext_equal]
pub ghost struct StoreModel {
    pub dbs: Seq<DbModel>,
}

/// One collection: its name and its documents, in insertion order.
pub struct CollectionData {
    pub name: String,
    pub documents: Vec<Document>,
}

/// One database: its name and its collections.
pub struct DatabaseData {
    pub name: String,
    pub collections: Vec<CollectionData>,
}

/// A document store.
pub struct Store {
    pub databases: Vec<DatabaseData>,
}

/// The models of a sequence of documents, in order.
pub open spec fn docs_model(s: Seq<Document>) -> Seq<Seq<FieldModel>> {
    s.map_values(|d: Document| d.model())
}

impl CollectionData {
    /// The mathematical model of this collection.
    pub open spec fn model(self) -> CollModel {
        CollModel { name: self.name@, docs: docs_model(self.documents@) }
    }
}

impl DatabaseData {
    /// The mathematical model of this database.
    pub open spec fn model(self) -> DbModel {
        DbModel {
            name: self.name@,
            colls: self.collections@.map_values(|c: CollectionData| c.model()),
        }
    }
}

impl Store {
    /// The mathematical model of this store.
    pub open spec fn model(self) -> StoreModel {
        StoreModel { dbs: self.databases@.map_values(|d: DatabaseData| d.model()) }
    }
}

/// The database names, in order.
pub open spec fn db_names(m: StoreModel) -> Seq<Seq<char>> {
    m.dbs.map_values(|d: DbModel| d.name)
}

/// The index of the first database named `name`, if any.
pub open spec fn db_idx(m: StoreModel, name: Seq<char>) -> Option<int> {
    db_names(m).index_of_first(name)
}

/// Whether a database named `name` exists.
pub open spec fn has_db(m: StoreModel, name: Seq<char>) -> bool {
    db_idx(m, name) is Some
}

/// The collection names of one database, in order.
pub open spec fn coll_names(d: DbModel) -> Seq<Seq<char>> {
    d.colls.map_values(|c: CollModel| c.name)
}

/// The index of the first collection named `name` in a database, if any.
pub open spec fn coll_idx(d: DbModel, name: Seq<char>) -> Option<int> {
    coll_names(d).index_of_first(name)
}

/// Whether the database has a collection named `name`.
pub open spec fn has_coll(d: DbModel, name: Seq<char>) -> bool {
    coll_idx(d, name) is Some
}

/// Whether database `db` exists and holds a collection `coll`.
pub open spec fn has_target(m: StoreModel, db: Seq<char>, coll: Seq<char>) -> bool {
    match db_idx(m, db) {
        Some(i) => has_coll(m.dbs[i], coll),
        None => false,
    }
}

/// The collection names of database `db`, or empty if it does not exist.
pub open spec fn target_coll_names(m: StoreModel, db: Seq<char>) -> Seq<Seq<char>> {
    match db_idx(m, db) {
        Some(i) => coll_names(m.dbs[i]),
        None => Seq::empty(),
    }
}

/// The documents of collection `coll` of database `db`, or empty if either
/// does not exist.
pub open spec fn target_docs(m: StoreModel, db: Seq<char>, coll: Seq<char>) -> Seq<
    Seq<FieldModel>,
> {
    match db_idx(m, db) {
        Some(i) => match coll_idx(m.dbs[i], coll) {
            Some(j) => m.dbs[i].colls[j].docs,
            None => Seq::empty(),
        },
        None => Seq::empty(),
    }
}

/// The store after the database `db` and its collection `coll` are created if
/// missing; nothing else changes. Creating a missing database creates the
/// collection with it.
pub open spec fn provisioned(m: StoreModel, db: Seq<char>, coll: Seq<char>) -> StoreModel {
    match db_idx(m, db) {
        None => StoreModel {
            dbs: m.dbs.push(
                DbModel { name: db, colls: seq![CollModel { name: coll, docs: Seq::empty() }] },
            ),
        },
        Some(i) => {
            if has_coll(m.dbs[i], coll) {
                m
            } else {
                StoreModel {
                    dbs: m.dbs.update(
                        i,
                        DbModel {
                            name: m.dbs[i].name,
                            colls: m.dbs[i].colls.push(
                                CollModel { name: coll, docs: Seq::empty() },
                            ),
                        },
                    ),
                }
            }
        }
    }
}

/// The store with the documents of an existing collection `coll` of an
/// existing database `db` replaced by `docs`.
pub open spec fn with_target_docs(
    m: StoreModel,
    db: Seq<char>,
    coll: Seq<char>,
    docs: Seq<Seq<FieldModel>>,
) -> StoreModel
    recommends
        has_target(m, db, coll),
{
    let i = db_idx(m, db)->0;
    let j = coll_idx(m.dbs[i], coll)->0;
    StoreModel {
        dbs: m.dbs.update(
            i,
            DbModel {
                name: m.dbs[i].name,
                colls: m.dbs[i].colls.update(
                    j,
                    CollModel { name: m.dbs[i].colls[j].name, docs },
                ),
            },
        ),
    }
}

/// The store after `docs` are appended to collection `coll` of database `db`,
/// both created first if missing.
pub open spec fn inserted(
    m: StoreModel,
    db: Seq<char>,
    coll: Seq<char>,
    docs: Seq<Seq<FieldModel>>,
) -> StoreModel {
    let p = provisioned(m, db, coll);
    with_target_docs(p, db, coll, target_docs(p, db, coll) + docs)
}

/// The index of the first document whose field `name` holds `v`, if any.
pub open spec fn match_idx(
    docs: Seq<Seq<FieldModel>>,
    name: Seq<char>,
    v: ValModel,
) -> Option<int> {
    docs.map_values(|d: Seq<FieldModel>| doc_matches(d, name, v)).index_of_first(true)
}

/// Database and collection names are unique.
pub open spec fn store_wf(m: StoreModel) -> bool {
    &&& forall|i: int, j: int|
        0 <= i < j < m.dbs.len() ==> m.dbs[i].name != m.dbs[j].name
    &&& forall|i: int, j: int, k: int|
        0 <= i < m.dbs.len() && 0 <= j < k < m.dbs[i].colls.len()
            ==> (#[trigger] m.dbs[i].colls[j]).name != (#[trigger] m.dbs[i].colls[k]).name
}

/// What `db_idx` returns: the first index whose database is named `name`, or
/// `None` when none is.
pub proof fn lemma_db_idx(m: StoreModel, name: Seq<char>)
    ensures
        match db_idx(m, name) {
            Some(i) => {
                &&& 0 <= i < m.dbs.len()
                &&& m.dbs[i].name == name
                &&& forall|j: int| 0 <= j < i ==> m.dbs[j].name != name
            },
            None => forall|j: int| 0 <= j < m.dbs.len() ==> m.dbs[j].name != name,
        },
{
    let names = db_names(m);
    names.index_of_first_ensures(name);
    match db_idx(m, name) {
        Some(i) => {
            assert(names[i] == m.dbs[i].name);
            assert forall|j: int| 0 <= j < i implies m.dbs[j].name != name by {
                assert(names[j] == m.dbs[j].name);
            }
        }
        None => {
            assert forall|j: int| 0 <= j < m.dbs.len() implies m.dbs[j].name != name by {
                assert(names[j] == m.dbs[j].name);
            }
        }
    }
}

/// What `coll_idx` returns: the first index whose collection is named `name`,
/// or `None` when none is.
pub proof fn lemma_coll_idx(d: DbModel, name: Seq<char>)
    ensures
        match coll_idx(d, name) {
            Some(i) => {
                &&& 0 <= i < d.colls.len()
                &&& d.colls[i].name == name
                &&& forall|j: int| 0 <= j < i ==> d.colls[j].name != name
            },
            None => forall|j: int| 0 <= j < d.colls.len() ==> d.colls[j].name != name,
        },
{
    let names = coll_names(d);
    names.index_of_first_ensures(name);
    match coll_idx(d, name) {
        Some(i) => {
            assert(names[i] == d.colls[i].name);
            assert forall|j: int| 0 <= j < i implies d.colls[j].name != name by {
                assert(names[j] == d.colls[j].name);
            }
        }
        None => {
            assert forall|j: int| 0 <= j < d.colls.len() implies d.colls[j].name != name by {
                assert(names[j] == d.colls[j].name);
            }
        }
    }
}

/// What `match_idx` returns: the first index whose document matches the
/// filter, or `None` when none does.
pub proof fn lemma_match_idx(docs: Seq<Seq<FieldModel>>, name: Seq<char>, v: ValModel)
    ensures
        match match_idx(docs, name, v) {
            Some(i) => {
                &&& 0 <= i < docs.len()
                &&& doc_matches(docs[i], name, v)
                &&& forall|j: int| 0 <= j < i ==> !doc_matches(docs[j], name, v)
            },
            None => forall|j: int| 0 <= j < docs.len() ==> !doc_matches(docs[j], name, v),
        },
{
    let flags = docs.map_values(|d: Seq<FieldModel>| doc_matches(d, name, v));
    flags.index_of_first_ensures(true);
    match match_idx(docs, name, v) {
        Some(i) => {
            assert(flags[i] == doc_matches(docs[i], name, v));
            assert forall|j: int| 0 <= j < i implies !doc_matches(docs[j], name, v) by {
                assert(flags[j] == doc_matches(docs[j], name, v));
            }
        }
        None => {
            assert forall|j: int| 0 <= j < docs.len() implies !doc_matches(
                docs[j],
                name,
                v,
            ) by {
                assert(flags[j] == doc_matches(docs[j], name, v));
            }
        }
    }
}

/// Provisioning an existing target changes nothing.
pub proof fn lemma_provision_noop(m: StoreModel, db: Seq<char>, coll: Seq<char>)
    requires
        has_target(m, db, coll),
    ensures
        provisioned(m, db, coll) == m,
{
}

/// Replacing a target's documents by what they already are changes nothing.
pub proof fn lemma_with_self(m: StoreModel, db: Seq<char>, coll: Seq<char>)
    requires
        has_target(m, db, coll),
    ensures
        with_target_docs(m, db, coll, target_docs(m, db, coll)) == m,
{
    let i = db_idx(m, db)->0;
    let j = coll_idx(m.dbs[i], coll)->0;
    lemma_db_idx(m, db);
    lemma_coll_idx(m.dbs[i], coll);
    let m2 = with_target_docs(m, db, coll, target_docs(m, db, coll));
    assert(m2.dbs[i].colls[j] =~~= m.dbs[i].colls[j]);
    assert(m2.dbs[i].colls =~~= m.dbs[i].colls);
    assert(m2.dbs[i] =~~= m.dbs[i]);
    assert(m2.dbs =~~= m.dbs);
    assert(m2 =~~= m);
}

/// Replacing a target's documents twice keeps only the second replacement.
pub proof fn lemma_with_overwrite(
    m: StoreModel,
    db: Seq<char>,
    coll: Seq<char>,
    x: Seq<Seq<FieldModel>>,
    y: Seq<Seq<FieldModel>>,
)
    requires
        has_target(m, db, coll),
    ensures
        with_target_docs(with_target_docs(m, db, coll, x), db, coll, y) == with_target_docs(
            m,
            db,
            coll,
            y,
        ),
{
    let m2 = with_target_docs(m, db, coll, x);
    let i = db_idx(m, db)->0;
    let j = coll_idx(m.dbs[i], coll)->0;
    lemma_db_idx(m, db);
    lemma_coll_idx(m.dbs[i], coll);
    lemma_with_target_docs(m, db, coll, x);
    assert(db_idx(m2, db) == db_idx(m, db));
    assert(coll_names(m2.dbs[i]) == coll_names(m.dbs[i]));
    assert(coll_idx(m2.dbs[i], coll) == coll_idx(m.dbs[i], coll));
    let m3 = with_target_docs(m2, db, coll, y);
    let m4 = with_target_docs(m, db, coll, y);
    assert(m2.dbs[i].colls[j].name == m.dbs[i].colls[j].name);
    assert(m3.dbs[i].colls =~~= m4.dbs[i].colls);
    assert(m3.dbs[i] =~~= m4.dbs[i]);
    assert(m3.dbs =~~= m4.dbs);
    assert(m3 =~~= m4);
}

/// Inserting `a` and then `b` is inserting `a + b`.
pub proof fn lemma_inserted_append(
    m: StoreModel,
    db: Seq<char>,
    coll: Seq<char>,
    a: Seq<Seq<FieldModel>>,
    b: Seq<Seq<FieldModel>>,
)
    ensures
        inserted(inserted(m, db, coll, a), db, coll, b) == inserted(m, db, coll, a + b),
{
    let p = provisioned(m, db, coll);
    lemma_provisioned(m, db, coll);
    let base = target_docs(p, db, coll);
    let m1 = with_target_docs(p, db, coll, base + a);
    lemma_with_target_docs(p, db, coll, base + a);
    // The target still exists after the replacement.
    let i = db_idx(p, db)->0;
    lemma_db_idx(p, db);
    assert(db_idx(m1, db) == db_idx(p, db));
    assert(coll_names(m1.dbs[i]) == coll_names(p.dbs[i]));
    assert(coll_idx(m1.dbs[i], coll) == coll_idx(p.dbs[i], coll));
    assert(has_target(m1, db, coll));
    lemma_provision_noop(m1, db, coll);
    assert(target_docs(m1, db, coll) == base + a);
    lemma_with_overwrite(p, db, coll, base + a, (base + a) + b);
    assert((base + a) + b =~= base + (a + b));
    assert(inserted(inserted(m, db, coll, a), db, coll, b) == with_target_docs(
        p,
        db,
        coll,
        base + (a + b),
    ));
}

/// A store whose database names and collection names are unchanged keeps
/// `store_wf`.
pub proof fn lemma_wf_same_names(m1: StoreModel, m2: StoreModel)
    requires
        store_wf(m1),
        m2.dbs.len() == m1.dbs.len(),
        forall|i: int| 0 <= i < m1.dbs.len() ==> m2.dbs[i].name == m1.dbs[i].name,
        forall|i: int|
            0 <= i < m1.dbs.len() ==> coll_names(#[trigger] m2.dbs[i]) == coll_names(m1.dbs[i]),
    ensures
        store_wf(m2),
{
    assert forall|i: int, j: int, k: int|
        0 <= i < m2.dbs.len() && 0 <= j < k < m2.dbs[i].colls.len() implies (
    #[trigger] m2.dbs[i].colls[j]).name != (#[trigger] m2.dbs[i].colls[k]).name by {
        assert(coll_names(m2.dbs[i]).len() == m2.dbs[i].colls.len());
        assert(coll_names(m1.dbs[i]).len() == m1.dbs[i].colls.len());
        assert(m2.dbs[i].colls[j].name == coll_names(m2.dbs[i])[j]);
        assert(m2.dbs[i].colls[k].name == coll_names(m2.dbs[i])[k]);
        assert(coll_names(m1.dbs[i])[j] == m1.dbs[i].colls[j].name);
        assert(coll_names(m1.dbs[i])[k] == m1.dbs[i].colls[k].name);
    }
}

/// What provisioning does: the target exists afterwards, well-formedness is
/// kept, the target's documents are kept (or empty when the target was
/// missing), and every database name keeps its position.
pub proof fn lemma_provisioned(m: StoreModel, db: Seq<char>, coll: Seq<char>)
    ensures
        has_target(provisioned(m, db, coll), db, coll),
        store_wf(m) ==> store_wf(provisioned(m, db, coll)),
        target_docs(provisioned(m, db, coll), db, coll) == if has_target(m, db, coll) {
            target_docs(m, db, coll)
        } else {
            Seq::<Seq<FieldModel>>::empty()
        },
        db_names(provisioned(m, db, coll)) == if has_db(m, db) {
            db_names(m)
        } else {
            db_names(m).push(db)
        },
        has_db(m, db) ==> db_idx(provisioned(m, db, coll), db) == db_idx(m, db),
{
    let p = provisioned(m, db, coll);
    lemma_db_idx(m, db);
    match db_idx(m, db) {
        None => {
            // A fresh database holding the fresh collection is appended.
            assert(db_names(p) =~= db_names(m).push(db));
            p.dbs.map_values(|d: DbModel| d.name).index_of_first_ensures(db);
            lemma_db_idx(p, db);
            match db_idx(p, db) {
                Some(i) => {
                    assert(p.dbs[p.dbs.len() - 1].name == db);
                    assert(i == p.dbs.len() - 1);
                    lemma_coll_idx(p.dbs[i], coll);
                    assert(coll_names(p.dbs[i]) =~= seq![coll]);
                    assert(p.dbs[i].colls[0].name == coll);
                    match coll_idx(p.dbs[i], coll) {
                        Some(j) => {
                            assert(j == 0);
                            assert(target_docs(p, db, coll) == Seq::<Seq<FieldModel>>::empty());
                        }
                        None => {
                            assert(false);
                        }
                    }
                }
                None => {
                    assert(p.dbs[p.dbs.len() - 1].name == db);
                    assert(false);
                }
            }
            if store_wf(m) {
                assert forall|i: int, j: int|
                    0 <= i < j < p.dbs.len() implies p.dbs[i].name != p.dbs[j].name by {
                    if j == p.dbs.len() - 1 {
                        assert(p.dbs[i].name == m.dbs[i].name);
                    }
                }
                assert forall|i: int, j: int, k: int|
                    0 <= i < p.dbs.len() && 0 <= j < k < p.dbs[i].colls.len() implies (
                #[trigger] p.dbs[i].colls[j]).name != (#[trigger] p.dbs[i].colls[k]).name by {
                    if i < p.dbs.len() - 1 {
                        assert(p.dbs[i] == m.dbs[i]);
                    } else {
                        assert(p.dbs[i].colls.len() == 1);
                    }
                }
                assert(store_wf(p));
            }
        }
        Some(i) => {
            lemma_coll_idx(m.dbs[i], coll);
            if has_coll(m.dbs[i], coll) {
                assert(p == m);
            } else {
                // The fresh collection is appended to the existing database.
                assert(db_names(p) =~= db_names(m));
                assert(db_idx(p, db) == db_idx(m, db));
                let d2 = p.dbs[i];
                assert(coll_names(d2) =~= coll_names(m.dbs[i]).push(coll));
                lemma_coll_idx(d2, coll);
                coll_names(d2).index_of_first_ensures(coll);
                match coll_idx(d2, coll) {
                    Some(j) => {
                        assert(d2.colls[d2.colls.len() - 1].name == coll);
                        assert forall|q: int|
                            0 <= q < d2.colls.len() - 1 implies d2.colls[q].name != coll by {
                            assert(d2.colls[q] == m.dbs[i].colls[q]);
                            assert(coll_names(m.dbs[i])[q] == m.dbs[i].colls[q].name);
                        }
                        assert(j == d2.colls.len() - 1);
                        assert(target_docs(p, db, coll) == Seq::<Seq<FieldModel>>::empty());
                    }
                    None => {
                        assert(d2.colls[d2.colls.len() - 1].name == coll);
                        assert(false);
                    }
                }
                if store_wf(m) {
                    assert forall|a: int, b: int|
                        0 <= a < b < p.dbs.len() implies p.dbs[a].name != p.dbs[b].name by {
                        assert(p.dbs[a].name == m.dbs[a].name);
                        assert(p.dbs[b].name == m.dbs[b].name);
                    }
                    assert forall|a: int, j: int, k: int|
                        0 <= a < p.dbs.len() && 0 <= j < k < p.dbs[a].colls.len() implies (
                    #[trigger] p.dbs[a].colls[j]).name != (#[trigger] p.dbs[a].colls[k]).name by {
                        if a != i {
                            assert(p.dbs[a] == m.dbs[a]);
                        } else {
                            assert forall|q: int|
                                0 <= q < m.dbs[i].colls.len() implies #[trigger] p.dbs[i].colls[q]
                                == m.dbs[i].colls[q] by {}
                            if k < p.dbs[i].colls.len() - 1 {
                            } else {
                                assert(p.dbs[i].colls[k].name == coll);
                                assert(m.dbs[i].colls[j].name != coll);
                            }
                        }
                    }
                    assert(store_wf(p));
                }
            }
        }
    }
}

/// Provisioning is idempotent: provisioning an already provisioned target
/// changes nothing.
pub proof fn lemma_provision_idempotent(m: StoreModel, db: Seq<char>, coll: Seq<char>)
    ensures
        provisioned(provisioned(m, db, coll), db, coll) == provisioned(m, db, coll),
{
    let p = provisioned(m, db, coll);
    lemma_provisioned(m, db, coll);
    lemma_db_idx(p, db);
}

/// What replacing a target's documents does: the shape of the store — every
/// database name, every collection name — is unchanged; only the target's
/// documents become `docs`.
pub proof fn lemma_with_target_docs(
    m: StoreModel,
    db: Seq<char>,
    coll: Seq<char>,
    docs: Seq<Seq<FieldModel>>,
)
    requires
        has_target(m, db, coll),
    ensures
        with_target_docs(m, db, coll, docs).dbs.len() == m.dbs.len(),
        forall|i: int|
            0 <= i < m.dbs.len() ==> (#[trigger] with_target_docs(m, db, coll, docs).dbs[i]).name
                == m.dbs[i].name,
        forall|i: int|
            0 <= i < m.dbs.len() ==> coll_names(
                #[trigger] with_target_docs(m, db, coll, docs).dbs[i],
            ) == coll_names(m.dbs[i]),
        db_names(with_target_docs(m, db, coll, docs)) == db_names(m),
        target_docs(with_target_docs(m, db, coll, docs), db, coll) == docs,
        store_wf(m) ==> store_wf(with_target_docs(m, db, coll, docs)),
{
    let m2 = with_target_docs(m, db, coll, docs);
    let i = db_idx(m, db)->0;
    let j = coll_idx(m.dbs[i], coll)->0;
    lemma_db_idx(m, db);
    lemma_coll_idx(m.dbs[i], coll);
    assert forall|a: int|
        0 <= a < m.dbs.len() implies coll_names(#[trigger] m2.dbs[a]) == coll_names(
        m.dbs[a],
    ) by {
        if a == i {
            assert(coll_names(m2.dbs[a]) =~= coll_names(m.dbs[a]));
        }
    }
    assert(db_names(m2) =~= db_names(m));
    assert(db_idx(m2, db) == db_idx(m, db));
    assert(coll_names(m2.dbs[i]) == coll_names(m.dbs[i]));
    assert(coll_idx(m2.dbs[i], coll) == coll_idx(m.dbs[i], coll));
    assert(target_docs(m2, db, coll) == docs);
    if store_wf(m) {
        lemma_wf_same_names(m, m2);
    }
}

impl Store {
    /// An empty store: no databases.
    pub fn new() -> (r: Store)
        ensures
            r.model().dbs == Seq::<DbModel>::empty(),
            store_wf(r.model()),
    {
        let r = Store { databases: Vec::new() };
        proof {
            assert(r.model().dbs =~= Seq::<DbModel>::empty());
        }
        r
    }

    /// The position of the first database named `name`, if any.
    fn find_db(&self, name: &str) -> (r: Option<usize>)
        ensures
            match r {
                Some(i) => i < self.databases@.len() && db_idx(self.model(), name@) == Some(
                    i as int,
                ),
                None => db_idx(self.model(), name@) is None,
            },
    {
        proof {
            lemma_db_idx(self.model(), name@);
        }
        let owned: String = name.to_owned();
        let n = self.databases.len();
        let mut i: usize = 0;
        while i < n
            invariant
                n == self.databases@.len(),
                0 <= i <= n,
                owned@ == name@,
                forall|j: int| 0 <= j < i ==> self.model().dbs[j].name != name@,
                self.model().dbs.len() == n,
                forall|k: int| 0 <= k < n ==> self.model().dbs[k] == self.databases@[k].model(),
                match db_idx(self.model(), name@) {
                    Some(fi) => {
                        &&& 0 <= fi < n
                        &&& self.model().dbs[fi].name == name@
                        &&& forall|j: int| 0 <= j < fi ==> self.model().dbs[j].name != name@
                    },
                    None => forall|j: int| 0 <= j < n ==> self.model().dbs[j].name != name@,
                },
            decreases n - i,
        {
            if self.databases[i].name == owned {
                proof {
                    assert(self.model().dbs[i as int].name == name@);
                    assert(db_idx(self.model(), name@) == Some(i as int));
                }
                return Some(i);
            }
            i += 1;
        }
        None
    }

    /// The database names, in order.
    pub fn database_names(&self) -> (r: Vec<String>)
        ensures
            r@.map_values(|s: String| s@) == db_names(self.model()),
    {
        let n = self.databases.len();
        let mut out: Vec<String> = Vec::new();
        let mut i: usize = 0;
        while i < n
            invariant
                n == self.databases@.len(),
                0 <= i <= n,
                out@.len() == i,
                forall|j: int| 0 <= j < i ==> out@[j]@ == self.databases@[j].name@,
            decreases n - i,
        {
            out.push(self.databases[i].name.clone());
            i += 1;
        }
        proof {
            assert(out@.map_values(|s: String| s@) =~= db_names(self.model()));
        }
        out
    }

    /// The collection names of database `db`, in order; empty when the
    /// database does not exist.
    pub fn collection_names(&self, db: &str) -> (r: Vec<String>)
        ensures
            r@.map_values(|s: String| s@) == target_coll_names(self.model(), db@),
    {
        match self.find_db(db) {
            None => {
                let out: Vec<String> = Vec::new();
                proof {
                    assert(out@.map_values(|s: String| s@) =~= target_coll_names(
                        self.model(),
                        db@,
                    ));
                }
                out
            }
            Some(di) => {
                let colls = &self.databases[di].collections;
                let n = colls.len();
                let mut out: Vec<String> = Vec::new();
                let mut i: usize = 0;
                while i < n
                    invariant
                        n == colls@.len(),
                        0 <= i <= n,
                        out@.len() == i,
                        forall|j: int| 0 <= j < i ==> out@[j]@ == colls@[j].name@,
                    decreases n - i,
                {
                    out.push(colls[i].name.clone());
                    i += 1;
                }
                proof {
                    assert(self.model().dbs[di as int] == self.databases@[di as int].model());
                    assert(out@.map_values(|s: String| s@) =~= target_coll_names(
                        self.model(),
                        db@,
                    ));
                }
                out
            }
        }
    }

    /// How many documents collection `coll` of database `db` holds; zero when
    /// either does not exist.
    pub fn count_docs(&self, db: &str, coll: &str) -> (r: usize)
        ensures
            r == target_docs(self.model(), db@, coll@).len(),
    {
        match self.find_db(db) {
            None => 0,
            Some(di) => {
                proof {
                    assert(self.model().dbs[di as int] == self.databases@[di as int].model());
                }
                match find_coll(&self.databases[di], coll) {
                    None => 0,
                    Some(ci) => {
                        proof {
                            assert(self.model().dbs[di as int].colls[ci as int]
                                == self.databases@[di as int].collections@[ci as int].model());
                        }
                        self.databases[di].collections[ci].documents.len()
                    }
                }
            }
        }
    }

    /// Create database `db` and its collection `coll` if missing; nothing
    /// else changes. Safe to call repeatedly.
    pub fn provision(&mut self, db: &str, coll: &str)
        ensures
            final(self).model() == provisioned(old(self).model(), db@, coll@),
    {
        proof {
            lemma_db_idx(old(self).model(), db@);
        }
        match self.find_db(db) {
            None => {
                let c = CollectionData { name: coll.to_owned(), documents: Vec::new() };
                let mut colls: Vec<CollectionData> = Vec::new();
                colls.push(c);
                let d = DatabaseData { name: db.to_owned(), collections: colls };
                proof {
                    assert(d.model().colls =~~= seq![
                        CollModel { name: coll@, docs: Seq::empty() },
                    ]);
                }
                self.databases.push(d);
                proof {
                    assert(self.model().dbs =~~= provisioned(old(self).model(), db@, coll@).dbs);
                    assert(self.model() =~~= provisioned(old(self).model(), db@, coll@));
                }
            }
            Some(di) => {
                proof {
                    assert(self.model().dbs[di as int] == self.databases@[di as int].model());
                    lemma_coll_idx(self.model().dbs[di as int], coll@);
                }
                match find_coll(&self.databases[di], coll) {
                    Some(_) => {
                        proof {
                            assert(has_coll(old(self).model().dbs[di as int], coll@));
                            assert(self.model() == provisioned(old(self).model(), db@, coll@));
                        }
                    }
                    None => {
                        let c = CollectionData { name: coll.to_owned(), documents: Vec::new() };
                        self.databases[di].collections.push(c);
                        proof {
                            let m0 = old(self).model();
                            let p = provisioned(m0, db@, coll@);
                            let di0 = di as int;
                            assert(self.databases@[di0].model().colls =~~= m0.dbs[di0].colls.push(
                                CollModel { name: coll@, docs: Seq::empty() },
                            ));
                            assert(self.databases@[di0].model() =~~= p.dbs[di0]);
                            assert(self.model().dbs =~~= p.dbs);
                            assert(self.model() =~~= p);
                        }
                    }
                }
            }
        }
    }
}

impl Store {
    /// The positions of database `db` and its collection `coll`, if both
    /// exist.
    fn find_target(&self, db: &str, coll: &str) -> (r: Option<(usize, usize)>)
        ensures
            match r {
                Some(p) => {
                    &&& p.0 < self.databases@.len()
                    &&& p.1 < self.databases@[p.0 as int].collections@.len()
                    &&& db_idx(self.model(), db@) == Some(p.0 as int)
                    &&& coll_idx(self.model().dbs[p.0 as int], coll@) == Some(p.1 as int)
                    &&& has_target(self.model(), db@, coll@)
                    &&& target_docs(self.model(), db@, coll@) == docs_model(
                        self.databases@[p.0 as int].collections@[p.1 as int].documents@,
                    )
                },
                None => {
                    &&& !has_target(self.model(), db@, coll@)
                    &&& target_docs(self.model(), db@, coll@) == Seq::<Seq<FieldModel>>::empty()
                },
            },
    {
        match self.find_db(db) {
            None => None,
            Some(di) => {
                proof {
                    assert(self.model().dbs[di as int] == self.databases@[di as int].model());
                }
                match find_coll(&self.databases[di], coll) {
                    None => None,
                    Some(ci) => {
                        proof {
                            assert(self.model().dbs[di as int].colls[ci as int]
                                == self.databases@[di as int].collections@[ci as int].model());
                        }
                        Some((di, ci))
                    }
                }
            }
        }
    }

    /// The first document of collection `coll` of database `db` whose field
    /// `field` holds exactly `v`, if any.
    pub fn find_first(&self, db: &str, coll: &str, field: &str, v: &Value) -> (r: Option<
        Document,
    >)
        ensures
            match r {
                Some(d) => {
                    &&& match_idx(target_docs(self.model(), db@, coll@), field@, v.model())
                        is Some
                    &&& d.model() == target_docs(self.model(), db@, coll@)[match_idx(
                        target_docs(self.model(), db@, coll@),
                        field@,
                        v.model(),
                    )->0]
                    &&& doc_matches(d.model(), field@, v.model())
                },
                None => match_idx(target_docs(self.model(), db@, coll@), field@, v.model())
                    is None,
            },
    {
        let ghost docs_m = target_docs(self.model(), db@, coll@);
        proof {
            lemma_match_idx(docs_m, field@, v.model());
        }
        match self.find_target(db, coll) {
            None => None,
            Some((di, ci)) => {
                let docs = &self.databases[di].collections[ci].documents;
                let n = docs.len();
                let mut k: usize = 0;
                while k < n
                    invariant
                        n == docs@.len(),
                        0 <= k <= n,
                        docs_m == docs_model(docs@),
                        docs_m == target_docs(self.model(), db@, coll@),
                        docs_m.len() == n,
                        forall|j: int| 0 <= j < n ==> docs_m[j] == docs@[j].model(),
                        forall|j: int| 0 <= j < k ==> !doc_matches(docs_m[j], field@, v.model()),
                        match match_idx(docs_m, field@, v.model()) {
                            Some(fi) => {
                                &&& 0 <= fi < n
                                &&& doc_matches(docs_m[fi], field@, v.model())
                                &&& forall|j: int|
                                    0 <= j < fi ==> !doc_matches(docs_m[j], field@, v.model())
                            },
                            None => forall|j: int|
                                0 <= j < n ==> !doc_matches(docs_m[j], field@, v.model()),
                        },
                    decreases n - k,
                {
                    if docs[k].matches_field(field, v) {
                        proof {
                            assert(doc_matches(docs_m[k as int], field@, v.model()));
                            assert(match_idx(docs_m, field@, v.model()) == Some(k as int));
                        }
                        return Some(docs[k].clone());
                    }
                    k += 1;
                }
                None
            }
        }
    }

    /// Append one document to collection `coll` of database `db`, creating
    /// both first if missing.
    pub fn insert_one(&mut self, db: &str, coll: &str, d: &Document)
        ensures
            final(self).model() == inserted(old(self).model(), db@, coll@, seq![d.model()]),
    {
        let ghost m0 = old(self).model();
        let ghost p = provisioned(m0, db@, coll@);
        self.provision(db, coll);
        proof {
            lemma_provisioned(m0, db@, coll@);
        }
        let ghost snap = *self;
        match self.find_target(db, coll) {
            None => {
                proof {
                    assert(false);
                }
            }
            Some((di, ci)) => {
                let clone = d.clone();
                self.databases[di].collections[ci].documents.push(clone);
                proof {
                    let di0 = di as int;
                    let ci0 = ci as int;
                    let base = target_docs(p, db@, coll@);
                    let dm = d.model();
                    let tgt = with_target_docs(p, db@, coll@, base + seq![dm]);
                    assert(snap.model().dbs[di0] == snap.databases@[di0].model());
                    assert(snap.model().dbs[di0].colls[ci0]
                        == snap.databases@[di0].collections@[ci0].model());
                    assert(docs_model(self.databases@[di0].collections@[ci0].documents@) =~= base
                        + seq![dm]);
                    assert(self.databases@[di0].model().colls =~~= tgt.dbs[di0].colls);
                    assert(self.databases@[di0].model() =~~= tgt.dbs[di0]);
                    assert(self.model().dbs =~~= tgt.dbs);
                    assert(self.model() =~~= tgt);
                    assert(self.model() == inserted(m0, db@, coll@, seq![dm]));
                }
            }
        }
    }
}

impl Store {
    /// Append each document, in order, to collection `coll` of database `db`,
    /// creating both first if missing.
    pub fn insert_many(&mut self, db: &str, coll: &str, docs: &Vec<Document>)
        ensures
            final(self).model() == inserted(old(self).model(), db@, coll@, docs_model(docs@)),
    {
        let ghost m0 = old(self).model();
        let ghost p = provisioned(m0, db@, coll@);
        self.provision(db, coll);
        proof {
            lemma_provisioned(m0, db@, coll@);
            lemma_with_self(p, db@, coll@);
            let base = target_docs(p, db@, coll@);
            assert(docs_model(docs@.subrange(0, 0)) =~= Seq::<Seq<FieldModel>>::empty());
            assert(base + docs_model(docs@.subrange(0, 0)) =~= base);
            assert(self.model() == inserted(m0, db@, coll@, docs_model(docs@.subrange(0, 0))));
        }
        let n = docs.len();
        let mut k: usize = 0;
        while k < n
            invariant
                n == docs@.len(),
                0 <= k <= n,
                m0 == old(self).model(),
                self.model() == inserted(m0, db@, coll@, docs_model(docs@.subrange(0, k as int))),
            decreases n - k,
        {
            let ghost before = docs_model(docs@.subrange(0, k as int));
            self.insert_one(db, coll, &docs[k]);
            proof {
                let k0 = k as int;
                lemma_inserted_append(m0, db@, coll@, before, seq![docs@[k0].model()]);
                assert(before + seq![docs@[k0].model()] =~= docs_model(
                    docs@.subrange(0, k0 + 1),
                ));
            }
            k += 1;
        }
        proof {
            assert(docs@.subrange(0, n as int) =~= docs@);
        }
    }

    /// Remove the first document of collection `coll` of database `db` whose
    /// field `field` holds exactly `v`; report whether one was removed. When
    /// none matches, nothing changes.
    pub fn delete_first(&mut self, db: &str, coll: &str, field: &str, v: &Value) -> (r: bool)
        ensures
            ({
                let docs0 = target_docs(old(self).model(), db@, coll@);
                match match_idx(docs0, field@, v.model()) {
                    Some(i) => r && final(self).model() == with_target_docs(
                        old(self).model(),
                        db@,
                        coll@,
                        docs0.remove(i),
                    ),
                    None => !r && *final(self) == *old(self),
                }
            }),
    {
        let ghost docs_m = target_docs(old(self).model(), db@, coll@);
        proof {
            lemma_match_idx(docs_m, field@, v.model());
        }
        match self.find_target(db, coll) {
            None => false,
            Some((di, ci)) => {
                let n = self.databases[di].collections[ci].documents.len();
                let mut k: usize = 0;
                while k < n
                    invariant
                        *self == *old(self),
                        di < self.databases@.len(),
                        ci < self.databases@[di as int].collections@.len(),
                        n == self.databases@[di as int].collections@[ci as int].documents@.len(),
                        0 <= k <= n,
                        docs_m == target_docs(self.model(), db@, coll@),
                        docs_m == docs_model(
                            self.databases@[di as int].collections@[ci as int].documents@,
                        ),
                        docs_m.len() == n,
                        db_idx(self.model(), db@) == Some(di as int),
                        coll_idx(self.model().dbs[di as int], coll@) == Some(ci as int),
                        forall|j: int| 0 <= j < k ==> !doc_matches(docs_m[j], field@, v.model()),
                        match match_idx(docs_m, field@, v.model()) {
                            Some(fi) => {
                                &&& 0 <= fi < n
                                &&& doc_matches(docs_m[fi], field@, v.model())
                                &&& forall|j: int|
                                    0 <= j < fi ==> !doc_matches(docs_m[j], field@, v.model())
                            },
                            None => forall|j: int|
                                0 <= j < n ==> !doc_matches(docs_m[j], field@, v.model()),
                        },
                    decreases n - k,
                {
                    let ghost snap = *self;
                    if self.databases[di].collections[ci].documents[k].matches_field(field, v) {
                        proof {
                            assert(docs_m[k as int] == self.databases@[di as int].collections@[
                                ci as int
                            ].documents@[k as int].model());
                            assert(match_idx(docs_m, field@, v.model()) == Some(k as int));
                        }
                        self.databases[di].collections[ci].documents.remove(k);
                        proof {
                            let di0 = di as int;
                            let ci0 = ci as int;
                            let k0 = k as int;
                            let m1 = snap.model();
                            let tgt = with_target_docs(m1, db@, coll@, docs_m.remove(k0));
                            snap.databases@[di0].collections@[ci0].documents@.remove_ensures(k0);
                            docs_m.remove_ensures(k0);
                            assert(docs_model(self.databases@[di0].collections@[ci0].documents@)
                                =~= docs_m.remove(k0));
                            assert(self.databases@[di0].model().colls =~~= tgt.dbs[di0].colls);
                            assert(self.databases@[di0].model() =~~= tgt.dbs[di0]);
                            assert(self.model().dbs =~~= tgt.dbs);
                            assert(self.model() =~~= tgt);
                        }
                        return true;
                    }
                    k += 1;
                }
                false
            }
        }
    }

    /// In the first document of collection `coll` of database `db` whose
    /// field `field` holds exactly `v`, set field `target_field` to
    /// `new_value`, leaving every other field and every other document
    /// untouched; report whether a match was found. When none matches,
    /// nothing changes.
    pub fn update_first(
        &mut self,
        db: &str,
        coll: &str,
        field: &str,
        v: &Value,
        target_field: &str,
        new_value: &Value,
    ) -> (r: bool)
        ensures
            ({
                let docs0 = target_docs(old(self).model(), db@, coll@);
                match match_idx(docs0, field@, v.model()) {
                    Some(i) => r && final(self).model() == with_target_docs(
                        old(self).model(),
                        db@,
                        coll@,
                        docs0.update(i, doc_set(docs0[i], target_field@, new_value.model())),
                    ),
                    None => !r && *final(self) == *old(self),
                }
            }),
    {
        let ghost docs_m = target_docs(old(self).model(), db@, coll@);
        proof {
            lemma_match_idx(docs_m, field@, v.model());
        }
        match self.find_target(db, coll) {
            None => false,
            Some((di, ci)) => {
                let n = self.databases[di].collections[ci].documents.len();
                let mut k: usize = 0;
                while k < n
                    invariant
                        *self == *old(self),
                        di < self.databases@.len(),
                        ci < self.databases@[di as int].collections@.len(),
                        n == self.databases@[di as int].collections@[ci as int].documents@.len(),
                        0 <= k <= n,
                        docs_m == target_docs(self.model(), db@, coll@),
                        docs_m == docs_model(
                            self.databases@[di as int].collections@[ci as int].documents@,
                        ),
                        docs_m.len() == n,
                        db_idx(self.model(), db@) == Some(di as int),
                        coll_idx(self.model().dbs[di as int], coll@) == Some(ci as int),
                        forall|j: int| 0 <= j < k ==> !doc_matches(docs_m[j], field@, v.model()),
                        match match_idx(docs_m, field@, v.model()) {
                            Some(fi) => {
                                &&& 0 <= fi < n
                                &&& doc_matches(docs_m[fi], field@, v.model())
                                &&& forall|j: int|
                                    0 <= j < fi ==> !doc_matches(docs_m[j], field@, v.model())
                            },
                            None => forall|j: int|
                                0 <= j < n ==> !doc_matches(docs_m[j], field@, v.model()),
                        },
                    decreases n - k,
                {
                    let ghost snap = *self;
                    if self.databases[di].collections[ci].documents[k].matches_field(field, v) {
                        proof {
                            assert(docs_m[k as int] == self.databases@[di as int].collections@[
                                ci as int
                            ].documents@[k as int].model());
                            assert(match_idx(docs_m, field@, v.model()) == Some(k as int));
                        }
                        let nv = new_value.clone();
                        self.databases[di].collections[ci].documents[k].set_field(
                            target_field,
                            nv,
                        );
                        proof {
                            let di0 = di as int;
                            let ci0 = ci as int;
                            let k0 = k as int;
                            let m1 = snap.model();
                            let newdocs = docs_m.update(
                                k0,
                                doc_set(docs_m[k0], target_field@, new_value.model()),
                            );
                            let tgt = with_target_docs(m1, db@, coll@, newdocs);
                            assert(docs_model(self.databases@[di0].collections@[ci0].documents@)
                                =~= newdocs);
                            assert(self.databases@[di0].model().colls =~~= tgt.dbs[di0].colls);
                            assert(self.databases@[di0].model() =~~= tgt.dbs[di0]);
                            assert(self.model().dbs =~~= tgt.dbs);
                            assert(self.model() =~~= tgt);
                        }
                        return true;
                    }
                    k += 1;
                }
                false
            }
        }
    }
}

/// The position of the first collection named `name` in a database, if any.
fn find_coll(d: &DatabaseData, name: &str) -> (r: Option<usize>)
    ensures
        match r {
            Some(i) => i < d.collections@.len() && coll_idx(d.model(), name@) == Some(i as int),
            None => coll_idx(d.model(), name@) is None,
        },
{
    proof {
        lemma_coll_idx(d.model(), name@);
    }
    let owned: String = name.to_owned();
    let n = d.collections.len();
    let mut i: usize = 0;
    while i < n
        invariant
            n == d.collections@.len(),
            0 <= i <= n,
            owned@ == name@,
            forall|j: int| 0 <= j < i ==> d.model().colls[j].name != name@,
            d.model().colls.len() == n,
            forall|k: int| 0 <= k < n ==> d.model().colls[k] == d.collections@[k].model(),
            match coll_idx(d.model(), name@) {
                Some(fi) => {
                    &&& 0 <= fi < n
                    &&& d.model().colls[fi].name == name@
                    &&& forall|j: int| 0 <= j < fi ==> d.model().colls[j].name != name@
                },
                None => forall|j: int| 0 <= j < n ==> d.model().colls[j].name != name@,
            },
        decreases n - i,
    {
        if d.collections[i].name == owned {
            proof {
                assert(d.model().colls[i as int].name == name@);
                assert(coll_idx(d.model(), name@) == Some(i as int));
            }
            return Some(i);
        }
        i += 1;
    }
    None
}

} // verus!
