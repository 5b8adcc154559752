//! Laws of the session operations, stated over the store model and proved
//! once and for all. The idempotence of provisioning is
//! [`crate::store::lemma_provision_idempotent`]; the laws here cover the
//! filtered delete, the partial update, and bulk insertion.

use vstd::prelude::*;
use crate::store::{
    coll_names, db_idx, coll_idx, has_target, inserted, lemma_coll_idx, lemma_db_idx,
    lemma_match_idx, lemma_provisioned, lemma_with_target_docs, match_idx, provisioned,
    target_coll_names, target_docs, StoreModel,
};
use crate::value::{
    doc_field_idx, doc_get, doc_has_field, doc_matches, doc_set, lemma_doc_field_idx, FieldModel,
    ValModel,
};

verus! {

/// Deleting by filter removes exactly the first matching document: the
/// collection shrinks by one, the removed document matched, and — when that
/// match was the only one — no document matches afterwards, so a subsequent
/// filtered find reports nothing.
pub proof fn lemma_find_then_delete(docs: Seq<Seq<FieldModel>>, name: Seq<char>, v: ValModel)
    requires
        match_idx(docs, name, v) is Some,
    ensures
        ({
            let i = match_idx(docs, name, v)->0;
            &&& 0 <= i < docs.len()
            &&& doc_matches(docs[i], name, v)
            &&& docs.remove(i).len() == docs.len() - 1
            &&& ((forall|j: int|
                0 <= j < docs.len() && j != i ==> !doc_matches(docs[j], name, v)) ==> match_idx(
                docs.remove(i),
                name,
                v,
            ) is None)
        }),
{
    lemma_match_idx(docs, name, v);
    let i = match_idx(docs, name, v)->0;
    docs.remove_ensures(i);
    if forall|j: int| 0 <= j < docs.len() && j != i ==> !doc_matches(docs[j], name, v) {
        let rem = docs.remove(i);
        lemma_match_idx(rem, name, v);
        match match_idx(rem, name, v) {
            Some(f) => {
                if f < i {
                    assert(rem[f] == docs[f]);
                } else {
                    assert(rem[f] == docs[f + 1]);
                }
                assert(false);
            }
            None => {}
        }
    }
}

/// A partial update touches only the named field: when the field exists, its
/// first occurrence is replaced and every sibling field is identical before
/// and after; when it does not, the field is appended.
pub proof fn lemma_update_changes_only_target(d: Seq<FieldModel>, name: Seq<char>, v: ValModel)
    ensures
        doc_has_field(d, name) ==> ({
            let i = doc_field_idx(d, name)->0;
            let r = doc_set(d, name, v);
            &&& r.len() == d.len()
            &&& r[i] == FieldModel { name, value: v }
            &&& forall|j: int| 0 <= j < d.len() && j != i ==> r[j] == d[j]
        }),
        !doc_has_field(d, name) ==> doc_set(d, name, v) == d.push(FieldModel { name, value: v }),
{
    lemma_doc_field_idx(d, name);
}

/// What a partial update reads back: the named field now holds the new value,
/// and every other field name reads exactly what it read before.
pub proof fn lemma_doc_set_get(d: Seq<FieldModel>, name: Seq<char>, v: ValModel, other: Seq<char>)
    ensures
        doc_get(doc_set(d, name, v), name) == Some(v),
        other != name ==> doc_get(doc_set(d, name, v), other) == doc_get(d, other),
{
    let r = doc_set(d, name, v);
    lemma_doc_field_idx(d, name);
    lemma_doc_field_idx(r, name);
    lemma_doc_field_idx(d, other);
    lemma_doc_field_idx(r, other);
    match doc_field_idx(d, name) {
        Some(i) => {
            assert(r.map_values(|f: FieldModel| f.name) =~= d.map_values(
                |f: FieldModel| f.name,
            ));
            assert(doc_field_idx(r, name) == doc_field_idx(d, name));
            assert(doc_get(r, name) == Some(v));
            if other != name {
                assert(doc_field_idx(r, other) == doc_field_idx(d, other));
                match doc_field_idx(d, other) {
                    Some(k) => {
                        assert(d[k].name == other);
                        assert(k != i);
                        assert(r[k] == d[k]);
                    }
                    None => {}
                }
            }
        }
        None => {
            // The field is appended at the end.
            match doc_field_idx(r, name) {
                Some(k) => {
                    if k < d.len() {
                        assert(r[k] == d[k]);
                        assert(false);
                    }
                    assert(k == d.len());
                }
                None => {
                    assert(r[d.len() as int].name == name);
                    assert(false);
                }
            }
            if other != name {
                match doc_field_idx(d, other) {
                    Some(k) => {
                        match doc_field_idx(r, other) {
                            Some(k2) => {
                                if k2 < k {
                                    assert(r[k2] == d[k2]);
                                    assert(false);
                                }
                                if k2 > k {
                                    assert(r[k] == d[k]);
                                    assert(false);
                                }
                                assert(r[k2] == d[k]);
                            }
                            None => {
                                assert(r[k] == d[k]);
                                assert(false);
                            }
                        }
                    }
                    None => {
                        match doc_field_idx(r, other) {
                            Some(k2) => {
                                if k2 < d.len() {
                                    assert(r[k2] == d[k2]);
                                    assert(false);
                                }
                                assert(r[k2].name == name);
                                assert(false);
                            }
                            None => {}
                        }
                    }
                }
            }
        }
    }
}

/// What bulk insertion leaves behind: the target collection exists and is
/// listed, and it holds exactly the provisioned target's documents followed by
/// the inserted ones — so its count grew by exactly the number inserted.
pub proof fn lemma_insert_many_count(
    m: StoreModel,
    db: Seq<char>,
    coll: Seq<char>,
    ds: Seq<Seq<FieldModel>>,
)
    ensures
        has_target(inserted(m, db, coll, ds), db, coll),
        target_coll_names(inserted(m, db, coll, ds), db).contains(coll),
        target_docs(inserted(m, db, coll, ds), db, coll) == target_docs(
            provisioned(m, db, coll),
            db,
            coll,
        ) + ds,
        target_docs(inserted(m, db, coll, ds), db, coll).len() == target_docs(
            provisioned(m, db, coll),
            db,
            coll,
        ).len() + ds.len(),
{
    let p = provisioned(m, db, coll);
    lemma_provisioned(m, db, coll);
    let base = target_docs(p, db, coll);
    lemma_with_target_docs(p, db, coll, base + ds);
    let i = db_idx(p, db)->0;
    lemma_db_idx(p, db);
    let ins = inserted(m, db, coll, ds);
    assert(db_idx(ins, db) == db_idx(p, db));
    assert(coll_names(ins.dbs[i]) == coll_names(p.dbs[i]));
    assert(coll_idx(ins.dbs[i], coll) == coll_idx(p.dbs[i], coll));
    assert(has_target(ins, db, coll));
    lemma_coll_idx(p.dbs[i], coll);
    let j = coll_idx(p.dbs[i], coll)->0;
    assert(target_coll_names(ins, db)[j] == coll);
    assert(target_coll_names(ins, db).contains(coll));
}

} // verus!
