//! The JSON ingestion path: a parsed input must hold a top-level `groups`
//! array; each element that is a sub-object becomes a document, the rest are
//! skipped. A malformed shape is a fatal input error and yields no documents.

use vstd::prelude::*;
use crate::errors::IngestError;
use crate::value::{doc_get, seq_model, Document, FieldModel, ValModel, Value};

verus! {

/// The elements of the `groups` array of the input, when the input is an
/// object with a `groups` field holding an array.
pub open spec fn groups_of(v: ValModel) -> Option<Seq<ValModel>> {
    match v {
        ValModel::Doc(fields) => match doc_get(fields, "groups"@) {
            Some(g) => match g {
                ValModel::Arr(items) => Some(items),
                _ => None,
            },
            None => None,
        },
        _ => None,
    }
}

/// Whether the input has a `groups` field at all.
pub open spec fn has_groups_field(v: ValModel) -> bool {
    match v {
        ValModel::Doc(fields) => doc_get(fields, "groups"@) is Some,
        _ => false,
    }
}

/// The documents of a group list: each element that is a sub-object, in
/// order; every other element is skipped.
pub open spec fn group_docs(items: Seq<ValModel>) -> Seq<Seq<FieldModel>>
    decreases items,
{
    if items.len() == 0 {
        Seq::empty()
    } else {
        let rest = group_docs(items.drop_last());
        match items.last() {
            ValModel::Doc(fields) => rest.push(fields),
            _ => rest,
        }
    }
}

/// Extract the documents to ingest from a parsed input value.
///
/// The input must be an object with a `groups` field holding an array; each
/// array element that is a sub-object becomes one document, in order, and any
/// other element is skipped. An input without a `groups` field is
/// [`IngestError::MissingGroups`]; one whose `groups` value is not an array is
/// [`IngestError::GroupsNotArray`]. Either way no documents are produced.
pub fn extract_group_documents(input: &Value) -> (r: Result<Vec<Document>, IngestError>)
    ensures
        r is Ok <==> groups_of(input.model()) is Some,
        match r {
            Ok(docs) => crate::store::docs_model(docs@) == group_docs(
                groups_of(input.model())->0,
            ),
            Err(e) => if has_groups_field(input.model()) {
                e == IngestError::GroupsNotArray
            } else {
                e == IngestError::MissingGroups
            },
        },
{
    match input {
        Value::Doc(d) => {
            match d.get("groups") {
                Some(g) => {
                    match g {
                        Value::Arr(items) => {
                            proof {
                                crate::value::lemma_seq_model(items@);
                            }
                            let ghost gitems = seq_model(items@);
                            let n = items.len();
                            let mut out: Vec<Document> = Vec::new();
                            let mut k: usize = 0;
                            while k < n
                                invariant
                                    n == items@.len(),
                                    0 <= k <= n,
                                    gitems == seq_model(items@),
                                    gitems.len() == n,
                                    forall|q: int| 0 <= q < n ==> gitems[q] == items@[q].model(),
                                    crate::store::docs_model(out@) == group_docs(
                                        gitems.subrange(0, k as int),
                                    ),
                                decreases n - k,
                            {
                                let ghost before = group_docs(gitems.subrange(0, k as int));
                                match &items[k] {
                                    Value::Doc(sub) => {
                                        out.push(sub.clone());
                                    }
                                    _ => {}
                                }
                                proof {
                                    let k0 = k as int;
                                    assert(gitems.subrange(0, k0 + 1).drop_last() =~= gitems
                                        .subrange(0, k0));
                                    assert(gitems.subrange(0, k0 + 1).last() == gitems[k0]);
                                    assert(crate::store::docs_model(out@) =~= group_docs(
                                        gitems.subrange(0, k0 + 1),
                                    ));
                                }
                                k += 1;
                            }
                            proof {
                                assert(gitems.subrange(0, n as int) =~= gitems);
                            }
                            Ok(out)
                        }
                        _ => {
                            proof {
                                crate::value::lemma_model_variant(*g);
                            }
                            Err(IngestError::GroupsNotArray)
                        }
                    }
                }
                None => Err(IngestError::MissingGroups),
            }
        }
        _ => {
            proof {
                crate::value::lemma_model_variant(*input);
            }
            Err(IngestError::MissingGroups)
        }
    }
}

} // verus!
