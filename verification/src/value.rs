//! Dynamically typed document values and their mathematical model.
//!
//! A [`Document`] is an ordered mapping from string field names to values; a
//! [`Value`] is a string, an integer, a boolean, a nested document, or an
//! array. Contracts are stated over the ghost models [`ValModel`] and
//! [`FieldModel`], in which strings are character sequences and vectors are
//! sequences.

use vstd::prelude::*;

verus! {

/// Mathematical model of a dynamically typed value.
pub ghost enum ValModel {
    Int(int),
    Bool(bool),
    Str(Seq<char>),
    Arr(Seq<ValModel>),
    Doc(Seq<FieldModel>),
}

/// Mathematical model of one named field of a document.
pub ghost struct FieldModel {
    pub name: Seq<char>,
    pub value: ValModel,
}

/// A dynamically typed value stored in a document field.
pub enum Value {
    Int(i64),
    Bool(bool),
    Str(String),
    Arr(Vec<Value>),
    Doc(Document),
}

/// One named field of a document.
pub struct Field {
    pub name: String,
    pub value: Value,
}

/// An ordered mapping from string field names to values.
///
/// A document built through [`Document::new`] and [`Document::set_field`]
/// keeps its field names unique ([`Document::wf`]).
pub struct Document {
    pub fields: Vec<Field>,
}

impl Value {
    /// The mathematical model of this value.
    pub open spec fn model(self) -> ValModel
        decreases self,
    {
        match self {
            Value::Int(i) => ValModel::Int(i as int),
            Value::Bool(b) => ValModel::Bool(b),
            Value::Str(s) => ValModel::Str(s@),
            Value::Arr(items) => ValModel::Arr(seq_model(items@)),
            Value::Doc(d) => ValModel::Doc(fields_model(d.fields@)),
        }
    }
}

/// The models of a sequence of values, in order.
pub open spec fn seq_model(s: Seq<Value>) -> Seq<ValModel>
    decreases s,
{
    if s.len() == 0 {
        Seq::empty()
    } else {
        seq![s[0].model()] + seq_model(s.drop_first())
    }
}

impl Field {
    /// The mathematical model of this field.
    pub open spec fn model(self) -> FieldModel
        decreases self,
    {
        FieldModel { name: self.name@, value: self.value.model() }
    }
}

/// The models of a sequence of fields, in order.
pub open spec fn fields_model(s: Seq<Field>) -> Seq<FieldModel>
    decreases s,
{
    if s.len() == 0 {
        Seq::empty()
    } else {
        seq![s[0].model()] + fields_model(s.drop_first())
    }
}

/// `seq_model` maps a sequence of values pointwise.
pub proof fn lemma_seq_model(s: Seq<Value>)
    ensures
        seq_model(s).len() == s.len(),
        forall|i: int| 0 <= i < s.len() ==> seq_model(s)[i] == s[i].model(),
    decreases s,
{
    if s.len() > 0 {
        lemma_seq_model(s.drop_first());
    }
}

/// `fields_model` maps a sequence of fields pointwise.
pub proof fn lemma_fields_model(s: Seq<Field>)
    ensures
        fields_model(s).len() == s.len(),
        forall|i: int| 0 <= i < s.len() ==> fields_model(s)[i] == s[i].model(),
    decreases s,
{
    if s.len() > 0 {
        lemma_fields_model(s.drop_first());
    }
}

/// The index of the first field named `name`, if any.
pub open spec fn doc_field_idx(d: Seq<FieldModel>, name: Seq<char>) -> Option<int> {
    d.map_values(|f: FieldModel| f.name).index_of_first(name)
}

/// Whether the document has a field named `name`.
pub open spec fn doc_has_field(d: Seq<FieldModel>, name: Seq<char>) -> bool {
    doc_field_idx(d, name) is Some
}

/// The value of the first field named `name`, if any.
pub open spec fn doc_get(d: Seq<FieldModel>, name: Seq<char>) -> Option<ValModel> {
    match doc_field_idx(d, name) {
        Some(i) => Some(d[i].value),
        None => None,
    }
}

/// Whether the document's field `name` holds exactly `v`.
pub open spec fn doc_matches(d: Seq<FieldModel>, name: Seq<char>, v: ValModel) -> bool {
    doc_get(d, name) == Some(v)
}

/// The document with field `name` set to `v`: the first field of that name is
/// replaced, every other field is unchanged; if no field has that name, one is
/// appended.
pub open spec fn doc_set(d: Seq<FieldModel>, name: Seq<char>, v: ValModel) -> Seq<FieldModel> {
    match doc_field_idx(d, name) {
        Some(i) => d.update(i, FieldModel { name, value: v }),
        None => d.push(FieldModel { name, value: v }),
    }
}

/// What `doc_field_idx` returns: the first index whose field is named `name`,
/// or `None` when no field is.
pub proof fn lemma_doc_field_idx(d: Seq<FieldModel>, name: Seq<char>)
    ensures
        match doc_field_idx(d, name) {
            Some(i) => {
                &&& 0 <= i < d.len()
                &&& d[i].name == name
                &&& forall|j: int| 0 <= j < i ==> d[j].name != name
            },
            None => forall|j: int| 0 <= j < d.len() ==> d[j].name != name,
        },
{
    let names = d.map_values(|f: FieldModel| f.name);
    names.index_of_first_ensures(name);
    match doc_field_idx(d, name) {
        Some(i) => {
            assert(names[i] == d[i].name);
            assert forall|j: int| 0 <= j < i implies d[j].name != name by {
                assert(names[j] == d[j].name);
            }
        }
        None => {
            assert forall|j: int| 0 <= j < d.len() implies d[j].name != name by {
                assert(names[j] == d[j].name);
            }
        }
    }
}

impl Document {
    /// The mathematical model of this document: its fields, in order.
    pub open spec fn model(self) -> Seq<FieldModel> {
        fields_model(self.fields@)
    }

    /// Well-formedness: field names are unique.
    pub open spec fn wf(self) -> bool {
        forall|i: int, j: int|
            0 <= i < j < self.model().len() ==> self.model()[i].name != self.model()[j].name
    }

    /// An empty document.
    pub fn new() -> (r: Document)
        ensures
            r.model() == Seq::<FieldModel>::empty(),
            r.wf(),
    {
        let r = Document { fields: Vec::new() };
        proof {
            assert(r.model() =~= Seq::<FieldModel>::empty());
        }
        r
    }

    /// The number of fields.
    pub fn field_count(&self) -> (r: usize)
        ensures
            r == self.model().len(),
    {
        proof {
            lemma_fields_model(self.fields@);
        }
        self.fields.len()
    }

    /// The position of the first field named `name`, if any.
    fn find_field(&self, name: &str) -> (r: Option<usize>)
        ensures
            match r {
                Some(i) => doc_field_idx(self.model(), name@) == Some(i as int),
                None => doc_field_idx(self.model(), name@) is None,
            },
    {
        proof {
            lemma_fields_model(self.fields@);
            lemma_doc_field_idx(self.model(), name@);
        }
        let owned: String = name.to_owned();
        let n = self.fields.len();
        let mut i: usize = 0;
        while i < n
            invariant
                n == self.fields@.len(),
                0 <= i <= n,
                forall|j: int| 0 <= j < i ==> self.model()[j].name != name@,
                owned@ == name@,
                fields_model(self.fields@) == self.model(),
                self.model().len() == n,
                forall|k: int| 0 <= k < n ==> self.model()[k] == self.fields@[k].model(),
                match doc_field_idx(self.model(), name@) {
                    Some(fi) => {
                        &&& 0 <= fi < n
                        &&& self.model()[fi].name == name@
                        &&& forall|j: int| 0 <= j < fi ==> self.model()[j].name != name@
                    },
                    None => forall|j: int| 0 <= j < n ==> self.model()[j].name != name@,
                },
            decreases n - i,
        {
            if self.fields[i].name == owned {
                proof {
                    assert(self.fields@[i as int].name@ == name@);
                    assert(self.model()[i as int].name == name@);
                    assert(doc_field_idx(self.model(), name@) == Some(i as int));
                }
                return Some(i);
            }
            i += 1;
        }
        None
    }

    /// A reference to the value of the first field named `name`, if any.
    pub fn get(&self, name: &str) -> (r: Option<&Value>)
        ensures
            match r {
                Some(v) => doc_get(self.model(), name@) == Some(v.model()),
                None => doc_get(self.model(), name@) is None,
            },
    {
        proof {
            lemma_fields_model(self.fields@);
            lemma_doc_field_idx(self.model(), name@);
        }
        match self.find_field(name) {
            Some(i) => Some(&self.fields[i].value),
            None => None,
        }
    }

    /// Whether this document's field `name` holds exactly `v`.
    pub fn matches_field(&self, name: &str, v: &Value) -> (r: bool)
        ensures
            r == doc_matches(self.model(), name@, v.model()),
    {
        match self.get(name) {
            Some(val) => value_eq(val, v),
            None => false,
        }
    }

    /// Set field `name` to `value`: the first field of that name is replaced,
    /// every other field is untouched; if no field has that name, one is
    /// appended. Field names stay unique.
    pub fn set_field(&mut self, name: &str, value: Value)
        ensures
            final(self).model() == doc_set(old(self).model(), name@, value.model()),
            old(self).wf() ==> final(self).wf(),
    {
        proof {
            lemma_fields_model(old(self).fields@);
            lemma_doc_field_idx(old(self).model(), name@);
        }
        let f = Field { name: name.to_owned(), value };
        match self.find_field(name) {
            Some(i) => {
                self.fields[i] = f;
                proof {
                    lemma_fields_model(self.fields@);
                    assert(self.model() =~= doc_set(old(self).model(), name@, f.value.model()));
                }
            }
            None => {
                self.fields.push(f);
                proof {
                    lemma_fields_model(self.fields@);
                    assert(self.model() =~= doc_set(old(self).model(), name@, f.value.model()));
                }
            }
        }
    }
}

/// A value's model is the variant that mirrors the value's own.
pub proof fn lemma_model_variant(v: Value)
    ensures
        (v.model() is Int) == (v is Int),
        (v.model() is Bool) == (v is Bool),
        (v.model() is Str) == (v is Str),
        (v.model() is Arr) == (v is Arr),
        (v.model() is Doc) == (v is Doc),
{
}

/// Deep structural equality: `true` exactly when the two models are equal.
pub fn value_eq(a: &Value, b: &Value) -> (r: bool)
    ensures
        r == (a.model() == b.model()),
    decreases *a,
{
    match (a, b) {
        (Value::Int(x), Value::Int(y)) => *x == *y,
        (Value::Bool(x), Value::Bool(y)) => *x == *y,
        (Value::Str(x), Value::Str(y)) => *x == *y,
        (Value::Arr(xs), Value::Arr(ys)) => {
            proof {
                lemma_seq_model(xs@);
                lemma_seq_model(ys@);
            }
            if xs.len() != ys.len() {
                return false;
            }
            let n = xs.len();
            let mut i: usize = 0;
            while i < n
                invariant
                    n == xs@.len() == ys@.len(),
                    0 <= i <= n,
                    forall|j: int| 0 <= j < i ==> xs@[j].model() == ys@[j].model(),
                    a == &Value::Arr(*xs),
                    b == &Value::Arr(*ys),
                    seq_model(xs@).len() == n && seq_model(ys@).len() == n,
                    forall|k: int| 0 <= k < n ==> seq_model(xs@)[k] == xs@[k].model(),
                    forall|k: int| 0 <= k < n ==> seq_model(ys@)[k] == ys@[k].model(),
                decreases n - i,
            {
                proof {
                    assert(decreases_to!(*a => (*a)->Arr_0));
                    assert((*a)->Arr_0 == *xs);
                }
                if !value_eq(&xs[i], &ys[i]) {
                    proof {
                        assert(seq_model(xs@)[i as int] != seq_model(ys@)[i as int]);
                        assert(seq_model(xs@) != seq_model(ys@));
                    }
                    return false;
                }
                i += 1;
            }
            proof {
                assert(seq_model(xs@) =~= seq_model(ys@));
                assert(a.model() == ValModel::Arr(seq_model(xs@)));
                assert(b.model() == ValModel::Arr(seq_model(ys@)));
            }
            true
        }
        (Value::Doc(x), Value::Doc(y)) => {
            proof {
                lemma_fields_model(x.fields@);
                lemma_fields_model(y.fields@);
            }
            if x.fields.len() != y.fields.len() {
                return false;
            }
            let n = x.fields.len();
            let mut i: usize = 0;
            while i < n
                invariant
                    n == x.fields@.len() == y.fields@.len(),
                    0 <= i <= n,
                    forall|j: int| 0 <= j < i ==> x.fields@[j].model() == y.fields@[j].model(),
                    a == &Value::Doc(*x),
                    b == &Value::Doc(*y),
                    fields_model(x.fields@).len() == n && fields_model(y.fields@).len() == n,
                    forall|k: int| 0 <= k < n ==> fields_model(x.fields@)[k] == x.fields@[k].model(),
                    forall|k: int| 0 <= k < n ==> fields_model(y.fields@)[k] == y.fields@[k].model(),
                decreases n - i,
            {
                if !(x.fields[i].name == y.fields[i].name) {
                    proof {
                        assert(fields_model(x.fields@)[i as int].name
                            != fields_model(y.fields@)[i as int].name);
                        assert(fields_model(x.fields@) != fields_model(y.fields@));
                    }
                    return false;
                }
                proof {
                    assert(decreases_to!(*a => (*a)->Doc_0));
                    assert((*a)->Doc_0 == *x);
                }
                if !value_eq(&x.fields[i].value, &y.fields[i].value) {
                    proof {
                        assert(fields_model(x.fields@)[i as int].value
                            != fields_model(y.fields@)[i as int].value);
                        assert(fields_model(x.fields@) != fields_model(y.fields@));
                    }
                    return false;
                }
                i += 1;
            }
            proof {
                assert(fields_model(x.fields@) =~= fields_model(y.fields@));
                assert(a.model() == ValModel::Doc(fields_model(x.fields@)));
                assert(b.model() == ValModel::Doc(fields_model(y.fields@)));
            }
            true
        }
        _ => {
            proof {
                lemma_model_variant(*a);
                lemma_model_variant(*b);
            }
            false
        }
    }
}

/// Deep copy of a value, equal to the original in the model.
fn clone_value(v: &Value) -> (r: Value)
    ensures
        r.model() == v.model(),
    decreases *v,
{
    match v {
        Value::Int(i) => Value::Int(*i),
        Value::Bool(b) => Value::Bool(*b),
        Value::Str(s) => Value::Str(s.clone()),
        Value::Arr(items) => {
            proof {
                lemma_seq_model(items@);
            }
            let mut out: Vec<Value> = Vec::new();
            let n = items.len();
            let mut i: usize = 0;
            while i < n
                invariant
                    n == items@.len(),
                    0 <= i <= n,
                    out@.len() == i,
                    forall|j: int| 0 <= j < i ==> out@[j].model() == items@[j].model(),
                    v == &Value::Arr(*items),
                decreases n - i,
            {
                proof {
                    assert(decreases_to!(*v => (*v)->Arr_0));
                    assert((*v)->Arr_0 == *items);
                }
                out.push(clone_value(&items[i]));
                i += 1;
            }
            proof {
                lemma_seq_model(out@);
                assert(seq_model(out@) =~= seq_model(items@));
            }
            Value::Arr(out)
        }
        Value::Doc(d) => {
            proof {
                lemma_fields_model(d.fields@);
            }
            let mut out: Vec<Field> = Vec::new();
            let n = d.fields.len();
            let mut i: usize = 0;
            while i < n
                invariant
                    n == d.fields@.len(),
                    0 <= i <= n,
                    out@.len() == i,
                    forall|j: int| 0 <= j < i ==> out@[j].model() == d.fields@[j].model(),
                    v == &Value::Doc(*d),
                decreases n - i,
            {
                proof {
                    assert(decreases_to!(*v => (*v)->Doc_0));
                    assert((*v)->Doc_0 == *d);
                }
                let f = Field { name: d.fields[i].name.clone(), value: clone_value(&d.fields[i].value) };
                out.push(f);
                i += 1;
            }
            proof {
                lemma_fields_model(out@);
                assert(fields_model(out@) =~= fields_model(d.fields@));
            }
            Value::Doc(Document { fields: out })
        }
    }
}

impl Clone for Value {
    /// Deep copy, equal to the original in the model.
    fn clone(&self) -> (r: Value)
        ensures
            r.model() == self.model(),
    {
        clone_value(self)
    }
}

impl Clone for Field {
    /// Deep copy, equal to the original in the model.
    fn clone(&self) -> (r: Field)
        ensures
            r.model() == self.model(),
    {
        Field { name: self.name.clone(), value: clone_value(&self.value) }
    }
}

impl Clone for Document {
    /// Deep copy, equal to the original in the model.
    fn clone(&self) -> (r: Document)
        ensures
            r.model() == self.model(),
            r.wf() == self.wf(),
    {
        proof {
            lemma_fields_model(self.fields@);
        }
        let mut out: Vec<Field> = Vec::new();
        let n = self.fields.len();
        let mut i: usize = 0;
        while i < n
            invariant
                n == self.fields@.len(),
                0 <= i <= n,
                out@.len() == i,
                forall|j: int| 0 <= j < i ==> out@[j].model() == self.fields@[j].model(),
            decreases n - i,
        {
            let f = Field {
                name: self.fields[i].name.clone(),
                value: clone_value(&self.fields[i].value),
            };
            out.push(f);
            i += 1;
        }
        proof {
            lemma_fields_model(out@);
            assert(fields_model(out@) =~= fields_model(self.fields@));
        }
        Document { fields: out }
    }
}

} // verus!
