//! Structured payload values: a recursive, JSON-compatible sum type that a
//! point carries beside its vector, together with its mathematical model.

use vstd::prelude::*;

verus! {

/// Mathematical model of a payload value.  A mapping is kept as a sequence of
/// key/value pairs so that nothing of the stored structure is lost.
#[verifier::ext_equal]
pub enum SpecVal {
    Null,
    Bool(bool),
    Int(int),
    Str(Seq<char>),
    Arr(Seq<SpecVal>),
    Obj(Seq<(Seq<char>, SpecVal)>),
}

/// One key/value binding of a mapping value.
#[derive(Debug, PartialEq, Eq)]
pub struct ObjField {
    pub key: String,
    pub value: PayloadValue,
}

/// A structured payload value: null, boolean, integer, string, ordered
/// sequence, or mapping from string keys to further values.
#[derive(Debug, PartialEq, Eq)]
pub enum PayloadValue {
    Null,
    Bool(bool),
    Int(i64),
    Str(String),
    Arr(Vec<PayloadValue>),
    Obj(Vec<ObjField>),
}

/// The model of a payload value.
pub open spec fn value_view(v: PayloadValue) -> SpecVal
    decreases v, 0int,
{
    match v {
        PayloadValue::Null => SpecVal::Null,
        PayloadValue::Bool(b) => SpecVal::Bool(b),
        PayloadValue::Int(i) => SpecVal::Int(i as int),
        PayloadValue::Str(s) => SpecVal::Str(s@),
        PayloadValue::Arr(items) => SpecVal::Arr(items_view_from(items@, 0)),
        PayloadValue::Obj(fields) => SpecVal::Obj(fields_view_from(fields@, 0)),
    }
}

/// Models of the elements of `items` from position `i` on.
pub open spec fn items_view_from(items: Seq<PayloadValue>, i: int) -> Seq<SpecVal>
    decreases items, items.len() - i,
{
    if i < 0 || i >= items.len() {
        Seq::empty()
    } else {
        seq![value_view(items[i])] + items_view_from(items, i + 1)
    }
}

/// Models of the bindings of `fields` from position `i` on.
pub open spec fn fields_view_from(fields: Seq<ObjField>, i: int) -> Seq<(Seq<char>, SpecVal)>
    decreases fields, fields.len() - i,
{
    if i < 0 || i >= fields.len() {
        Seq::empty()
    } else {
        seq![(fields[i].key@, value_view(fields[i].value))] + fields_view_from(fields, i + 1)
    }
}

/// The model of a sequence of array elements.
pub open spec fn items_view(items: Seq<PayloadValue>) -> Seq<SpecVal> {
    items_view_from(items, 0)
}

/// The model of a sequence of object fields.
pub open spec fn fields_view(fields: Seq<ObjField>) -> Seq<(Seq<char>, SpecVal)> {
    fields_view_from(fields, 0)
}

proof fn lemma_items_view_from(items: Seq<PayloadValue>, i: int, k: int)
    requires
        0 <= i <= k < items.len(),
    ensures
        items_view_from(items, i)[k - i] == value_view(items[k]),
    decreases k - i,
{
    lemma_items_view_from_len(items, i);
    lemma_items_view_from_len(items, i + 1);
    if i < k {
        lemma_items_view_from(items, i + 1, k);
    }
}

proof fn lemma_items_view_from_len(items: Seq<PayloadValue>, i: int)
    requires
        0 <= i <= items.len(),
    ensures
        items_view_from(items, i).len() == items.len() - i,
    decreases items.len() - i,
{
    if i < items.len() {
        lemma_items_view_from_len(items, i + 1);
    }
}

proof fn lemma_fields_view_from(fields: Seq<ObjField>, i: int, k: int)
    requires
        0 <= i <= k < fields.len(),
    ensures
        fields_view_from(fields, i)[k - i] == (fields[k].key@, value_view(fields[k].value)),
    decreases k - i,
{
    lemma_fields_view_from_len(fields, i);
    lemma_fields_view_from_len(fields, i + 1);
    if i < k {
        lemma_fields_view_from(fields, i + 1, k);
    }
}

proof fn lemma_fields_view_from_len(fields: Seq<ObjField>, i: int)
    requires
        0 <= i <= fields.len(),
    ensures
        fields_view_from(fields, i).len() == fields.len() - i,
    decreases fields.len() - i,
{
    if i < fields.len() {
        lemma_fields_view_from_len(fields, i + 1);
    }
}

/// `items_view` maps the model of each element over the sequence.
pub broadcast proof fn lemma_items_view(items: Seq<PayloadValue>)
    ensures
        (#[trigger] items_view(items)).len() == items.len(),
        forall|k: int| 0 <= k < items.len() ==> items_view(items)[k] == value_view(items[k]),
{
    lemma_items_view_from_len(items, 0);
    assert forall|k: int| 0 <= k < items.len() implies items_view(items)[k] == value_view(
        items[k],
    ) by {
        lemma_items_view_from(items, 0, k);
    }
}

/// `fields_view` maps the model of each binding over the sequence.
pub broadcast proof fn lemma_fields_view(fields: Seq<ObjField>)
    ensures
        (#[trigger] fields_view(fields)).len() == fields.len(),
        forall|k: int| 0 <= k < fields.len() ==> fields_view(fields)[k] == (
            fields[k].key@,
            value_view(fields[k].value),
        ),
{
    lemma_fields_view_from_len(fields, 0);
    assert forall|k: int| 0 <= k < fields.len() implies fields_view(fields)[k] == (
        fields[k].key@,
        value_view(fields[k].value),
    ) by {
        lemma_fields_view_from(fields, 0, k);
    }
}

impl View for PayloadValue {
    type V = SpecVal;

    open spec fn view(&self) -> SpecVal {
        value_view(*self)
    }
}

/// Whether a value is a scalar: the only values a filter may compare against.
pub open spec fn is_scalar(v: SpecVal) -> bool {
    match v {
        SpecVal::Null => true,
        SpecVal::Bool(_) => true,
        SpecVal::Int(_) => true,
        SpecVal::Str(_) => true,
        SpecVal::Arr(_) => false,
        SpecVal::Obj(_) => false,
    }
}

/// First binding of `key` among `fields`, searching from position `i`.
pub open spec fn obj_get_from(
    fields: Seq<(Seq<char>, SpecVal)>,
    key: Seq<char>,
    i: int,
) -> Option<SpecVal>
    decreases fields.len() - i,
{
    if i < 0 || i >= fields.len() {
        None
    } else if fields[i].0 == key {
        Some(fields[i].1)
    } else {
        obj_get_from(fields, key, i + 1)
    }
}

/// Value bound to `key` when `v` is a mapping that binds it.
pub open spec fn obj_get(v: SpecVal, key: Seq<char>) -> Option<SpecVal> {
    match v {
        SpecVal::Obj(fields) => obj_get_from(fields, key, 0),
        _ => None,
    }
}

impl PayloadValue {
    /// Decides whether this value is a scalar.
    pub fn is_scalar_value(&self) -> (r: bool)
        ensures
            r == is_scalar(self@),
    {
        match self {
            PayloadValue::Null => true,
            PayloadValue::Bool(_) => true,
            PayloadValue::Int(_) => true,
            PayloadValue::Str(_) => true,
            PayloadValue::Arr(_) => false,
            PayloadValue::Obj(_) => false,
        }
    }
}

/// Scalar equality: decides whether the models of `a` and `b` coincide, for a
/// scalar `a`.  Two values of different shapes never compare equal.
pub fn scalar_eq(a: &PayloadValue, b: &PayloadValue) -> (r: bool)
    requires
        is_scalar(a@),
    ensures
        r == (a@ == b@),
{
    match (a, b) {
        (PayloadValue::Null, PayloadValue::Null) => true,
        (PayloadValue::Bool(x), PayloadValue::Bool(y)) => *x == *y,
        (PayloadValue::Int(x), PayloadValue::Int(y)) => *x == *y,
        (PayloadValue::Str(x), PayloadValue::Str(y)) => *x == *y,
        _ => false,
    }
}

impl Clone for ObjField {
    /// A clone has the same model as the original binding.
    fn clone(&self) -> (r: Self)
        ensures
            r.key@ == self.key@,
            r.value@ == self.value@,
        decreases *self, 2int,
    {
        ObjField { key: self.key.clone(), value: self.value.clone() }
    }
}

fn clone_items(items: &Vec<PayloadValue>) -> (out: Vec<PayloadValue>)
    ensures
        out@.len() == items@.len(),
        forall|k: int| 0 <= k < items@.len() ==> value_view(out@[k]) == value_view(items@[k]),
    decreases *items, 1int,
{
    let n: usize = items.len();
    let mut out: Vec<PayloadValue> = Vec::new();
    let mut i: usize = 0;
    while i < n
        invariant
            n == items@.len(),
            0 <= i <= n,
            out@.len() == i,
            forall|k: int| 0 <= k < i ==> value_view(out@[k]) == value_view(items@[k]),
        decreases n - i,
    {
        let c = items[i].clone();
        out.push(c);
        i = i + 1;
    }
    out
}

fn clone_fields(fields: &Vec<ObjField>) -> (out: Vec<ObjField>)
    ensures
        out@.len() == fields@.len(),
        forall|k: int|
            0 <= k < fields@.len() ==> out@[k].key@ == fields@[k].key@ && value_view(out@[k].value)
                == value_view(fields@[k].value),
    decreases *fields, 1int,
{
    let n: usize = fields.len();
    let mut out: Vec<ObjField> = Vec::new();
    let mut i: usize = 0;
    while i < n
        invariant
            n == fields@.len(),
            0 <= i <= n,
            out@.len() == i,
            forall|k: int|
                0 <= k < i ==> out@[k].key@ == fields@[k].key@ && value_view(out@[k].value)
                    == value_view(fields@[k].value),
        decreases n - i,
    {
        let c = fields[i].clone();
        out.push(c);
        i = i + 1;
    }
    out
}

impl Clone for PayloadValue {
    /// A clone has the same model as the original value.
    fn clone(&self) -> (r: Self)
        ensures
            r@ == self@,
        decreases *self, 0int,
    {
        match self {
            PayloadValue::Null => PayloadValue::Null,
            PayloadValue::Bool(b) => PayloadValue::Bool(*b),
            PayloadValue::Int(i) => PayloadValue::Int(*i),
            PayloadValue::Str(s) => PayloadValue::Str(s.clone()),
            PayloadValue::Arr(items) => {
                let out = clone_items(items);
                proof {
                    lemma_items_view(out@);
                    lemma_items_view(items@);
                    assert(items_view(out@) =~= items_view(items@));
                }
                PayloadValue::Arr(out)
            },
            PayloadValue::Obj(fields) => {
                let out = clone_fields(fields);
                proof {
                    lemma_fields_view(out@);
                    lemma_fields_view(fields@);
                    assert(fields_view(out@) =~= fields_view(fields@));
                }
                PayloadValue::Obj(out)
            },
        }
    }
}

impl PayloadValue {
    /// Looks `key` up in this value, which must be a mapping; yields the value
    /// of the first field carrying that key.
    pub fn get_field<'a>(&'a self, key: &String) -> (r: Option<&'a PayloadValue>)
        ensures
            match r {
                Some(found) => obj_get(self@, key@) == Some(found@),
                None => obj_get(self@, key@) is None,
            },
    {
        match self {
            PayloadValue::Obj(fields) => {
                proof {
                    lemma_fields_view(fields@);
                }
                let n: usize = fields.len();
                let mut i: usize = 0;
                while i < n
                    invariant
                        n == fields@.len(),
                        0 <= i <= n,
                        self@ == SpecVal::Obj(fields_view(fields@)),
                        fields_view(fields@).len() == n,
                        forall|k: int|
                            0 <= k < n ==> fields_view(fields@)[k] == (
                                fields@[k].key@,
                                value_view(fields@[k].value),
                            ),
                        obj_get(self@, key@) == obj_get_from(fields_view(fields@), key@, i as int),
                    decreases n - i,
                {
                    if fields[i].key == *key {
                        assert(fields_view(fields@)[i as int].0 == key@);
                        return Some(&fields[i].value);
                    }
                    assert(fields_view(fields@)[i as int].0 != key@);
                    i = i + 1;
                }
                None
            },
            _ => None,
        }
    }
}

} // verus!
