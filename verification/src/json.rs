//! The library's own JSON value model.
//!
//! Document content is schema-less JSON. The store only ever inspects
//! strings, arrays of strings and object fields, so the model keeps numbers
//! either as `i64` or as their literal text, and carries native date values
//! (milliseconds since the Unix epoch) for the fields the store derives.

use vstd::prelude::*;
use vstd::string::StrSliceExecFns;

verus! {

/// Mathematical model of a JSON value, used in specifications.
pub enum JsonV {
    Null,
    Bool(bool),
    Int(int),
    /// A numeric literal kept as text (for numbers that are not `i64`).
    Num(Seq<char>),
    Str(Seq<char>),
    /// A native date value: milliseconds since the Unix epoch.
    Date(int),
    Arr(Seq<JsonV>),
    Obj(Seq<(Seq<char>, JsonV)>),
}

/// An executable JSON value.
#[derive(Debug)]
pub enum Json {
    Null,
    Bool(bool),
    Int(i64),
    /// A numeric literal kept as text (for numbers that are not `i64`).
    Num(String),
    Str(String),
    /// A native date value: milliseconds since the Unix epoch.
    Date(i64),
    Arr(Vec<Json>),
    Obj(Vec<(String, Json)>),
}

pub open spec fn jv_seq(items: Seq<Json>) -> Seq<JsonV>
    decreases items,
{
    if items.len() == 0 {
        Seq::empty()
    } else {
        seq![items[0]@] + jv_seq(items.drop_first())
    }
}

pub open spec fn jv_fields(fields: Seq<(String, Json)>) -> Seq<(Seq<char>, JsonV)>
    decreases fields,
{
    if fields.len() == 0 {
        Seq::empty()
    } else {
        seq![(fields[0].0@, fields[0].1@)] + jv_fields(fields.drop_first())
    }
}

impl View for Json {
    type V = JsonV;

    open spec fn view(&self) -> JsonV
        decreases self,
    {
        match self {
            Json::Null => JsonV::Null,
            Json::Bool(b) => JsonV::Bool(*b),
            Json::Int(n) => JsonV::Int(*n as int),
            Json::Num(s) => JsonV::Num(s@),
            Json::Str(s) => JsonV::Str(s@),
            Json::Date(ms) => JsonV::Date(*ms as int),
            Json::Arr(items) => JsonV::Arr(jv_seq(items@)),
            Json::Obj(fields) => JsonV::Obj(jv_fields(fields@)),
        }
    }
}

/// The view of a sequence of values is the sequence of their views.
pub broadcast proof fn lemma_jv_seq_index(items: Seq<Json>, i: int)
    requires
        0 <= i < items.len(),
    ensures
        jv_seq(items).len() == items.len(),
        #[trigger] jv_seq(items)[i] == items[i]@,
    decreases items,
{
    lemma_jv_seq_len(items);
    assert(jv_seq(items) == seq![items[0]@] + jv_seq(items.drop_first()));
    if i > 0 {
        lemma_jv_seq_index(items.drop_first(), i - 1);
        assert(items.drop_first()[i - 1] == items[i]);
    }
}

pub broadcast proof fn lemma_jv_seq_len(items: Seq<Json>)
    ensures
        #[trigger] jv_seq(items).len() == items.len(),
    decreases items,
{
    if items.len() > 0 {
        lemma_jv_seq_len(items.drop_first());
        assert(jv_seq(items) == seq![items[0]@] + jv_seq(items.drop_first()));
    } else {
        assert(jv_seq(items) == Seq::<JsonV>::empty());
    }
}

/// The view of a field list is the pointwise view of its entries.
pub broadcast proof fn lemma_jv_fields_index(fields: Seq<(String, Json)>, i: int)
    requires
        0 <= i < fields.len(),
    ensures
        jv_fields(fields).len() == fields.len(),
        #[trigger] jv_fields(fields)[i] == (fields[i].0@, fields[i].1@),
    decreases fields,
{
    lemma_jv_fields_len(fields);
    assert(jv_fields(fields) == seq![(fields[0].0@, fields[0].1@)] + jv_fields(fields.drop_first()));
    if i > 0 {
        lemma_jv_fields_index(fields.drop_first(), i - 1);
        assert(fields.drop_first()[i - 1] == fields[i]);
    }
}

pub broadcast proof fn lemma_jv_fields_len(fields: Seq<(String, Json)>)
    ensures
        #[trigger] jv_fields(fields).len() == fields.len(),
    decreases fields,
{
    if fields.len() > 0 {
        lemma_jv_fields_len(fields.drop_first());
        assert(jv_fields(fields) == seq![(fields[0].0@, fields[0].1@)] + jv_fields(fields.drop_first()));
    } else {
        assert(jv_fields(fields) == Seq::<(Seq<char>, JsonV)>::empty());
    }
}

/// Viewing value sequences commutes with appending.
pub proof fn lemma_jv_seq_push(items: Seq<Json>, x: Json)
    ensures
        jv_seq(items.push(x)) =~= jv_seq(items).push(x@),
{
    lemma_jv_seq_len(items);
    lemma_jv_seq_len(items.push(x));
    assert forall|k: int| 0 <= k < items.len() + 1 implies #[trigger] jv_seq(items.push(x))[k]
        == jv_seq(items).push(x@)[k] by {
        lemma_jv_seq_index(items.push(x), k);
        if k < items.len() {
            lemma_jv_seq_index(items, k);
        }
    }
}

/// Viewing field lists commutes with removing an entry.
pub proof fn lemma_jv_fields_remove(fields: Seq<(String, Json)>, i: int)
    requires
        0 <= i < fields.len(),
    ensures
        jv_fields(fields.remove(i)) =~= jv_fields(fields).remove(i),
{
    lemma_jv_fields_len(fields);
    lemma_jv_fields_len(fields.remove(i));
    assert forall|k: int| 0 <= k < fields.len() - 1 implies #[trigger] jv_fields(fields.remove(i))[k]
        == jv_fields(fields).remove(i)[k] by {
        lemma_jv_fields_index(fields.remove(i), k);
        if k < i {
            lemma_jv_fields_index(fields, k);
        } else {
            lemma_jv_fields_index(fields, k + 1);
        }
    }
}

/// Viewing field lists commutes with inserting an entry.
pub proof fn lemma_jv_fields_insert(fields: Seq<(String, Json)>, i: int, e: (String, Json))
    requires
        0 <= i <= fields.len(),
    ensures
        jv_fields(fields.insert(i, e)) =~= jv_fields(fields).insert(i, (e.0@, e.1@)),
{
    lemma_jv_fields_len(fields);
    lemma_jv_fields_len(fields.insert(i, e));
    assert forall|k: int| 0 <= k < fields.len() + 1 implies #[trigger] jv_fields(
        fields.insert(i, e),
    )[k] == jv_fields(fields).insert(i, (e.0@, e.1@))[k] by {
        lemma_jv_fields_index(fields.insert(i, e), k);
        if k < i {
            lemma_jv_fields_index(fields, k);
        } else if k > i {
            lemma_jv_fields_index(fields, k - 1);
        }
    }
}

/// Index of the first field named `key`, if any.
pub open spec fn first_key_index(fields: Seq<(Seq<char>, JsonV)>, key: Seq<char>) -> Option<int>
    decreases fields,
{
    if fields.len() == 0 {
        None
    } else if fields[0].0 == key {
        Some(0int)
    } else {
        match first_key_index(fields.drop_first(), key) {
            Some(i) => Some(i + 1),
            None => None,
        }
    }
}

pub proof fn lemma_first_key_index(fields: Seq<(Seq<char>, JsonV)>, key: Seq<char>)
    ensures
        match first_key_index(fields, key) {
            Some(i) => 0 <= i < fields.len() && fields[i].0 == key && (forall|k: int|
                0 <= k < i ==> fields[k].0 != key),
            None => forall|k: int| 0 <= k < fields.len() ==> fields[k].0 != key,
        },
    decreases fields,
{
    if fields.len() > 0 && fields[0].0 != key {
        lemma_first_key_index(fields.drop_first(), key);
        assert(forall|k: int|
            1 <= k < fields.len() ==> fields[k] == fields.drop_first()[k - 1]);
    }
}

/// The first field named `key` is wherever the first such field stands.
pub proof fn lemma_first_key_index_at(fields: Seq<(Seq<char>, JsonV)>, key: Seq<char>, j: int)
    requires
        0 <= j <= fields.len(),
        forall|k: int| 0 <= k < j ==> (#[trigger] fields[k]).0 != key,
        j < fields.len() ==> fields[j].0 == key,
    ensures
        first_key_index(fields, key) == if j == fields.len() {
            Option::<int>::None
        } else {
            Option::<int>::Some(j)
        },
    decreases fields,
{
    if fields.len() > 0 && fields[0].0 != key {
        assert(forall|k: int| 1 <= k < fields.len() ==> fields[k] == fields.drop_first()[k - 1]);
        lemma_first_key_index_at(fields.drop_first(), key, j - 1);
    }
}

/// Value of the first field named `key` of an object, if any.
pub open spec fn lookup_fields(fields: Seq<(Seq<char>, JsonV)>, key: Seq<char>) -> Option<JsonV> {
    match first_key_index(fields, key) {
        Some(i) => Some(fields[i].1),
        None => None,
    }
}

/// Field lookup on a JSON value: `None` unless the value is an object with
/// such a field.
pub open spec fn lookup(v: JsonV, key: Seq<char>) -> Option<JsonV> {
    match v {
        JsonV::Obj(fields) => lookup_fields(fields, key),
        _ => None,
    }
}

/// Field update on an object's field list: the first field named `key` is
/// replaced, or a new field is appended.
pub open spec fn set_fields(
    fields: Seq<(Seq<char>, JsonV)>,
    key: Seq<char>,
    val: JsonV,
) -> Seq<(Seq<char>, JsonV)> {
    match first_key_index(fields, key) {
        Some(i) => fields.update(i, (key, val)),
        None => fields.push((key, val)),
    }
}

/// Field update on a JSON value; values other than objects are unchanged.
pub open spec fn set_field(v: JsonV, key: Seq<char>, val: JsonV) -> JsonV {
    match v {
        JsonV::Obj(fields) => JsonV::Obj(set_fields(fields, key, val)),
        _ => v,
    }
}

/// How field update interacts with lookup: the updated field reads back as
/// the new value, and every other field is untouched.
pub proof fn lemma_lookup_set(v: JsonV, key: Seq<char>, val: JsonV, q: Seq<char>)
    requires
        v is Obj,
    ensures
        q == key ==> lookup(set_field(v, key, val), q) == Some(val),
        q != key ==> lookup(set_field(v, key, val), q) == lookup(v, q),
{
    let fields = v->Obj_0;
    lemma_first_key_index(fields, key);
    match first_key_index(fields, key) {
        Some(i) => {
            let updated = fields.update(i, (key, val));
            assert(forall|k: int| 0 <= k < fields.len() && k != i ==> updated[k] == fields[k]);
            assert(forall|k: int|
                0 <= k < fields.len() ==> (#[trigger] updated[k]).0 == fields[k].0);
            if q == key {
                lemma_first_key_index_at(updated, q, i);
            } else {
                lemma_first_key_index(fields, q);
                match first_key_index(fields, q) {
                    Some(j) => {
                        lemma_first_key_index_at(updated, q, j);
                        assert(j != i);
                    },
                    None => {
                        lemma_first_key_index_at(updated, q, updated.len() as int);
                    },
                }
            }
        },
        None => {
            let pushed = fields.push((key, val));
            assert(forall|k: int| 0 <= k < fields.len() ==> pushed[k] == fields[k]);
            if q == key {
                lemma_first_key_index_at(pushed, q, fields.len() as int);
            } else {
                lemma_first_key_index(fields, q);
                match first_key_index(fields, q) {
                    Some(j) => {
                        lemma_first_key_index_at(pushed, q, j);
                    },
                    None => {
                        lemma_first_key_index_at(pushed, q, pushed.len() as int);
                    },
                }
            }
        },
    }
}

/// Setting a field keeps a value an object.
pub proof fn lemma_set_field_obj(v: JsonV, key: Seq<char>, val: JsonV)
    requires
        v is Obj,
    ensures
        set_field(v, key, val) is Obj,
{
}

/// Character-for-character string equality.
pub fn str_eq(a: &str, b: &str) -> (r: bool)
    ensures
        r == (a@ == b@),
{
    let la = a.unicode_len();
    let lb = b.unicode_len();
    if la != lb {
        return false;
    }
    let mut i: usize = 0;
    while i < la
        invariant
            0 <= i <= la,
            la == a@.len(),
            la == b@.len(),
            forall|k: int| 0 <= k < i ==> a@[k] == b@[k],
        decreases la - i,
    {
        if a.get_char(i) != b.get_char(i) {
            return false;
        }
        i = i + 1;
    }
    proof {
        assert(a@ =~= b@);
    }
    true
}

impl Json {
    /// Index of the first field named `key`, for objects.
    pub fn find_key(fields: &Vec<(String, Json)>, key: &str) -> (r: Option<usize>)
        ensures
            match r {
                Some(i) => first_key_index(jv_fields(fields@), key@) == Some(i as int),
                None => first_key_index(jv_fields(fields@), key@) is None,
            },
    {
        proof {
            lemma_first_key_index(jv_fields(fields@), key@);
        }
        let mut i: usize = 0;
        while i < fields.len()
            invariant
                0 <= i <= fields@.len(),
                forall|k: int| 0 <= k < i ==> #[trigger] jv_fields(fields@)[k].0 != key@,
            decreases fields@.len() - i,
        {
            proof {
                lemma_jv_fields_index(fields@, i as int);
            }
            if str_eq(fields[i].0.as_str(), key) {
                proof {
                    lemma_first_key_index(jv_fields(fields@), key@);
                }
                return Some(i);
            }
            i = i + 1;
        }
        proof {
            lemma_jv_fields_len(fields@);
            lemma_first_key_index(jv_fields(fields@), key@);
        }
        None
    }

    /// The value of the first field named `key`, when this is an object that
    /// has one.
    pub fn get<'a>(&'a self, key: &str) -> (r: Option<&'a Json>)
        ensures
            match r {
                Some(j) => lookup(self@, key@) == Some(j@),
                None => lookup(self@, key@) is None,
            },
    {
        match self {
            Json::Obj(fields) => match Self::find_key(fields, key) {
                Some(i) => {
                    proof {
                        lemma_first_key_index(jv_fields(fields@), key@);
                        lemma_jv_fields_len(fields@);
                        lemma_jv_fields_index(fields@, i as int);
                    }
                    Some(&fields[i].1)
                },
                None => None,
            },
            _ => None,
        }
    }

    /// Replaces the first field named `key`, or appends one; values other
    /// than objects are returned unchanged.
    pub fn set(self, key: &str, val: Json) -> (r: Json)
        ensures
            r@ == set_field(self@, key@, val@),
    {
        match self {
            Json::Obj(mut fields) => {
                let ghost gfields = fields@;
                match Self::find_key(&fields, key) {
                    Some(i) => {
                        proof {
                            lemma_first_key_index(jv_fields(gfields), key@);
                            lemma_jv_fields_len(gfields);
                            lemma_jv_fields_index(gfields, i as int);
                        }
                        fields[i] = (key.to_owned(), val);
                        proof {
                            lemma_jv_fields_len(fields@);
                            assert forall|k: int| 0 <= k < fields@.len() implies #[trigger] jv_fields(
                                fields@,
                            )[k] == set_fields(jv_fields(gfields), key@, val@)[k] by {
                                lemma_jv_fields_index(fields@, k);
                                lemma_jv_fields_index(gfields, k);
                            }
                            assert(jv_fields(fields@) =~= set_fields(jv_fields(gfields), key@, val@));
                        }
                        Json::Obj(fields)
                    },
                    None => {
                        fields.push((key.to_owned(), val));
                        proof {
                            lemma_jv_fields_len(fields@);
                            lemma_jv_fields_len(gfields);
                            assert forall|k: int| 0 <= k < fields@.len() implies #[trigger] jv_fields(
                                fields@,
                            )[k] == set_fields(jv_fields(gfields), key@, val@)[k] by {
                                lemma_jv_fields_index(fields@, k);
                                if k < gfields.len() {
                                    lemma_jv_fields_index(gfields, k);
                                }
                            }
                            assert(jv_fields(fields@) =~= set_fields(jv_fields(gfields), key@, val@));
                        }
                        Json::Obj(fields)
                    },
                }
            },
            other => other,
        }
    }

    /// Structural equality: whether two values have the same view.
    #[verifier::loop_isolation(false)]
    pub fn deep_eq(&self, other: &Json) -> (r: bool)
        ensures
            r == (self@ == other@),
        decreases self,
    {
        match (self, other) {
            (Json::Null, Json::Null) => true,
            (Json::Bool(a), Json::Bool(b)) => a == b,
            (Json::Int(a), Json::Int(b)) => a == b,
            (Json::Num(a), Json::Num(b)) => str_eq(a.as_str(), b.as_str()),
            (Json::Str(a), Json::Str(b)) => str_eq(a.as_str(), b.as_str()),
            (Json::Date(a), Json::Date(b)) => a == b,
            (Json::Arr(a), Json::Arr(b)) => {
                proof {
                    lemma_jv_seq_len(a@);
                    lemma_jv_seq_len(b@);
                }
                if a.len() != b.len() {
                    return false;
                }
                let mut i: usize = 0;
                while i < a.len()
                    invariant
                        0 <= i <= a@.len(),
                        forall|k: int| 0 <= k < i ==> #[trigger] a@[k]@ == b@[k]@,
                    decreases a@.len() - i,
                {
                    proof {
                        assert(decreases_to!(*self => self->Arr_0));
                        assert(self->Arr_0 == *a);
                        assert(decreases_to!(a@ => a@[i as int]));
                        assert(decreases_to!(*self => a@[i as int]));
                    }
                    if !a[i].deep_eq(&b[i]) {
                        proof {
                            lemma_jv_seq_index(a@, i as int);
                            lemma_jv_seq_index(b@, i as int);
                        }
                        return false;
                    }
                    i = i + 1;
                }
                proof {
                    assert forall|k: int| 0 <= k < a@.len() implies #[trigger] jv_seq(a@)[k]
                        == jv_seq(b@)[k] by {
                        lemma_jv_seq_index(a@, k);
                        lemma_jv_seq_index(b@, k);
                    }
                    assert(jv_seq(a@) =~= jv_seq(b@));
                }
                true
            },
            (Json::Obj(a), Json::Obj(b)) => {
                proof {
                    lemma_jv_fields_len(a@);
                    lemma_jv_fields_len(b@);
                }
                if a.len() != b.len() {
                    return false;
                }
                let mut i: usize = 0;
                while i < a.len()
                    invariant
                        0 <= i <= a@.len(),
                        forall|k: int|
                            0 <= k < i ==> ((#[trigger] a@[k]).0@ == b@[k].0@ && a@[k].1@
                                == b@[k].1@),
                    decreases a@.len() - i,
                {
                    proof {
                        assert(decreases_to!(*self => self->Obj_0));
                        assert(self->Obj_0 == *a);
                        assert(decreases_to!(a@ => a@[i as int]));
                        assert(decreases_to!(*self => a@[i as int].1));
                    }
                    if !str_eq(a[i].0.as_str(), b[i].0.as_str()) {
                        proof {
                            lemma_jv_fields_index(a@, i as int);
                            lemma_jv_fields_index(b@, i as int);
                        }
                        return false;
                    }
                    if !a[i].1.deep_eq(&b[i].1) {
                        proof {
                            lemma_jv_fields_index(a@, i as int);
                            lemma_jv_fields_index(b@, i as int);
                        }
                        return false;
                    }
                    i = i + 1;
                }
                proof {
                    assert forall|k: int| 0 <= k < a@.len() implies #[trigger] jv_fields(a@)[k]
                        == jv_fields(b@)[k] by {
                        lemma_jv_fields_index(a@, k);
                        lemma_jv_fields_index(b@, k);
                    }
                    assert(jv_fields(a@) =~= jv_fields(b@));
                }
                true
            },
            _ => {
                proof {
                    assert(self@ != other@);
                }
                false
            },
        }
    }

    /// A structural copy: the result has the same view.
    #[verifier::loop_isolation(false)]
    pub fn deep_clone(&self) -> (r: Json)
        ensures
            r@ == self@,
        decreases self,
    {
        match self {
            Json::Null => Json::Null,
            Json::Bool(b) => Json::Bool(*b),
            Json::Int(n) => Json::Int(*n),
            Json::Num(s) => Json::Num(s.clone()),
            Json::Str(s) => Json::Str(s.clone()),
            Json::Date(ms) => Json::Date(*ms),
            Json::Arr(items) => {
                let mut out: Vec<Json> = Vec::new();
                let mut i: usize = 0;
                while i < items.len()
                    invariant
                        0 <= i <= items@.len(),
                        out@.len() == i,
                        forall|k: int| 0 <= k < i ==> #[trigger] out@[k]@ == items@[k]@,
                    decreases items@.len() - i,
                {
                    proof {
                        broadcast use vstd::std_specs::vec::group_vec_axioms;

                        assert(decreases_to!(*self => self->Arr_0));
                        assert(self->Arr_0 == *items);
                        assert(decreases_to!(items@ => items@[i as int]));
                        assert(decreases_to!(*self => items@[i as int]));
                    }
                    let c = items[i].deep_clone();
                    out.push(c);
                    i = i + 1;
                }
                proof {
                    assert forall|k: int| 0 <= k < items@.len() implies #[trigger] jv_seq(out@)[k]
                        == jv_seq(items@)[k] by {
                        lemma_jv_seq_index(out@, k);
                        lemma_jv_seq_index(items@, k);
                    }
                    lemma_jv_seq_len(out@);
                    lemma_jv_seq_len(items@);
                    assert(jv_seq(out@) =~= jv_seq(items@));
                }
                Json::Arr(out)
            },
            Json::Obj(fields) => {
                let mut out: Vec<(String, Json)> = Vec::new();
                let mut i: usize = 0;
                while i < fields.len()
                    invariant
                        0 <= i <= fields@.len(),
                        out@.len() == i,
                        forall|k: int|
                            0 <= k < i ==> #[trigger] out@[k].0@ == fields@[k].0@ && out@[k].1@
                                == fields@[k].1@,
                    decreases fields@.len() - i,
                {
                    proof {
                        broadcast use vstd::std_specs::vec::group_vec_axioms;

                        assert(decreases_to!(*self => self->Obj_0));
                        assert(self->Obj_0 == *fields);
                        assert(decreases_to!(fields@ => fields@[i as int]));
                        assert(decreases_to!(*self => fields@[i as int].1));
                    }
                    let k = fields[i].0.clone();
                    let v = fields[i].1.deep_clone();
                    out.push((k, v));
                    i = i + 1;
                }
                proof {
                    assert forall|k: int| 0 <= k < fields@.len() implies #[trigger] jv_fields(out@)[k]
                        == jv_fields(fields@)[k] by {
                        lemma_jv_fields_index(out@, k);
                        lemma_jv_fields_index(fields@, k);
                    }
                    lemma_jv_fields_len(out@);
                    lemma_jv_fields_len(fields@);
                    assert(jv_fields(out@) =~= jv_fields(fields@));
                }
                Json::Obj(out)
            },
        }
    }
}

} // verus!
