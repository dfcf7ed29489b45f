//! The JSON value tree and its mathematical model.

use vstd::prelude::*;

verus! {

/// A JSON number, kept as a sign, a decimal mantissa and a decimal exponent,
/// so that the tree itself holds only plain integer data.
#[derive(Clone, Copy, Debug, PartialEq, Eq, Structural)]
pub struct JsonNumber {
    pub positive: bool,
    pub mantissa: u64,
    pub exponent: i16,
}

/// A JSON document tree. Object members are kept in insertion order.
#[derive(Debug, PartialEq, Eq)]
pub enum JsonValue {
    Null,
    Bool(bool),
    Num(JsonNumber),
    Str(String),
    Arr(Vec<JsonValue>),
    Obj(Vec<(String, JsonValue)>),
}

/// The mathematical model of a JSON tree: strings become sequences of
/// characters, arrays and objects become sequences.
pub enum JsonData {
    Null,
    Bool(bool),
    Num(JsonNumber),
    Str(Seq<char>),
    Arr(Seq<JsonData>),
    Obj(Seq<(Seq<char>, JsonData)>),
}

impl View for JsonValue {
    type V = JsonData;

    open spec fn view(&self) -> JsonData
        decreases self,
    {
        match self {
            JsonValue::Null => JsonData::Null,
            JsonValue::Bool(b) => JsonData::Bool(*b),
            JsonValue::Num(n) => JsonData::Num(*n),
            JsonValue::Str(s) => JsonData::Str(s@),
            JsonValue::Arr(elems) => JsonData::Arr(seq_view(elems@)),
            JsonValue::Obj(fields) => JsonData::Obj(fields_view(fields@)),
        }
    }
}

/// The models of a sequence of JSON values, elementwise.
pub open spec fn seq_view(elems: Seq<JsonValue>) -> Seq<JsonData>
    decreases elems,
{
    Seq::new(
        elems.len(),
        |i: int|
            if 0 <= i < elems.len() {
                elems[i]@
            } else {
                JsonData::Null
            },
    )
}

/// The models of an object's member list, elementwise.
pub open spec fn fields_view(fields: Seq<(String, JsonValue)>) -> Seq<(Seq<char>, JsonData)>
    decreases fields,
{
    Seq::new(
        fields.len(),
        |i: int|
            if 0 <= i < fields.len() {
                (fields[i].0@, fields[i].1@)
            } else {
                (Seq::<char>::empty(), JsonData::Null)
            },
    )
}

/// The value of the first member with the given key, if any.
pub open spec fn lookup(fields: Seq<(Seq<char>, JsonData)>, key: Seq<char>) -> Option<JsonData>
    decreases fields.len(),
{
    if fields.len() == 0 {
        None
    } else if fields[0].0 == key {
        Some(fields[0].1)
    } else {
        lookup(fields.drop_first(), key)
    }
}

/// Keyed access as JSON objects have it: a value that is not an object, and an
/// object without the key, both read as null.
pub open spec fn get_of(v: JsonData, key: Seq<char>) -> JsonData {
    match v {
        JsonData::Obj(fields) => match lookup(fields, key) {
            Some(w) => w,
            None => JsonData::Null,
        },
        _ => JsonData::Null,
    }
}

/// Insertion into an object's member list: the first member with the same key
/// has its value overwritten in place; otherwise the member is appended.
pub open spec fn insert_fields(
    fields: Seq<(Seq<char>, JsonData)>,
    key: Seq<char>,
    val: JsonData,
) -> Seq<(Seq<char>, JsonData)>
    decreases fields.len(),
{
    if fields.len() == 0 {
        seq![(key, val)]
    } else if fields[0].0 == key {
        seq![(key, val)] + fields.drop_first()
    } else {
        seq![fields[0]] + insert_fields(fields.drop_first(), key, val)
    }
}

/// The elements of a JSON array; any other value has none.
pub open spec fn members_of(v: JsonData) -> Seq<JsonData> {
    match v {
        JsonData::Arr(elems) => elems,
        _ => Seq::empty(),
    }
}

/// Well-formedness of an object's member list: keys are unique.
pub open spec fn keys_unique(fields: Seq<(Seq<char>, JsonData)>) -> bool {
    forall|i: int, j: int| 0 <= i < j < fields.len() ==> fields[i].0 != fields[j].0
}

/// Insertion adds no key beyond the inserted one and those already present.
proof fn lemma_insert_key_set(
    fields: Seq<(Seq<char>, JsonData)>,
    key: Seq<char>,
    val: JsonData,
)
    ensures
        forall|i: int|
            0 <= i < insert_fields(fields, key, val).len() ==> (
            #[trigger] insert_fields(fields, key, val)[i].0 == key || exists|j: int|
                0 <= j < fields.len() && fields[j].0 == insert_fields(fields, key, val)[i].0),
    decreases fields.len(),
{
    if fields.len() == 0 {
    } else if fields[0].0 == key {
    } else {
        lemma_insert_key_set(fields.drop_first(), key, val);
        assert forall|i: int|
            0 <= i < insert_fields(fields, key, val).len() implies (#[trigger] insert_fields(
            fields,
            key,
            val,
        )[i].0 == key || exists|j: int|
            0 <= j < fields.len() && fields[j].0 == insert_fields(fields, key, val)[i].0) by {
            let out = insert_fields(fields, key, val);
            if i == 0 {
                assert(fields[0].0 == out[0].0);
            } else {
                let rec = insert_fields(fields.drop_first(), key, val);
                assert(out[i] == rec[i - 1]);
                if rec[i - 1].0 != key {
                    let j = choose|j: int|
                        0 <= j < fields.drop_first().len() && fields.drop_first()[j].0 == rec[i
                            - 1].0;
                    assert(fields[j + 1].0 == out[i].0);
                }
            }
        }
    }
}

/// Insertion keeps an object's keys unique.
pub proof fn lemma_insert_keys_unique(
    fields: Seq<(Seq<char>, JsonData)>,
    key: Seq<char>,
    val: JsonData,
)
    requires
        keys_unique(fields),
    ensures
        keys_unique(insert_fields(fields, key, val)),
    decreases fields.len(),
{
    if fields.len() == 0 {
    } else if fields[0].0 == key {
        let out = insert_fields(fields, key, val);
        assert forall|i: int, j: int| 0 <= i < j < out.len() implies out[i].0 != out[j].0 by {
            assert(out[j] == fields[j]);
            if i > 0 {
                assert(out[i] == fields[i]);
            }
        }
    } else {
        assert(keys_unique(fields.drop_first()));
        lemma_insert_keys_unique(fields.drop_first(), key, val);
        lemma_insert_key_set(fields.drop_first(), key, val);
        let rec = insert_fields(fields.drop_first(), key, val);
        let out = insert_fields(fields, key, val);
        assert forall|i: int, j: int| 0 <= i < j < out.len() implies out[i].0 != out[j].0 by {
            if i == 0 {
                assert(out[0] == fields[0]);
                assert(out[j] == rec[j - 1]);
                if rec[j - 1].0 == key {
                } else {
                    let m = choose|m: int|
                        0 <= m < fields.drop_first().len() && fields.drop_first()[m].0 == rec[j
                            - 1].0;
                    assert(fields[m + 1].0 == rec[j - 1].0);
                }
            } else {
                assert(out[i] == rec[i - 1]);
                assert(out[j] == rec[j - 1]);
            }
        }
    }
}

/// `lookup` passes over a prefix in which no key matches.
proof fn lemma_lookup_skip(fields: Seq<(Seq<char>, JsonData)>, key: Seq<char>, i: int)
    requires
        0 <= i <= fields.len(),
        forall|j: int| 0 <= j < i ==> fields[j].0 != key,
    ensures
        lookup(fields, key) == lookup(fields.skip(i), key),
    decreases i,
{
    if i > 0 {
        lemma_lookup_skip(fields, key, i - 1);
        assert(fields.skip(i - 1)[0] == fields[i - 1]);
        assert(fields.skip(i - 1).drop_first() =~= fields.skip(i));
    } else {
        assert(fields.skip(0) =~= fields);
    }
}

/// If the first match of a key stands at index `i`, `lookup` returns its value.
pub proof fn lemma_lookup_found(fields: Seq<(Seq<char>, JsonData)>, key: Seq<char>, i: int)
    requires
        0 <= i < fields.len(),
        fields[i].0 == key,
        forall|j: int| 0 <= j < i ==> fields[j].0 != key,
    ensures
        lookup(fields, key) == Some(fields[i].1),
{
    lemma_lookup_skip(fields, key, i);
    assert(fields.skip(i)[0] == fields[i]);
}

/// If no key matches, `lookup` returns nothing.
pub proof fn lemma_lookup_missing(fields: Seq<(Seq<char>, JsonData)>, key: Seq<char>)
    requires
        forall|j: int| 0 <= j < fields.len() ==> fields[j].0 != key,
    ensures
        lookup(fields, key) is None,
{
    lemma_lookup_skip(fields, key, fields.len() as int);
    assert(fields.skip(fields.len() as int) =~= Seq::<(Seq<char>, JsonData)>::empty());
}

/// `insert_fields` passes over a prefix in which no key matches.
proof fn lemma_insert_skip(
    fields: Seq<(Seq<char>, JsonData)>,
    key: Seq<char>,
    val: JsonData,
    i: int,
)
    requires
        0 <= i <= fields.len(),
        forall|j: int| 0 <= j < i ==> fields[j].0 != key,
    ensures
        insert_fields(fields, key, val) == fields.take(i) + insert_fields(
            fields.skip(i),
            key,
            val,
        ),
    decreases i,
{
    if i > 0 {
        lemma_insert_skip(fields, key, val, i - 1);
        assert(fields.skip(i - 1)[0] == fields[i - 1]);
        assert(fields.skip(i - 1).drop_first() =~= fields.skip(i));
        assert(fields.take(i - 1) + (seq![fields[i - 1]] + insert_fields(
            fields.skip(i),
            key,
            val,
        )) =~= fields.take(i) + insert_fields(fields.skip(i), key, val));
    } else {
        assert(fields.skip(0) =~= fields);
        assert(fields.take(0) + insert_fields(fields, key, val) =~= insert_fields(
            fields,
            key,
            val,
        ));
    }
}

/// If the first match of a key stands at index `i`, insertion overwrites there.
pub proof fn lemma_insert_found(
    fields: Seq<(Seq<char>, JsonData)>,
    key: Seq<char>,
    val: JsonData,
    i: int,
)
    requires
        0 <= i < fields.len(),
        fields[i].0 == key,
        forall|j: int| 0 <= j < i ==> fields[j].0 != key,
    ensures
        insert_fields(fields, key, val) == fields.update(i, (key, val)),
{
    lemma_insert_skip(fields, key, val, i);
    assert(fields.skip(i)[0] == fields[i]);
    assert(fields.skip(i).drop_first() =~= fields.skip(i + 1));
    assert(fields.take(i) + (seq![(key, val)] + fields.skip(i + 1)) =~= fields.update(
        i,
        (key, val),
    ));
}

/// If no key matches, insertion appends the member.
pub proof fn lemma_insert_missing(fields: Seq<(Seq<char>, JsonData)>, key: Seq<char>, val: JsonData)
    requires
        forall|j: int| 0 <= j < fields.len() ==> fields[j].0 != key,
    ensures
        insert_fields(fields, key, val) == fields.push((key, val)),
{
    lemma_insert_skip(fields, key, val, fields.len() as int);
    assert(fields.skip(fields.len() as int) =~= Seq::<(Seq<char>, JsonData)>::empty());
    assert(fields.take(fields.len() as int) =~= fields);
    assert(fields + seq![(key, val)] =~= fields.push((key, val)));
}

impl JsonValue {
    /// True exactly when the value is the JSON null.
    pub fn is_null(&self) -> (r: bool)
        ensures
            r == (self@ == JsonData::Null),
    {
        match self {
            JsonValue::Null => true,
            _ => false,
        }
    }

    /// True exactly when the value is a JSON array.
    pub fn is_array(&self) -> (r: bool)
        ensures
            r == self@ is Arr,
    {
        match self {
            JsonValue::Arr(_) => true,
            _ => false,
        }
    }

    /// A structural copy of the whole tree, with the same model.
    #[verifier::loop_isolation(false)]
    pub fn deep_clone(&self) -> (r: JsonValue)
        ensures
            r@ == self@,
        decreases self,
    {
        match self {
            JsonValue::Null => JsonValue::Null,
            JsonValue::Bool(b) => JsonValue::Bool(*b),
            JsonValue::Num(n) => JsonValue::Num(*n),
            JsonValue::Str(s) => JsonValue::Str(s.clone()),
            JsonValue::Arr(elems) => {
                let mut out: Vec<JsonValue> = Vec::new();
                let mut i: usize = 0;
                while i < elems.len()
                    invariant
                        i <= elems@.len(),
                        out@.len() == i,
                        forall|j: int| 0 <= j < i ==> out@[j]@ == elems@[j]@,
                    decreases elems@.len() - i,
                {
                    proof {
                        assert(decreases_to!(*self => *elems));
                        assert(decreases_to!(*elems => elems[i as int]));
                    }
                    let e = elems[i].deep_clone();
                    out.push(e);
                    i += 1;
                }
                proof {
                    assert(seq_view(out@) =~= seq_view(elems@));
                }
                JsonValue::Arr(out)
            },
            JsonValue::Obj(fields) => {
                let mut out: Vec<(String, JsonValue)> = Vec::new();
                let mut i: usize = 0;
                while i < fields.len()
                    invariant
                        i <= fields@.len(),
                        out@.len() == i,
                        forall|j: int|
                            0 <= j < i ==> out@[j].0@ == fields@[j].0@ && out@[j].1@
                                == fields@[j].1@,
                    decreases fields@.len() - i,
                {
                    proof {
                        assert(decreases_to!(*self => *fields));
                        assert(decreases_to!(*fields => fields[i as int]));
                    }
                    let k = fields[i].0.clone();
                    let v = fields[i].1.deep_clone();
                    out.push((k, v));
                    i += 1;
                }
                proof {
                    assert(fields_view(out@) =~= fields_view(fields@));
                }
                JsonValue::Obj(out)
            },
        }
    }

    /// Keyed access: the value of the first member with the given key. A value
    /// that is not an object, and an object without the key, yield `None`.
    #[verifier::loop_isolation(false)]
    pub fn get_field<'a>(&'a self, key: &str) -> (r: Option<&'a JsonValue>)
        ensures
            match r {
                Some(v) => get_of(self@, key@) == v@,
                None => get_of(self@, key@) == JsonData::Null,
            },
    {
        match self {
            JsonValue::Obj(fields) => {
                let k: String = key.to_owned();
                let mut i: usize = 0;
                while i < fields.len()
                    invariant
                        i <= fields@.len(),
                        k@ == key@,
                        forall|j: int| 0 <= j < i ==> fields_view(fields@)[j].0 != key@,
                    decreases fields@.len() - i,
                {
                    if fields[i].0 == k {
                        proof {
                            lemma_lookup_found(fields_view(fields@), key@, i as int);
                            assert(self@ == JsonData::Obj(fields_view(fields@)));
                            assert(fields_view(fields@)[i as int].1 == fields@[i as int].1@);
                        }
                        return Some(&fields[i].1);
                    }
                    i += 1;
                }
                proof {
                    lemma_lookup_missing(fields_view(fields@), key@);
                }
                None
            },
            _ => None,
        }
    }
}

/// Insertion into an object's member list, as JSON objects have it: the first
/// member with the same key has its value overwritten in place; otherwise the
/// member is appended.
#[verifier::loop_isolation(false)]
pub fn obj_insert(fields: &mut Vec<(String, JsonValue)>, key: String, val: JsonValue)
    ensures
        fields_view(final(fields)@) == insert_fields(fields_view(old(fields)@), key@, val@),
{
    let mut i: usize = 0;
    while i < fields.len()
        invariant
            i <= fields@.len(),
            fields@ == old(fields)@,
            forall|j: int| 0 <= j < i ==> fields_view(fields@)[j].0 != key@,
        decreases fields@.len() - i,
    {
        if fields[i].0 == key {
            proof {
                lemma_insert_found(fields_view(fields@), key@, val@, i as int);
            }
            fields.remove(i);
            fields.insert(i, (key, val));
            proof {
                assert(fields_view(fields@) =~= fields_view(old(fields)@).update(
                    i as int,
                    (key@, val@),
                ));
            }
            return ;
        }
        i += 1;
    }
    proof {
        lemma_insert_missing(fields_view(fields@), key@, val@);
    }
    fields.push((key, val));
    proof {
        assert(fields_view(fields@) =~= fields_view(old(fields)@).push((key@, val@)));
    }
}

} // verus!
