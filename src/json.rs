//! A JSON value tree, and lookups over flat objects.
use vstd::prelude::*;

verus! {

/// A JSON value as this library holds it.
///
/// Numbers that fit in a `u64` are `UInt`; any other number is kept as its
/// decimal text in `Num`.
#[derive(Debug, PartialEq, Eq)]
pub enum JsonValue {
    Null,
    Bool(bool),
    UInt(u64),
    Num(String),
    Str(String),
    Array(Vec<JsonValue>),
    Object(Vec<(String, JsonValue)>),
}

/// The mathematical model of a [`JsonValue`].
pub enum Json {
    Null,
    Bool(bool),
    UInt(u64),
    Num(Seq<char>),
    Str(Seq<char>),
    Array(Seq<Json>),
    Object(Seq<(Seq<char>, Json)>),
}

impl JsonValue {
    /// The model of this value, at every depth.
    pub open spec fn model(&self) -> Json
        decreases self, 0nat,
    {
        match self {
            JsonValue::Null => Json::Null,
            JsonValue::Bool(b) => Json::Bool(*b),
            JsonValue::UInt(n) => Json::UInt(*n),
            JsonValue::Num(s) => Json::Num(s@),
            JsonValue::Str(s) => Json::Str(s@),
            JsonValue::Array(v) => Json::Array(values_model(v@)),
            JsonValue::Object(v) => Json::Object(entries_model(v@)),
        }
    }
}

/// The models of a sequence of values.
pub open spec fn values_model(s: Seq<JsonValue>) -> Seq<Json>
    decreases s, 1nat,
{
    if s.len() == 0 {
        Seq::empty()
    } else {
        values_model(s.drop_last()).push(s.last().model())
    }
}

/// The models of the entries of an object, key by key.
pub open spec fn entries_model(s: Seq<(String, JsonValue)>) -> Seq<(Seq<char>, Json)>
    decreases s, 1nat,
{
    if s.len() == 0 {
        Seq::empty()
    } else {
        entries_model(s.drop_last()).push((s.last().0@, s.last().1.model()))
    }
}

impl View for JsonValue {
    type V = Json;

    open spec fn view(&self) -> Json {
        self.model()
    }
}

impl JsonValue {
    /// A copy of this value, equal to it at every depth.
    pub fn deep_clone(&self) -> (r: JsonValue)
        ensures
            r@ == self@,
        decreases self,
    {
        match self {
            JsonValue::Null => JsonValue::Null,
            JsonValue::Bool(b) => JsonValue::Bool(*b),
            JsonValue::UInt(n) => JsonValue::UInt(*n),
            JsonValue::Num(s) => JsonValue::Num(s.clone()),
            JsonValue::Str(s) => JsonValue::Str(s.clone()),
            JsonValue::Array(v) => {
                let mut out: Vec<JsonValue> = Vec::new();
                let mut i: usize = 0;
                while i < v.len()
                    invariant
                        *self == JsonValue::Array(*v),
                        i <= v.len(),
                        values_model(out@) == values_model(v@.subrange(0, i as int)),
                    decreases v.len() - i,
                {
                    proof {
                        assert(decreases_to!(*self => self->Array_0));
                        assert(decreases_to!(*v => v@));
                        assert(decreases_to!(v@ => v@[i as int]));
                    }
                    let c = v[i].deep_clone();
                    let ghost before = out@;
                    out.push(c);
                    proof {
                        assert(out@.drop_last() =~= before);
                        assert(v@.subrange(0, i + 1).drop_last() =~= v@.subrange(0, i as int));
                    }
                    i += 1;
                }
                assert(v@.subrange(0, v.len() as int) =~= v@);
                JsonValue::Array(out)
            },
            JsonValue::Object(v) => {
                let mut out: Vec<(String, JsonValue)> = Vec::new();
                let mut i: usize = 0;
                while i < v.len()
                    invariant
                        *self == JsonValue::Object(*v),
                        i <= v.len(),
                        entries_model(out@) == entries_model(v@.subrange(0, i as int)),
                    decreases v.len() - i,
                {
                    proof {
                        assert(decreases_to!(*self => self->Object_0));
                        assert(decreases_to!(*v => v@));
                        assert(decreases_to!(v@ => v@[i as int]));
                        assert(decreases_to!(v@[i as int] => v@[i as int].1));
                    }
                    let (k, val) = &v[i];
                    let c = (k.clone(), val.deep_clone());
                    let ghost before = out@;
                    out.push(c);
                    proof {
                        assert(out@.drop_last() =~= before);
                        assert(v@.subrange(0, i + 1).drop_last() =~= v@.subrange(0, i as int));
                    }
                    i += 1;
                }
                assert(v@.subrange(0, v.len() as int) =~= v@);
                JsonValue::Object(out)
            },
        }
    }
}

impl Clone for JsonValue {
    fn clone(&self) -> Self {
        self.deep_clone()
    }
}

/// A copy of the entries of an object, equal to them at every depth.
pub fn clone_entries(v: &Vec<(String, JsonValue)>) -> (r: Vec<(String, JsonValue)>)
    ensures
        entries_model(r@) == entries_model(v@),
{
    let mut out: Vec<(String, JsonValue)> = Vec::new();
    let mut i: usize = 0;
    while i < v.len()
        invariant
            i <= v.len(),
            entries_model(out@) == entries_model(v@.subrange(0, i as int)),
        decreases v.len() - i,
    {
        let (k, val) = &v[i];
        let c = (k.clone(), val.deep_clone());
        let ghost before = out@;
        out.push(c);
        proof {
            assert(out@.drop_last() =~= before);
            assert(v@.subrange(0, i + 1).drop_last() =~= v@.subrange(0, i as int));
        }
        i += 1;
    }
    assert(v@.subrange(0, v.len() as int) =~= v@);
    out
}

/// The entry models line up with the entries, one for one.
pub proof fn lemma_entries_model(s: Seq<(String, JsonValue)>)
    ensures
        entries_model(s).len() == s.len(),
        forall|i: int|
            0 <= i < s.len() ==> #[trigger] entries_model(s)[i] == (s[i].0@, s[i].1@),
    decreases s.len(),
{
    if s.len() > 0 {
        lemma_entries_model(s.drop_last());
    }
}

/// The value models line up with the values, one for one.
pub proof fn lemma_values_model(s: Seq<JsonValue>)
    ensures
        values_model(s).len() == s.len(),
        forall|i: int| 0 <= i < s.len() ==> #[trigger] values_model(s)[i] == s[i]@,
    decreases s.len(),
{
    if s.len() > 0 {
        lemma_values_model(s.drop_last());
    }
}

/// The value under the first entry of `obj` whose key is `key`.
pub open spec fn find(obj: Seq<(Seq<char>, Json)>, key: Seq<char>) -> Option<Json>
    decreases obj.len(),
{
    if obj.len() == 0 {
        None
    } else if obj[0].0 == key {
        Some(obj[0].1)
    } else {
        find(obj.drop_first(), key)
    }
}

/// The value under `key`, where a `null` value counts as no value.
pub open spec fn present(obj: Seq<(Seq<char>, Json)>, key: Seq<char>) -> Option<Json> {
    match find(obj, key) {
        Some(Json::Null) => None,
        r => r,
    }
}

/// The value under the first of `keys` that is present, tried in order.
pub open spec fn lookup(obj: Seq<(Seq<char>, Json)>, keys: Seq<Seq<char>>) -> Option<Json>
    decreases keys.len(),
{
    if keys.len() == 0 {
        None
    } else {
        match present(obj, keys[0]) {
            Some(v) => Some(v),
            None => lookup(obj, keys.drop_first()),
        }
    }
}

/// The model of a value that may be missing.
pub open spec fn opt_model(r: Option<&JsonValue>) -> Option<Json> {
    match r {
        Some(v) => Some(v@),
        None => None,
    }
}

/// The value under the first entry of `obj` whose key is `key`.
pub fn find_entry<'a>(obj: &'a Vec<(String, JsonValue)>, key: &str) -> (r: Option<&'a JsonValue>)
    ensures
        opt_model(r) == find(entries_model(obj@), key@),
{
    let k = key.to_owned();
    let ghost m = entries_model(obj@);
    proof {
        lemma_entries_model(obj@);
        assert(m.subrange(0, m.len() as int) =~= m);
    }
    let mut i: usize = 0;
    while i < obj.len()
        invariant
            i <= obj.len(),
            m == entries_model(obj@),
            m.len() == obj.len(),
            k@ == key@,
            forall|j: int| 0 <= j < obj.len() ==> #[trigger] m[j] == (obj[j].0@, obj[j].1@),
            find(m, key@) == find(m.subrange(i as int, m.len() as int), key@),
        decreases obj.len() - i,
    {
        let ghost rest = m.subrange(i as int, m.len() as int);
        assert(rest.drop_first() =~= m.subrange(i + 1, m.len() as int));
        assert(rest[0] == m[i as int]);
        if obj[i].0 == k {
            return Some(&obj[i].1);
        }
        i += 1;
    }
    None
}

/// The value under `key`, where a `null` value counts as no value.
pub fn present_entry<'a>(obj: &'a Vec<(String, JsonValue)>, key: &str) -> (r: Option<&'a JsonValue>)
    ensures
        opt_model(r) == present(entries_model(obj@), key@),
{
    match find_entry(obj, key) {
        Some(JsonValue::Null) => None,
        r => r,
    }
}

} // verus!
