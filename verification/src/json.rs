//! JSON values as the protocol logic reads them: the value tree, its view, and the accessors
//! (`get`, `as_str`, `as_u64`, ...) with their meaning stated on the view. A number keeps what the
//! accessors distinguish: a non-negative integer, a negative one, or a float (by its bits).
use vstd::prelude::*;

verus! {

/// A JSON number, as the parser classifies it.
#[derive(Clone, Copy, PartialEq, Eq, Debug, Structural)]
pub enum JsonNumber {
    /// A non-negative integer.
    PosInt(u64),
    /// A negative integer.
    NegInt(i64),
    /// A floating-point number, by the bits of its `f64`.
    Float(u64),
}

/// A JSON value.
#[derive(PartialEq, Eq, Debug)]
pub enum Json {
    Null,
    Bool(bool),
    Number(JsonNumber),
    Str(String),
    Array(Vec<Json>),
    Object(Vec<(String, Json)>),
}

/// The view of a JSON value.
pub enum JsonV {
    Null,
    Bool(bool),
    Number(JsonNumber),
    Str(Seq<char>),
    Array(Seq<JsonV>),
    Object(Seq<(Seq<char>, JsonV)>),
}

/// The view of a JSON value.
pub open spec fn json_view(j: Json) -> JsonV
    decreases j,
{
    match j {
        Json::Null => JsonV::Null,
        Json::Bool(b) => JsonV::Bool(b),
        Json::Number(n) => JsonV::Number(n),
        Json::Str(s) => JsonV::Str(s@),
        Json::Array(a) => JsonV::Array(
            Seq::new(a@.len(), |i: int| if 0 <= i < a@.len() { json_view(a@[i]) } else { JsonV::Null }),
        ),
        Json::Object(o) => JsonV::Object(
            Seq::new(
                o@.len(),
                |i: int|
                    if 0 <= i < o@.len() {
                        (o@[i].0@, json_view(o@[i].1))
                    } else {
                        (Seq::empty(), JsonV::Null)
                    },
            ),
        ),
    }
}

impl View for Json {
    type V = JsonV;

    open spec fn view(&self) -> JsonV {
        json_view(*self)
    }
}

impl Json {
    /// A deep copy of the value.
    pub fn copy(&self) -> (r: Json)
        ensures
            r@ == self@,
        decreases self,
    {
        match self {
            Json::Null => Json::Null,
            Json::Bool(b) => Json::Bool(*b),
            Json::Number(n) => Json::Number(*n),
            Json::Str(s) => Json::Str(crate::text::owned(s.as_str())),
            Json::Array(a) => {
                let mut out: Vec<Json> = Vec::new();
                let mut i: usize = 0;
                while i < a.len()
                    invariant
                        i <= a@.len(),
                        out@.len() == i,
                        forall|k: int| 0 <= k < i ==> #[trigger] out@[k]@ == a@[k]@,
                        *self == Json::Array(*a),
                    decreases a.len() - i,
                {
                    assert(*a == (*self)->Array_0);
                    assert(decreases_to!(*self => (*self)->Array_0));
                    assert(decreases_to!(*a => a@));
                    assert(decreases_to!(a@ => a@[i as int]));
                    out.push(a[i].copy());
                    i += 1;
                }
                let ghost ov = out@;
                let r = Json::Array(out);
                proof {
                    let xr = r@->Array_0;
                    let ys = self@->Array_0;
                    assert(xr.len() == ov.len());
                    assert(ys.len() == a@.len());
                    assert forall|k: int| 0 <= k < xr.len() implies xr[k] == ys[k] by {
                        assert(xr[k] == ov[k]@);
                        assert(ys[k] == a@[k]@);
                    }
                    assert(xr =~= ys);
                }
                r
            },
            Json::Object(o) => {
                let mut out: Vec<(String, Json)> = Vec::new();
                let mut i: usize = 0;
                while i < o.len()
                    invariant
                        i <= o@.len(),
                        out@.len() == i,
                        forall|k: int| 0 <= k < i ==> #[trigger] out@[k].0@ == o@[k].0@ && out@[k].1@ == o@[k].1@,
                        *self == Json::Object(*o),
                    decreases o.len() - i,
                {
                    assert(*o == (*self)->Object_0);
                    assert(decreases_to!(*self => (*self)->Object_0));
                    assert(decreases_to!(*o => o@));
                    assert(decreases_to!(o@ => o@[i as int]));
                    assert(decreases_to!(o@[i as int] => o@[i as int].1));
                    let v = o[i].1.copy();
                    let k = crate::text::owned(o[i].0.as_str());
                    let ghost before = out@;
                    out.push((k, v));
                    assert forall|m: int| 0 <= m < i + 1 implies #[trigger] out@[m].0@ == o@[m].0@ && out@[m].1@
                        == o@[m].1@ by {
                        if m < i {
                            assert(out@[m] == before[m]);
                        }
                    }
                    i += 1;
                }
                let ghost ov = out@;
                let r = Json::Object(out);
                proof {
                    let xr = r@->Object_0;
                    let ys = self@->Object_0;
                    assert(xr.len() == ov.len());
                    assert(ys.len() == o@.len());
                    assert forall|k: int| 0 <= k < xr.len() implies xr[k] == ys[k] by {
                        assert(xr[k] == (ov[k].0@, ov[k].1@));
                        assert(ys[k] == (o@[k].0@, o@[k].1@));
                    }
                    assert(xr =~= ys);
                }
                r
            },
        }
    }
}

impl Clone for Json {
    /// A deep copy of the value.
    fn clone(&self) -> (r: Json)
        ensures
            r@ == self@,
    {
        self.copy()
    }
}

/// The value under `key` in the entries of an object from entry `i` on: the first one that
/// has it.
pub open spec fn entry_from(o: Seq<(Seq<char>, JsonV)>, key: Seq<char>, i: int) -> Option<JsonV>
    decreases o.len() - i,
{
    if i < 0 || i >= o.len() {
        None
    } else if o[i].0 == key {
        Some(o[i].1)
    } else {
        entry_from(o, key, i + 1)
    }
}

/// `Value::get` with a key: the member of an object, none for anything else.
pub open spec fn json_get(j: JsonV, key: Seq<char>) -> Option<JsonV> {
    match j {
        JsonV::Object(o) => entry_from(o, key, 0),
        _ => None,
    }
}

/// `Value::as_str`.
pub open spec fn json_str(j: JsonV) -> Option<Seq<char>> {
    match j {
        JsonV::Str(s) => Some(s),
        _ => None,
    }
}

/// `Value::as_u64`: a non-negative integer.
pub open spec fn json_u64(j: JsonV) -> Option<u64> {
    match j {
        JsonV::Number(JsonNumber::PosInt(n)) => Some(n),
        _ => None,
    }
}

/// `Value::as_i64`: an integer that fits an `i64`.
pub open spec fn json_i64(j: JsonV) -> Option<i64> {
    match j {
        JsonV::Number(JsonNumber::PosInt(n)) => if n <= i64::MAX { Some(n as i64) } else { None },
        JsonV::Number(JsonNumber::NegInt(n)) => Some(n),
        _ => None,
    }
}

/// `Value::as_array`.
pub open spec fn json_array(j: JsonV) -> Option<Seq<JsonV>> {
    match j {
        JsonV::Array(a) => Some(a),
        _ => None,
    }
}

/// `Value::as_object`.
pub open spec fn json_object(j: JsonV) -> Option<Seq<(Seq<char>, JsonV)>> {
    match j {
        JsonV::Object(o) => Some(o),
        _ => None,
    }
}

impl Json {
    /// The member `key` of an object (see `json_get`).
    pub fn get(&self, key: &str) -> (r: Option<&Json>)
        ensures
            r matches Some(v) ==> json_get(self@, key@) == Some(v@),
            r is None ==> json_get(self@, key@) is None,
    {
        match self {
            Json::Object(o) => {
                let ghost ov = self@->Object_0;
                let mut i: usize = 0;
                while i < o.len()
                    invariant
                        i <= o@.len(),
                        ov == self@->Object_0,
                        *self == Json::Object(*o),
                        ov.len() == o@.len(),
                        forall|k: int| 0 <= k < o@.len() ==> #[trigger] ov[k] == (o@[k].0@, o@[k].1@),
                        entry_from(ov, key@, i as int) == entry_from(ov, key@, 0),
                    decreases o.len() - i,
                {
                    if crate::text::str_equal(o[i].0.as_str(), key) {
                        return Some(&o[i].1);
                    }
                    i += 1;
                }
                None
            },
            _ => None,
        }
    }

    /// The text of a string (see `json_str`).
    pub fn as_str(&self) -> (r: Option<&str>)
        ensures
            r matches Some(s) ==> json_str(self@) == Some(s@),
            r is None ==> json_str(self@) is None,
    {
        match self {
            Json::Str(s) => Some(s.as_str()),
            _ => None,
        }
    }

    /// A non-negative integer (see `json_u64`).
    pub fn as_u64(&self) -> (r: Option<u64>)
        ensures
            r == json_u64(self@),
    {
        match self {
            Json::Number(JsonNumber::PosInt(n)) => Some(*n),
            _ => None,
        }
    }

    /// An integer that fits an `i64` (see `json_i64`).
    pub fn as_i64(&self) -> (r: Option<i64>)
        ensures
            r == json_i64(self@),
    {
        match self {
            Json::Number(JsonNumber::PosInt(n)) => if *n <= i64::MAX as u64 { Some(*n as i64) } else { None },
            Json::Number(JsonNumber::NegInt(n)) => Some(*n),
            _ => None,
        }
    }

    /// The elements of an array (see `json_array`).
    pub fn as_array(&self) -> (r: Option<&Vec<Json>>)
        ensures
            r matches Some(a) ==> json_array(self@) is Some && json_array(self@)->0.len() == a@.len()
                && forall|k: int| 0 <= k < a@.len() ==> #[trigger] json_array(self@)->0[k] == a@[k]@,
            r is None ==> json_array(self@) is None,
    {
        match self {
            Json::Array(a) => Some(a),
            _ => None,
        }
    }

    /// The members of an object (see `json_object`).
    pub fn as_object(&self) -> (r: Option<&Vec<(String, Json)>>)
        ensures
            r matches Some(o) ==> json_object(self@) is Some && json_object(self@)->0.len() == o@.len()
                && forall|k: int| 0 <= k < o@.len() ==> #[trigger] json_object(self@)->0[k] == (o@[k].0@, o@[k].1@),
            r is None ==> json_object(self@) is None,
    {
        match self {
            Json::Object(o) => Some(o),
            _ => None,
        }
    }

    /// Whether this is an object.
    pub fn is_object(&self) -> (r: bool)
        ensures
            r == (self@ is Object),
    {
        match self {
            Json::Object(_) => true,
            _ => false,
        }
    }
}

/// The view of an object built from entries.
pub proof fn lemma_object_view(j: Json)
    requires
        j is Object,
    ensures
        j@ == JsonV::Object(j->Object_0@.map_values(|e: (String, Json)| (e.0@, e.1@))),
{
    let x = j@->Object_0;
    assert(x =~= j->Object_0@.map_values(|e: (String, Json)| (e.0@, e.1@)));
}

/// The view of an array value.
pub proof fn lemma_array_view(j: Json)
    requires
        j is Array,
    ensures
        j@ == JsonV::Array(j->Array_0@.map_values(|e: Json| e@)),
{
    let x = j@->Array_0;
    assert(x =~= j->Array_0@.map_values(|e: Json| e@));
}

} // verus!
