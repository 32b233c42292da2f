use vstd::prelude::*;

use crate::entries::{keyed_view, keys_distinct, lemma_lookup_distinct, lookup};
use crate::text::same_text;

verus! {

/// A JSON number as the JSON library stores it: a non-negative integer,
/// a negative integer, or a finite float held by its IEEE-754 bits.
#[derive(Clone, Copy, PartialEq, Eq, Structural, Debug)]
pub enum Number {
    PosInt(u64),
    NegInt(i64),
    Float(u64),
}

/// The bit pattern of the float `-0.0`.
pub const NEGATIVE_ZERO_BITS: u64 = 0x8000_0000_0000_0000u64;

impl Number {
    /// The number up to the one identification that float equality makes:
    /// `-0.0` and `0.0` compare equal.
    pub open spec fn canonical(self) -> Number {
        match self {
            Number::Float(bits) => if bits == NEGATIVE_ZERO_BITS {
                Number::Float(0)
            } else {
                Number::Float(bits)
            },
            other => other,
        }
    }

    /// Whether two numbers are equal as JSON numbers: integers of the same
    /// kind and value, or floats equal as floats.
    pub fn same(&self, other: &Number) -> (r: bool)
        ensures
            r == (self.canonical() == other.canonical()),
    {
        match (self, other) {
            (Number::PosInt(a), Number::PosInt(b)) => *a == *b,
            (Number::NegInt(a), Number::NegInt(b)) => *a == *b,
            (Number::Float(a), Number::Float(b)) => {
                let ca = if *a == NEGATIVE_ZERO_BITS { 0u64 } else { *a };
                let cb = if *b == NEGATIVE_ZERO_BITS { 0u64 } else { *b };
                ca == cb
            },
            _ => false,
        }
    }
}

/// A JSON value. Objects keep their entries in the order they list them;
/// where a key occurs twice, the later entry is the one that counts. A
/// document parsed by the JSON library, and every normalized value, is
/// `canonical`: each object lists its keys once, in increasing order. On
/// canonical values, equality of the models is equality of JSON values
/// (`lemma_canonical_objects_equal`).
pub enum Json {
    Null,
    Bool(bool),
    Number(Number),
    Str(String),
    Array(Vec<Json>),
    Object(Vec<(String, Json)>),
}

/// The mathematical model of a JSON value.
pub enum JsonV {
    Null,
    Bool(bool),
    Number(Number),
    Str(Seq<char>),
    Array(Seq<JsonV>),
    Object(Seq<(Seq<char>, JsonV)>),
}

impl JsonV {
    /// `Value::get` with a string key: the member of an object, if any.
    pub open spec fn field(self, key: Seq<char>) -> Option<JsonV> {
        match self {
            JsonV::Object(entries) => lookup(entries, key),
            _ => None,
        }
    }

    /// `Value::as_str`.
    pub open spec fn string(self) -> Option<Seq<char>> {
        match self {
            JsonV::Str(s) => Some(s),
            _ => None,
        }
    }

    /// The string member `key` of an object, if it has one.
    pub open spec fn string_field(self, key: Seq<char>) -> Option<Seq<char>> {
        match self.field(key) {
            Some(v) => v.string(),
            None => None,
        }
    }
}

impl Json {
    pub open spec fn model(self) -> JsonV
        decreases self,
    {
        match self {
            Json::Null => JsonV::Null,
            Json::Bool(b) => JsonV::Bool(b),
            Json::Number(n) => JsonV::Number(n.canonical()),
            Json::Str(s) => JsonV::Str(s@),
            Json::Array(v) => JsonV::Array(
                Seq::new(
                    v@.len(),
                    |i: int|
                        {
                            if 0 <= i < v@.len() {
                                proof {
                                    assert(decreases_to!(v => v@[i]));
                                }
                                v@[i].model()
                            } else {
                                JsonV::Null
                            }
                        },
                ),
            ),
            Json::Object(v) => JsonV::Object(
                Seq::new(
                    v@.len(),
                    |i: int|
                        {
                            if 0 <= i < v@.len() {
                                proof {
                                    assert(decreases_to!(v => v@[i]));
                                    assert(decreases_to!(v@[i] => v@[i].1));
                                }
                                (v@[i].0@, v@[i].1.model())
                            } else {
                                (Seq::empty(), JsonV::Null)
                            }
                        },
                ),
            ),
        }
    }
}

impl View for Json {
    type V = JsonV;

    open spec fn view(&self) -> JsonV {
        self.model()
    }
}

/// The model of a sequence of values.
pub open spec fn values_view(v: Seq<Json>) -> Seq<JsonV> {
    v.map_values(|j: Json| j@)
}

/// The model of a sequence of object entries.
pub open spec fn entries_view(e: Seq<(String, Json)>) -> Seq<(Seq<char>, JsonV)> {
    keyed_view(e)
}

impl Json {
    /// `Value::get` with a string key.
    #[verifier::loop_isolation(false)]
    pub fn get(&self, key: &str) -> (r: Option<&Json>)
        ensures
            match r {
                Some(v) => self@.field(key@) == Some(v@),
                None => self@.field(key@) is None,
            },
    {
        match self {
            Json::Object(entries) => {
                proof {
                    lemma_object_view(*entries);
                }
                let ghost ev = entries_view(entries@);
                let mut i = entries.len();
                proof {
                    assert(ev.take(i as int) =~= ev);
                }
                while i > 0
                    invariant
                        i <= entries.len(),
                        ev == entries_view(entries@),
                        lookup(ev, key@) == lookup(ev.take(i as int), key@),
                    decreases i,
                {
                    proof {
                        assert(ev.take(i as int).drop_last() =~= ev.take(i - 1));
                    }
                    if same_text(entries[i - 1].0.as_str(), key) {
                        return Some(&entries[i - 1].1);
                    }
                    i = i - 1;
                }
                None
            },
            _ => None,
        }
    }

    /// `Value::as_str`.
    pub fn as_str(&self) -> (r: Option<&String>)
        ensures
            match r {
                Some(s) => self@ == JsonV::Str(s@),
                None => !(self@ is Str),
            },
    {
        match self {
            Json::Str(s) => Some(s),
            _ => None,
        }
    }

    /// `Value::as_array`.
    pub fn as_array(&self) -> (r: Option<&Vec<Json>>)
        ensures
            match r {
                Some(v) => self@ == JsonV::Array(values_view(v@)),
                None => !(self@ is Array),
            },
    {
        match self {
            Json::Array(v) => {
                proof {
                    lemma_array_view(*v);
                }
                Some(v)
            },
            _ => None,
        }
    }

    /// A copy of the value.
    #[verifier::loop_isolation(false)]
    pub fn duplicate(&self) -> (r: Json)
        ensures
            r@ == self@,
        decreases self,
    {
        match self {
            Json::Null => Json::Null,
            Json::Bool(b) => Json::Bool(*b),
            Json::Number(n) => Json::Number(*n),
            Json::Str(s) => Json::Str(s.clone()),
            Json::Array(v) => {
                let mut out: Vec<Json> = Vec::new();
                let mut i: usize = 0;
                while i < v.len()
                    invariant
                        i <= v.len(),
                        out@.len() == i,
                        forall|j: int| 0 <= j < i ==> (#[trigger] out@[j])@ == v@[j]@,
                    decreases v.len() - i,
                {
                    proof {
                        assert(decreases_to!(self => v));
                        assert(decreases_to!(v => v@[i as int]));
                    }
                    let c = v[i].duplicate();
                    out.push(c);
                    i = i + 1;
                }
                proof {
                    lemma_array_view(*v);
                    lemma_array_view(out);
                    assert(values_view(out@) =~= values_view(v@));
                }
                Json::Array(out)
            },
            Json::Object(e) => {
                let mut out: Vec<(String, Json)> = Vec::new();
                let mut i: usize = 0;
                while i < e.len()
                    invariant
                        i <= e.len(),
                        out@.len() == i,
                        forall|j: int| 0 <= j < i ==> (#[trigger] out@[j]).0@ == e@[j].0@ && out@[j].1@ == e@[j].1@,
                    decreases e.len() - i,
                {
                    proof {
                        assert(decreases_to!(self => e));
                        assert(decreases_to!(e => e@[i as int]));
                        assert(decreases_to!(e@[i as int] => e@[i as int].1));
                    }
                    let c = e[i].1.duplicate();
                    out.push((e[i].0.clone(), c));
                    i = i + 1;
                }
                proof {
                    lemma_object_view(*e);
                    lemma_object_view(out);
                    assert(entries_view(out@) =~= entries_view(e@));
                }
                Json::Object(out)
            },
        }
    }

    /// Whether two values are equal, objects compared entry by entry. On
    /// canonical values (parsed documents, normalized values) this is
    /// equality of JSON values, `Value == Value`: see
    /// `lemma_canonical_objects_equal`.
    #[verifier::loop_isolation(false)]
    pub fn equals(&self, other: &Json) -> (r: bool)
        ensures
            r == (self@ == other@),
        decreases self,
    {
        match (self, other) {
            (Json::Null, Json::Null) => true,
            (Json::Bool(a), Json::Bool(b)) => *a == *b,
            (Json::Number(a), Json::Number(b)) => a.same(b),
            (Json::Str(a), Json::Str(b)) => *a == *b,
            (Json::Array(a), Json::Array(b)) => {
                proof {
                    lemma_array_view(*a);
                    lemma_array_view(*b);
                }
                if a.len() != b.len() {
                    proof {
                        assert(values_view(a@).len() != values_view(b@).len());
                    }
                    return false;
                }
                let mut i: usize = 0;
                while i < a.len()
                    invariant
                        a.len() == b.len(),
                        i <= a.len(),
                        forall|j: int| 0 <= j < i ==> (#[trigger] a@[j])@ == b@[j]@,
                    decreases a.len() - i,
                {
                    proof {
                        assert(decreases_to!(self => a));
                        assert(decreases_to!(a => a@[i as int]));
                    }
                    if !a[i].equals(&b[i]) {
                        proof {
                            assert(values_view(a@)[i as int] != values_view(b@)[i as int]);
                        }
                        return false;
                    }
                    i = i + 1;
                }
                proof {
                    assert(values_view(a@) =~= values_view(b@));
                }
                true
            },
            (Json::Object(a), Json::Object(b)) => {
                proof {
                    lemma_object_view(*a);
                    lemma_object_view(*b);
                }
                if a.len() != b.len() {
                    proof {
                        assert(entries_view(a@).len() != entries_view(b@).len());
                    }
                    return false;
                }
                let mut i: usize = 0;
                while i < a.len()
                    invariant
                        a.len() == b.len(),
                        i <= a.len(),
                        forall|j: int| 0 <= j < i ==> (#[trigger] a@[j]).0@ == b@[j].0@ && a@[j].1@ == b@[j].1@,
                    decreases a.len() - i,
                {
                    proof {
                        assert(decreases_to!(self => a));
                        assert(decreases_to!(a => a@[i as int]));
                        assert(decreases_to!(a@[i as int] => a@[i as int].1));
                    }
                    if a[i].0 != b[i].0 {
                        proof {
                            assert(entries_view(a@)[i as int] != entries_view(b@)[i as int]);
                        }
                        return false;
                    }
                    if !a[i].1.equals(&b[i].1) {
                        proof {
                            assert(entries_view(a@)[i as int] != entries_view(b@)[i as int]);
                        }
                        return false;
                    }
                    i = i + 1;
                }
                proof {
                    assert(entries_view(a@) =~= entries_view(b@));
                }
                true
            },
            _ => false,
        }
    }
}

/// An object of the entries.
pub fn object_of(entries: Vec<(String, Json)>) -> (r: Json)
    ensures
        r@ == JsonV::Object(entries_view(entries@)),
{
    proof {
        lemma_object_view(entries);
    }
    Json::Object(entries)
}

/// An array of the values.
pub fn array_of(values: Vec<Json>) -> (r: Json)
    ensures
        r@ == JsonV::Array(values_view(values@)),
{
    proof {
        lemma_array_view(values);
    }
    Json::Array(values)
}

/// A JSON string of the text.
pub fn string_of(s: &str) -> (r: Json)
    ensures
        r@ == JsonV::Str(s@),
{
    Json::Str(String::from_str(s))
}

pub proof fn lemma_array_view(v: Vec<Json>)
    ensures
        Json::Array(v)@ == JsonV::Array(values_view(v@)),
{
    let m = Json::Array(v).model();
    assert(values_view(v@) =~= m->Array_0);
}

pub proof fn lemma_object_view(v: Vec<(String, Json)>)
    ensures
        Json::Object(v)@ == JsonV::Object(entries_view(v@)),
{
    let m = Json::Object(v).model();
    assert(entries_view(v@) =~= m->Object_0);
}

/// In an object whose keys differ pairwise, every member is found under
/// its key.
pub proof fn lemma_members_found(e: Seq<(Seq<char>, JsonV)>)
    requires
        forall|i: int, j: int| 0 <= i < j < e.len() ==> e[i].0 != e[j].0,
    ensures
        forall|i: int| 0 <= i < e.len() ==> #[trigger] JsonV::Object(e).field(e[i].0) == Some(e[i].1),
{
    assert(keys_distinct(e)) by {
        assert forall|i: int, j: int| 0 <= i < e.len() && 0 <= j < e.len() && i != j implies #[trigger] e[i].0
            != #[trigger] e[j].0 by {
            if i < j {
                assert(e[i].0 != e[j].0);
            } else {
                assert(e[j].0 != e[i].0);
            }
        }
    }
    assert forall|i: int| 0 <= i < e.len() implies #[trigger] JsonV::Object(e).field(e[i].0) == Some(e[i].1) by {
        lemma_lookup_distinct(e, i);
    }
}

/// Four keys that differ pairwise.
pub proof fn lemma_four_keys_differ(e: Seq<(Seq<char>, JsonV)>)
    requires
        e.len() == 4,
        e[0].0 != e[1].0,
        e[0].0 != e[2].0,
        e[0].0 != e[3].0,
        e[1].0 != e[2].0,
        e[1].0 != e[3].0,
        e[2].0 != e[3].0,
    ensures
        forall|i: int, j: int| 0 <= i < j < e.len() ==> e[i].0 != e[j].0,
{
    assert forall|i: int, j: int| 0 <= i < j < e.len() implies e[i].0 != e[j].0 by {
        if i == 0 {
            if j == 1 {} else if j == 2 {} else {}
        } else if i == 1 {
            if j == 2 {} else {}
        } else {
        }
    }
}

/// Three keys that differ pairwise.
pub proof fn lemma_three_keys_differ(e: Seq<(Seq<char>, JsonV)>)
    requires
        e.len() == 3,
        e[0].0 != e[1].0,
        e[0].0 != e[2].0,
        e[1].0 != e[2].0,
    ensures
        forall|i: int, j: int| 0 <= i < j < e.len() ==> e[i].0 != e[j].0,
{
    assert forall|i: int, j: int| 0 <= i < j < e.len() implies e[i].0 != e[j].0 by {
        if i == 0 {
            if j == 1 {} else {}
        } else {
        }
    }
}

/// Two keys that differ.
pub proof fn lemma_two_keys_differ(e: Seq<(Seq<char>, JsonV)>)
    requires
        e.len() == 2,
        e[0].0 != e[1].0,
    ensures
        forall|i: int, j: int| 0 <= i < j < e.len() ==> e[i].0 != e[j].0,
{
}

} // verus!
