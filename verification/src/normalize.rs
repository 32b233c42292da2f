use vstd::prelude::*;

use crate::entries::{
    canonical_entries, entries_map, has_key, insert_entry, keys_distinct, keys_sorted,
    lemma_canonical_exists, lemma_canonical_of_sorted, lemma_entries_map_distinct,
    lemma_entries_map_empty, lemma_entries_map_push, lemma_lookup_distinct, lemma_lookup_found,
    lemma_sorted_distinct, lemma_sorted_unique, lookup,
};
use crate::error::Error;
use crate::json::{entries_view, lemma_array_view, lemma_object_view, values_view, Json, JsonV};

verus! {

/// The entries of an object with each value normalized, in their order.
pub open spec fn normalized_members(e: Seq<(Seq<char>, JsonV)>) -> Seq<(Seq<char>, JsonV)>
    decreases e,
{
    Seq::new(
        e.len(),
        |i: int|
            {
                if 0 <= i < e.len() {
                    proof {
                        assert(decreases_to!(e => e[i]));
                        assert(decreases_to!(e[i] => e[i].1));
                    }
                    (e[i].0, normalized(e[i].1))
                } else {
                    (Seq::empty(), JsonV::Null)
                }
            },
    )
}

/// A value with every object's members listed once each, in increasing key
/// order (the last member wins where a key repeats), at every depth.
pub open spec fn normalized(j: JsonV) -> JsonV
    decreases j,
{
    match j {
        JsonV::Array(a) => JsonV::Array(
            Seq::new(
                a.len(),
                |i: int|
                    {
                        if 0 <= i < a.len() {
                            proof {
                                assert(decreases_to!(a => a[i]));
                            }
                            normalized(a[i])
                        } else {
                            JsonV::Null
                        }
                    },
            ),
        ),
        JsonV::Object(e) => JsonV::Object(canonical_entries(entries_map(normalized_members(e)))),
        other => other,
    }
}

/// A normalized copy of a value: see `normalized`.
#[verifier::loop_isolation(false)]
pub fn normalized_copy(value: &Json) -> (r: Json)
    ensures
        r@ == normalized(value@),
    decreases value,
{
    match value {
        Json::Array(items) => {
            let mut out: Vec<Json> = Vec::new();
            let mut i: usize = 0;
            while i < items.len()
                invariant
                    i <= items.len(),
                    out@.len() == i,
                    forall|j: int| 0 <= j < i ==> (#[trigger] out@[j])@ == normalized(items@[j]@),
                decreases items.len() - i,
            {
                proof {
                    assert(decreases_to!(value => items));
                    assert(decreases_to!(items => items@[i as int]));
                }
                let n = normalized_copy(&items[i]);
                out.push(n);
                i = i + 1;
            }
            proof {
                lemma_array_view(*items);
                lemma_array_view(out);
                assert(values_view(out@) =~= normalized(value@)->Array_0);
            }
            Json::Array(out)
        },
        Json::Object(entries) => {
            let ghost members = normalized_members(entries_view(entries@));
            let mut out: Vec<(String, Json)> = Vec::new();
            let mut i: usize = 0;
            proof {
                lemma_entries_map_empty(entries_view(out@));
                lemma_entries_map_empty(members.take(0));
            }
            while i < entries.len()
                invariant
                    i <= entries.len(),
                    members == normalized_members(entries_view(entries@)),
                    keys_sorted(entries_view(out@)),
                    entries_map(entries_view(out@)) == entries_map(members.take(i as int)),
                decreases entries.len() - i,
            {
                proof {
                    assert(decreases_to!(value => entries));
                    assert(decreases_to!(entries => entries@[i as int]));
                    assert(decreases_to!(entries@[i as int] => entries@[i as int].1));
                }
                let n = normalized_copy(&entries[i].1);
                let key = entries[i].0.clone();
                proof {
                    assert(members.take(i + 1) =~= members.take(i as int).push((key@, n@)));
                    lemma_entries_map_push(members.take(i as int), (key@, n@));
                }
                insert_entry(&mut out, key, n);
                i = i + 1;
            }
            proof {
                assert(members.take(entries.len() as int) =~= members);
                lemma_canonical_of_sorted(entries_view(out@));
                lemma_object_view(*entries);
                lemma_object_view(out);
            }
            Json::Object(out)
        },
        other => other.duplicate(),
    }
}

/// `normalized_value`: the value with the members of every object put in
/// key order, at every depth.
pub fn normalized_value(value: Json) -> (r: Json)
    ensures
        r@ == normalized(value@),
{
    normalized_copy(&value)
}

/// The non-empty string `name` of a list item, if it has one.
pub open spec fn item_name(item: JsonV) -> Option<Seq<char>> {
    match item.string_field("name"@) {
        Some(name) => if name.len() > 0 {
            Some(name)
        } else {
            None
        },
        None => None,
    }
}

/// Each item keyed by its name, the item normalized.
pub open spec fn named_entries(items: Seq<JsonV>) -> Seq<(Seq<char>, JsonV)> {
    Seq::new(items.len(), |i: int| (item_name(items[i])->0, normalized(items[i])))
}

/// Every item has a non-empty string name.
pub open spec fn all_named(items: Seq<JsonV>) -> bool {
    forall|i: int| 0 <= i < items.len() ==> (#[trigger] item_name(items[i])) is Some
}

/// No two items share a name.
pub open spec fn names_distinct(items: Seq<JsonV>) -> bool {
    forall|i: int, j: int|
        0 <= i < items.len() && 0 <= j < items.len() && i != j ==> #[trigger] item_name(items[i])
            != #[trigger] item_name(items[j])
}

/// What `normalize_named_items` makes of a discovery list: the items
/// normalized and sorted by name, or the reason the list is refused.
pub open spec fn named_items_result(list: JsonV) -> Result<JsonV, Error> {
    match list {
        JsonV::Array(items) => if !all_named(items) {
            Err(Error::MissingItemName)
        } else if !names_distinct(items) {
            Err(Error::DuplicateItemNames)
        } else {
            Ok(
                JsonV::Array(
                    canonical_entries(entries_map(named_entries(items))).map_values(
                        |p: (Seq<char>, JsonV)| p.1,
                    ),
                ),
            )
        },
        _ => Err(Error::ListNotArray),
    }
}

/// The name of a list item, if it is a non-empty string.
fn name_of(item: &Json) -> (r: Option<&String>)
    ensures
        match r {
            Some(name) => item_name(item@) == Some(name@),
            None => item_name(item@) is None,
        },
{
    match item.get("name") {
        Some(value) => match value.as_str() {
            Some(name) => if name.as_str().is_empty() {
                None
            } else {
                Some(name)
            },
            None => None,
        },
        None => None,
    }
}

/// `normalize_named_items`: checks that every item of a discovery list has
/// its own non-empty name, and returns the items normalized, in name order.
#[verifier::loop_isolation(false)]
pub fn normalize_named_items(list: Json) -> (r: Result<Json, Error>)
    ensures
        match r {
            Ok(v) => named_items_result(list@) == Ok::<JsonV, Error>(v@),
            Err(e) => named_items_result(list@) == Err::<JsonV, Error>(e),
        },
{
    let items = match list.as_array() {
        Some(items) => items,
        None => {
            return Err(Error::ListNotArray);
        },
    };
    let ghost iv = values_view(items@);
    let mut i: usize = 0;
    while i < items.len()
        invariant
            i <= items.len(),
            forall|j: int| 0 <= j < i ==> (#[trigger] item_name(iv[j])) is Some,
        decreases items.len() - i,
    {
        if name_of(&items[i]).is_none() {
            proof {
                assert(item_name(iv[i as int]) is None);
            }
            return Err(Error::MissingItemName);
        }
        i = i + 1;
    }
    let ghost named = named_entries(iv);
    let mut out: Vec<(String, Json)> = Vec::new();
    proof {
        lemma_entries_map_empty(entries_view(out@));
        lemma_entries_map_empty(named.take(0));
    }
    let mut i: usize = 0;
    while i < items.len()
        invariant
            i <= items.len(),
            all_named(iv),
            keys_sorted(entries_view(out@)),
            entries_map(entries_view(out@)) == entries_map(named.take(i as int)),
            keys_distinct(named.take(i as int)),
        decreases items.len() - i,
    {
        let name = match name_of(&items[i]) {
            Some(name) => name.clone(),
            None => {
                return Err(Error::MissingItemName);
            },
        };
        let n = normalized_copy(&items[i]);
        let ghost before = entries_map(entries_view(out@));
        proof {
            assert(named[i as int] == (name@, n@));
            assert(named.take(i + 1) =~= named.take(i as int).push((name@, n@)));
            lemma_entries_map_push(named.take(i as int), (name@, n@));
        }
        let existed = insert_entry(&mut out, name, n);
        if existed {
            proof {
                lemma_entries_map_distinct(named.take(i as int));
                let j = choose|j: int| 0 <= j < i && #[trigger] named.take(i as int)[j].0 == named[i as int].0;
                assert(named[j].0 == named[i as int].0);
                assert(item_name(iv[j]) == item_name(iv[i as int]));
            }
            return Err(Error::DuplicateItemNames);
        }
        proof {
            let t = named.take(i + 1);
            assert(keys_distinct(t)) by {
                lemma_entries_map_distinct(named.take(i as int));
                assert forall|a: int, b: int| 0 <= a < t.len() && 0 <= b < t.len() && a != b implies #[trigger] t[a].0 != #[trigger] t[b].0 by {
                    if a < i && b < i {
                        assert(named.take(i as int)[a] == t[a]);
                        assert(named.take(i as int)[b] == t[b]);
                    } else if a == i {
                        assert(named.take(i as int)[b].0 == t[b].0);
                    } else {
                        assert(named.take(i as int)[a].0 == t[a].0);
                    }
                }
            }
        }
        i = i + 1;
    }
    proof {
        assert(named.take(items.len() as int) =~= named);
        assert(names_distinct(iv)) by {
            assert forall|a: int, b: int| 0 <= a < iv.len() && 0 <= b < iv.len() && a != b implies #[trigger] item_name(iv[a]) != #[trigger] item_name(iv[b]) by {
                assert(named[a].0 != named[b].0);
            }
        }
        lemma_canonical_of_sorted(entries_view(out@));
    }
    let mut result: Vec<Json> = Vec::new();
    let mut k: usize = 0;
    while k < out.len()
        invariant
            k <= out.len(),
            result@.len() == k,
            forall|j: int| 0 <= j < k ==> (#[trigger] result@[j])@ == out@[j].1@,
        decreases out.len() - k,
    {
        result.push(out[k].1.duplicate());
        k = k + 1;
    }
    proof {
        lemma_array_view(result);
        assert(values_view(result@) =~= entries_view(out@).map_values(|p: (Seq<char>, JsonV)| p.1));
    }
    Ok(Json::Array(result))
}

/// `normalize_tools`: the same check and order for a `tools/list` result.
pub fn normalize_tools(tools: Json) -> (r: Result<Json, Error>)
    ensures
        match r {
            Ok(v) => named_items_result(tools@) == Ok::<JsonV, Error>(v@),
            Err(e) => named_items_result(tools@) == Err::<JsonV, Error>(e),
        },
{
    normalize_named_items(tools)
}

/// Looking a key up among normalized members finds the normalized member.
pub proof fn lemma_lookup_normalized_members(e: Seq<(Seq<char>, JsonV)>, key: Seq<char>)
    ensures
        lookup(normalized_members(e), key) == match lookup(e, key) {
            Some(v) => Some(normalized(v)),
            None => None,
        },
    decreases e.len(),
{
    if e.len() > 0 {
        assert(normalized_members(e).drop_last() =~= normalized_members(e.drop_last()));
        lemma_lookup_normalized_members(e.drop_last(), key);
    }
}

/// Normalizing keeps what an object holds under each key, normalized.
pub proof fn lemma_field_normalized(j: JsonV, key: Seq<char>)
    ensures
        normalized(j).field(key) == match j.field(key) {
            Some(v) => Some(normalized(v)),
            None => None,
        },
{
    if let JsonV::Object(e) = j {
        let m = normalized_members(e);
        let c = canonical_entries(entries_map(m));
        lemma_canonical_exists(m);
        lemma_sorted_distinct(c);
        lemma_lookup_normalized_members(e, key);
        lemma_lookup_found(c, key);
        lemma_lookup_found(m, key);
        lemma_entries_map_distinct(c);
        if lookup(c, key) is Some {
            let i = choose|i: int| 0 <= i < c.len() && #[trigger] c[i] == (key, lookup(c, key)->0);
            lemma_lookup_distinct(c, i);
            assert(entries_map(c)[c[i].0] == c[i].1);
        }
        assert(entries_map(c).dom().contains(key) == entries_map(m).dom().contains(key));
    }
}

/// Normalizing keeps an item's name.
pub proof fn lemma_item_name_normalized(j: JsonV)
    ensures
        item_name(normalized(j)) == item_name(j),
{
    lemma_field_normalized(j, "name"@);
    if let Some(v) = j.field("name"@) {
        if v is Str {
            assert(normalized(v) == v);
        }
    }
}

/// Normalizing twice is normalizing once.
pub proof fn lemma_normalized_idempotent(j: JsonV)
    ensures
        normalized(normalized(j)) == normalized(j),
    decreases j,
{
    match j {
        JsonV::Array(a) => {
            let n = normalized(j)->Array_0;
            assert forall|i: int| 0 <= i < a.len() implies normalized(#[trigger] n[i]) == n[i] by {
                assert(decreases_to!(j => a));
                assert(decreases_to!(a => a[i]));
                lemma_normalized_idempotent(a[i]);
            }
            assert(normalized(normalized(j))->Array_0 =~= n);
        },
        JsonV::Object(e) => {
            let m = normalized_members(e);
            let c = canonical_entries(entries_map(m));
            lemma_canonical_exists(m);
            lemma_sorted_distinct(c);
            lemma_entries_map_distinct(c);
            assert forall|i: int| 0 <= i < c.len() implies normalized(#[trigger] c[i].1) == c[i].1 by {
                lemma_lookup_distinct(c, i);
                assert(entries_map(c)[c[i].0] == c[i].1);
                assert(entries_map(m).dom().contains(c[i].0));
                lemma_lookup_found(m, c[i].0);
                let k = choose|k: int| 0 <= k < m.len() && #[trigger] m[k] == (c[i].0, lookup(m, c[i].0)->0);
                assert(m[k].1 == normalized(e[k].1));
                assert(decreases_to!(j => e));
                assert(decreases_to!(e => e[k]));
                assert(decreases_to!(e[k] => e[k].1));
                lemma_normalized_idempotent(e[k].1);
            }
            assert(normalized_members(c) =~= c);
            lemma_canonical_of_sorted(c);
        },
        _ => {},
    }
}

/// A list that `normalize_named_items` accepted is accepted again as it
/// stands: normalizing a normalized list gives it back unchanged.
pub proof fn lemma_named_items_idempotent(list: JsonV)
    requires
        named_items_result(list) is Ok,
    ensures
        named_items_result(named_items_result(list)->Ok_0) == named_items_result(list),
{
    let items = list->Array_0;
    let named = named_entries(items);
    let c = canonical_entries(entries_map(named));
    let y = c.map_values(|p: (Seq<char>, JsonV)| p.1);
    lemma_canonical_exists(named);
    lemma_sorted_distinct(c);
    lemma_entries_map_distinct(c);
    assert(keys_distinct(named)) by {
        assert forall|a: int, b: int| 0 <= a < named.len() && 0 <= b < named.len() && a != b implies #[trigger] named[a].0 != #[trigger] named[b].0 by {
            assert(item_name(items[a]) != item_name(items[b]));
            assert(item_name(items[a]) is Some);
            assert(item_name(items[b]) is Some);
        }
    }
    lemma_entries_map_distinct(named);
    assert forall|i: int| 0 <= i < c.len() implies item_name(#[trigger] c[i].1) == Some(c[i].0) && normalized(c[i].1) == c[i].1 by {
        assert(entries_map(c)[c[i].0] == c[i].1);
        assert(entries_map(c).dom().contains(c[i].0));
        assert(entries_map(named).dom().contains(c[i].0));
        lemma_lookup_found(named, c[i].0);
        let j = choose|j: int| 0 <= j < named.len() && #[trigger] named[j] == (c[i].0, lookup(named, c[i].0)->0);
        assert(c[i].1 == normalized(items[j]));
        assert(item_name(items[j]) is Some);
        lemma_item_name_normalized(items[j]);
        lemma_normalized_idempotent(items[j]);
    }
    assert(all_named(y)) by {
        assert forall|i: int| 0 <= i < y.len() implies (#[trigger] item_name(y[i])) is Some by {
            assert(item_name(c[i].1) == Some(c[i].0));
        }
    }
    assert(names_distinct(y)) by {
        assert forall|a: int, b: int| 0 <= a < y.len() && 0 <= b < y.len() && a != b implies #[trigger] item_name(y[a]) != #[trigger] item_name(y[b]) by {
            assert(item_name(c[a].1) == Some(c[a].0));
            assert(item_name(c[b].1) == Some(c[b].0));
        }
    }
    assert(named_entries(y) =~= c) by {
        assert forall|i: int| 0 <= i < c.len() implies #[trigger] named_entries(y)[i] == c[i] by {
            assert(item_name(c[i].1) == Some(c[i].0));
        }
    }
    lemma_canonical_of_sorted(c);
}

/// A list that `normalize_named_items` gives back unchanged.
pub open spec fn normal_list(v: JsonV) -> bool {
    named_items_result(v) == Ok::<JsonV, Error>(v)
}

/// What `normalize_named_items` accepts, it turns into a normal list.
pub proof fn lemma_result_is_normal(list: JsonV)
    requires
        named_items_result(list) is Ok,
    ensures
        normal_list(named_items_result(list)->Ok_0),
        named_items_result(list)->Ok_0 is Array,
{
    lemma_named_items_idempotent(list);
}

/// The empty list is normal.
pub proof fn lemma_empty_list_normal()
    ensures
        normal_list(JsonV::Array(Seq::empty())),
{
    let items = Seq::<JsonV>::empty();
    let named = named_entries(items);
    assert(named =~= Seq::<(Seq<char>, JsonV)>::empty());
    lemma_entries_map_empty(named);
    lemma_canonical_of_sorted(named);
    assert(canonical_entries(entries_map(named)).map_values(|p: (Seq<char>, JsonV)| p.1) =~= items);
}

/// A normal list is an array.
pub proof fn lemma_normal_is_array(v: JsonV)
    requires
        normal_list(v),
    ensures
        v is Array,
{
}

/// A normal list is its items listed by strictly increasing name, each
/// item having its key as its name.
pub proof fn normal_entries(v: JsonV) -> (c: Seq<(Seq<char>, JsonV)>)
    requires
        normal_list(v),
    ensures
        keys_sorted(c),
        v == JsonV::Array(c.map_values(|p: (Seq<char>, JsonV)| p.1)),
        forall|i: int| 0 <= i < c.len() ==> item_name(#[trigger] c[i].1) == Some(c[i].0),
{
    let items = v->Array_0;
    let named = named_entries(items);
    let c = canonical_entries(entries_map(named));
    lemma_canonical_exists(named);
    lemma_sorted_distinct(c);
    lemma_entries_map_distinct(c);
    assert(keys_distinct(named)) by {
        assert forall|a: int, b: int| 0 <= a < named.len() && 0 <= b < named.len() && a != b implies #[trigger] named[a].0 != #[trigger] named[b].0 by {
            assert(item_name(items[a]) != item_name(items[b]));
            assert(item_name(items[a]) is Some);
            assert(item_name(items[b]) is Some);
        }
    }
    lemma_entries_map_distinct(named);
    assert forall|i: int| 0 <= i < c.len() implies item_name(#[trigger] c[i].1) == Some(c[i].0) by {
        assert(entries_map(c)[c[i].0] == c[i].1);
        assert(entries_map(c).dom().contains(c[i].0));
        assert(entries_map(named).dom().contains(c[i].0));
        lemma_lookup_found(named, c[i].0);
        let j = choose|j: int| 0 <= j < named.len() && #[trigger] named[j] == (c[i].0, lookup(named, c[i].0)->0);
        assert(c[i].1 == normalized(items[j]));
        assert(item_name(items[j]) is Some);
        lemma_item_name_normalized(items[j]);
    }
    c
}

/// `q` lists the items of `p` in another order: item `i` of `q` is item
/// `perm[i]` of `p`, and `perm` matches the positions one to one.
pub open spec fn is_reordering(p: Seq<JsonV>, q: Seq<JsonV>, perm: Seq<int>) -> bool {
    &&& p.len() == q.len()
    &&& perm.len() == q.len()
    &&& forall|i: int| 0 <= i < q.len() ==> 0 <= #[trigger] perm[i] < p.len() && q[i] == p[perm[i]]
    &&& forall|i: int, k: int|
        0 <= i < q.len() && 0 <= k < q.len() && i != k ==> #[trigger] perm[i] != #[trigger] perm[k]
    &&& forall|j: int|
        0 <= j < p.len() ==> exists|i: int| 0 <= i < q.len() && #[trigger] perm[i] == j && q[i] == #[trigger] p[j]
}

/// The order of a discovery list does not matter: a reordering of its items
/// is accepted or refused as the list is, with the same error, and
/// normalizes to the same list.
pub proof fn lemma_named_items_order_free(p: Seq<JsonV>, q: Seq<JsonV>, perm: Seq<int>)
    requires
        is_reordering(p, q, perm),
    ensures
        named_items_result(JsonV::Array(q)) == named_items_result(JsonV::Array(p)),
{
    assert(all_named(q) <==> all_named(p)) by {
        if all_named(p) {
            assert forall|i: int| 0 <= i < q.len() implies (#[trigger] item_name(q[i])) is Some by {
                assert(q[i] == p[perm[i]]);
            }
        }
        if all_named(q) {
            assert forall|j: int| 0 <= j < p.len() implies (#[trigger] item_name(p[j])) is Some by {
                let i = choose|i: int| 0 <= i < q.len() && #[trigger] perm[i] == j;
                assert(q[i] == p[j]);
            }
        }
    }
    assert(names_distinct(q) <==> names_distinct(p)) by {
        if names_distinct(p) {
            assert forall|a: int, b: int| 0 <= a < q.len() && 0 <= b < q.len() && a != b implies #[trigger] item_name(q[a]) != #[trigger] item_name(q[b]) by {
                assert(perm[a] != perm[b]);
                assert(q[a] == p[perm[a]] && q[b] == p[perm[b]]);
            }
        }
        if names_distinct(q) {
            assert forall|a: int, b: int| 0 <= a < p.len() && 0 <= b < p.len() && a != b implies #[trigger] item_name(p[a]) != #[trigger] item_name(p[b]) by {
                let i = choose|i: int| 0 <= i < q.len() && #[trigger] perm[i] == a;
                let k = choose|k: int| 0 <= k < q.len() && #[trigger] perm[k] == b;
                assert(q[i] == p[a] && q[k] == p[b]);
            }
        }
    }
    if all_named(p) && names_distinct(p) {
        let np = named_entries(p);
        let nq = named_entries(q);
        assert(keys_distinct(np)) by {
            assert forall|a: int, b: int| 0 <= a < np.len() && 0 <= b < np.len() && a != b implies #[trigger] np[a].0 != #[trigger] np[b].0 by {
                assert(item_name(p[a]) != item_name(p[b]));
                assert(item_name(p[a]) is Some);
                assert(item_name(p[b]) is Some);
            }
        }
        assert(keys_distinct(nq)) by {
            assert forall|a: int, b: int| 0 <= a < nq.len() && 0 <= b < nq.len() && a != b implies #[trigger] nq[a].0 != #[trigger] nq[b].0 by {
                assert(item_name(q[a]) != item_name(q[b]));
                assert(item_name(q[a]) is Some);
                assert(item_name(q[b]) is Some);
            }
        }
        lemma_entries_map_distinct(np);
        lemma_entries_map_distinct(nq);
        assert(entries_map(nq) =~= entries_map(np)) by {
            assert forall|k: Seq<char>| #[trigger] entries_map(nq).dom().contains(k) <==> entries_map(np).dom().contains(k) by {
                if has_key(nq, k) {
                    let i = choose|i: int| 0 <= i < nq.len() && #[trigger] nq[i].0 == k;
                    assert(q[i] == p[perm[i]]);
                    assert(np[perm[i]].0 == k);
                }
                if has_key(np, k) {
                    let j = choose|j: int| 0 <= j < np.len() && #[trigger] np[j].0 == k;
                    let i = choose|i: int| 0 <= i < q.len() && #[trigger] perm[i] == j;
                    assert(q[i] == p[j]);
                    assert(nq[i].0 == k);
                }
            }
            assert forall|k: Seq<char>| #[trigger] entries_map(nq).dom().contains(k) implies entries_map(nq)[k] == entries_map(np)[k] by {
                let i = choose|i: int| 0 <= i < nq.len() && #[trigger] nq[i].0 == k;
                assert(q[i] == p[perm[i]]);
                assert(np[perm[i]] == nq[i]);
                assert(entries_map(np)[np[perm[i]].0] == np[perm[i]].1);
            }
        }
    }
}

/// Every object in the value lists its keys once each, in increasing order,
/// at every depth: the form of a parsed document and of a normalized value.
pub open spec fn canonical(j: JsonV) -> bool
    decreases j,
{
    match j {
        JsonV::Array(a) => canonical_items(a),
        JsonV::Object(e) => keys_sorted(e) && canonical_members(e),
        _ => true,
    }
}

/// Every item is canonical.
pub open spec fn canonical_items(a: Seq<JsonV>) -> bool
    decreases a,
{
    if a.len() == 0 {
        true
    } else {
        proof {
            assert(decreases_to!(a => a.drop_last()));
            assert(decreases_to!(a => a[a.len() - 1]));
        }
        canonical_items(a.drop_last()) && canonical(a[a.len() - 1])
    }
}

/// Every member value is canonical.
pub open spec fn canonical_members(e: Seq<(Seq<char>, JsonV)>) -> bool
    decreases e,
{
    if e.len() == 0 {
        true
    } else {
        proof {
            assert(decreases_to!(e => e.drop_last()));
            assert(decreases_to!(e => e[e.len() - 1]));
            assert(decreases_to!(e[e.len() - 1] => e[e.len() - 1].1));
        }
        canonical_members(e.drop_last()) && canonical(e[e.len() - 1].1)
    }
}

/// The items are canonical exactly when each one is.
pub proof fn lemma_canonical_items(a: Seq<JsonV>)
    ensures
        canonical_items(a) <==> forall|i: int| 0 <= i < a.len() ==> #[trigger] canonical(a[i]),
    decreases a.len(),
{
    if a.len() > 0 {
        let d = a.drop_last();
        lemma_canonical_items(d);
        assert(canonical_items(a) == (canonical_items(d) && canonical(a[a.len() - 1])));
        if forall|i: int| 0 <= i < a.len() ==> #[trigger] canonical(a[i]) {
            assert forall|i: int| 0 <= i < d.len() implies #[trigger] canonical(d[i]) by {
                assert(d[i] == a[i]);
            }
        }
        if canonical_items(a) {
            assert forall|i: int| 0 <= i < a.len() implies #[trigger] canonical(a[i]) by {
                if i < d.len() {
                    assert(d[i] == a[i]);
                }
            }
        }
    }
}

/// The member values are canonical exactly when each one is.
pub proof fn lemma_canonical_members(e: Seq<(Seq<char>, JsonV)>)
    ensures
        canonical_members(e) <==> forall|i: int| 0 <= i < e.len() ==> #[trigger] canonical(e[i].1),
    decreases e.len(),
{
    if e.len() > 0 {
        let d = e.drop_last();
        lemma_canonical_members(d);
        assert(canonical_members(e) == (canonical_members(d) && canonical(e[e.len() - 1].1)));
        if forall|i: int| 0 <= i < e.len() ==> #[trigger] canonical(e[i].1) {
            assert forall|i: int| 0 <= i < d.len() implies #[trigger] canonical(d[i].1) by {
                assert(d[i] == e[i]);
            }
        }
        if canonical_members(e) {
            assert forall|i: int| 0 <= i < e.len() implies #[trigger] canonical(e[i].1) by {
                if i < d.len() {
                    assert(d[i] == e[i]);
                }
            }
        }
    }
}

/// A normalized value is canonical.
pub proof fn lemma_normalized_canonical(j: JsonV)
    ensures
        canonical(normalized(j)),
    decreases j,
{
    match j {
        JsonV::Array(a) => {
            let n = normalized(j)->Array_0;
            assert forall|i: int| 0 <= i < n.len() implies #[trigger] canonical(n[i]) by {
                assert(decreases_to!(j => a));
                assert(decreases_to!(a => a[i]));
                lemma_normalized_canonical(a[i]);
            }
            assert(normalized(j) == JsonV::Array(n));
            lemma_canonical_items(n);
        },
        JsonV::Object(e) => {
            let m = normalized_members(e);
            let c = canonical_entries(entries_map(m));
            lemma_canonical_exists(m);
            lemma_sorted_distinct(c);
            lemma_entries_map_distinct(c);
            assert forall|i: int| 0 <= i < c.len() implies #[trigger] canonical(c[i].1) by {
                assert(entries_map(c)[c[i].0] == c[i].1);
                assert(entries_map(m).dom().contains(c[i].0));
                lemma_lookup_found(m, c[i].0);
                let k = choose|k: int| 0 <= k < m.len() && #[trigger] m[k] == (c[i].0, lookup(m, c[i].0)->0);
                assert(m[k].1 == normalized(e[k].1));
                assert(decreases_to!(j => e));
                assert(decreases_to!(e => e[k]));
                assert(decreases_to!(e[k] => e[k].1));
                lemma_normalized_canonical(e[k].1);
            }
            lemma_canonical_members(c);
        },
        _ => {},
    }
}

/// A normal list (as discovery returns and normalization makes) is
/// canonical.
pub proof fn lemma_normal_list_canonical(v: JsonV)
    requires
        normal_list(v),
    ensures
        canonical(v),
{
    let items = v->Array_0;
    let named = named_entries(items);
    let c = canonical_entries(entries_map(named));
    let out = c.map_values(|p: (Seq<char>, JsonV)| p.1);
    assert(v == JsonV::Array(out));
    lemma_canonical_exists(named);
    lemma_sorted_distinct(c);
    lemma_entries_map_distinct(c);
    assert forall|i: int| 0 <= i < out.len() implies #[trigger] canonical(out[i]) by {
        assert(out[i] == c[i].1);
        assert(entries_map(c)[c[i].0] == c[i].1);
        assert(entries_map(named).dom().contains(c[i].0));
        lemma_lookup_found(named, c[i].0);
        let j = choose|j: int| 0 <= j < named.len() && #[trigger] named[j] == (c[i].0, lookup(named, c[i].0)->0);
        assert(c[i].1 == normalized(items[j]));
        lemma_normalized_canonical(items[j]);
    }
    lemma_canonical_items(out);
}

/// Two canonical objects are equal exactly when they map the same keys to
/// the same members (which are canonical in turn): on canonical values,
/// equality is equality of JSON values, whatever order objects were built in.
pub proof fn lemma_canonical_objects_equal(e: Seq<(Seq<char>, JsonV)>, f: Seq<(Seq<char>, JsonV)>)
    requires
        canonical(JsonV::Object(e)),
        canonical(JsonV::Object(f)),
    ensures
        (JsonV::Object(e) == JsonV::Object(f)) <==> entries_map(e) == entries_map(f),
{
    if entries_map(e) == entries_map(f) {
        lemma_sorted_unique(e, f);
    }
}

} // verus!
