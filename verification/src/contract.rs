use vstd::prelude::*;

use crate::entries::{
    canonical_entries, entries_map, has_key, insert_entry, keys_sorted, lemma_canonical_exists,
    lemma_canonical_of_sorted,
    lemma_entries_map_distinct, lemma_entries_map_empty, lemma_entries_map_push,
    lemma_sorted_distinct,
};
use crate::entries::lemma_sorted_unique;
use crate::json::{entries_view, values_view, Json, JsonV};
use crate::normalize::{item_name, normal_entries, normal_list};
use crate::seq_facts::{lemma_filter_none, lemma_filter_some};
use crate::text::join3;

verus! {

/// The items of a list value (none if it is not an array).
pub open spec fn list_items(v: JsonV) -> Seq<JsonV> {
    match v {
        JsonV::Array(items) => items,
        _ => Seq::empty(),
    }
}

/// The items that have a string `name`, keyed by it, in list order.
pub open spec fn named_pairs(items: Seq<JsonV>) -> Seq<(Seq<char>, JsonV)>
    decreases items.len(),
{
    if items.len() == 0 {
        Seq::empty()
    } else {
        let rest = named_pairs(items.drop_last());
        match items.last().string_field("name"@) {
            Some(name) => rest.push((name, items.last())),
            None => rest,
        }
    }
}

/// The names of the items of a list, in list order (`tool_names`).
pub open spec fn names_of(list: JsonV) -> Seq<Seq<char>> {
    named_pairs(list_items(list)).map_values(|p: (Seq<char>, JsonV)| p.0)
}

/// Each name of a list mapped to its item, the last item winning (`tool_map`).
pub open spec fn named_map(list: JsonV) -> Map<Seq<char>, JsonV> {
    entries_map(named_pairs(list_items(list)))
}

/// The view of a vector of strings.
pub open spec fn strings_view(v: Seq<String>) -> Seq<Seq<char>> {
    v.map_values(|s: String| s@)
}

/// `tool_names`: the string names of the items of a list, in order.
pub fn tool_names(tools: &Json) -> (r: Vec<String>)
    ensures
        strings_view(r@) == names_of(tools@),
{
    let mut out: Vec<String> = Vec::new();
    let items = match tools.as_array() {
        Some(items) => items,
        None => {
            proof {
                assert(strings_view(out@) =~= names_of(tools@));
            }
            return out;
        },
    };
    let ghost iv = values_view(items@);
    let mut i: usize = 0;
    while i < items.len()
        invariant
            i <= items.len(),
            iv == values_view(items@),
            strings_view(out@) == named_pairs(iv.take(i as int)).map_values(
                |p: (Seq<char>, JsonV)| p.0,
            ),
        decreases items.len() - i,
    {
        proof {
            assert(iv.take(i + 1).drop_last() =~= iv.take(i as int));
            assert(iv.take(i + 1).last() == items@[i as int]@);
        }
        let ghost before = out@;
        match items[i].get("name") {
            Some(value) => match value.as_str() {
                Some(name) => {
                    out.push(name.clone());
                    proof {
                        assert(strings_view(out@) =~= strings_view(before).push(name@));
                    }
                },
                None => {},
            },
            None => {},
        }
        proof {
            assert(strings_view(out@) =~= named_pairs(iv.take(i + 1)).map_values(
                |p: (Seq<char>, JsonV)| p.0,
            ));
        }
        i = i + 1;
    }
    proof {
        assert(iv.take(items.len() as int) =~= iv);
    }
    out
}

/// `tool_map`: each name of a list with its item, in name order; where a
/// name repeats, the last item wins.
pub fn tool_map(tools: &Json) -> (r: Vec<(String, Json)>)
    ensures
        keys_sorted(entries_view(r@)),
        entries_view(r@) == canonical_entries(named_map(tools@)),
{
    let mut out: Vec<(String, Json)> = Vec::new();
    proof {
        lemma_entries_map_empty(entries_view(out@));
        lemma_entries_map_empty(named_pairs(Seq::<JsonV>::empty()));
    }
    let items = match tools.as_array() {
        Some(items) => items,
        None => {
            proof {
                lemma_canonical_of_sorted(entries_view(out@));
            }
            return out;
        },
    };
    let ghost iv = values_view(items@);
    let mut i: usize = 0;
    proof {
        assert(iv.take(0) =~= Seq::<JsonV>::empty());
    }
    while i < items.len()
        invariant
            i <= items.len(),
            iv == values_view(items@),
            keys_sorted(entries_view(out@)),
            entries_map(entries_view(out@)) == entries_map(named_pairs(iv.take(i as int))),
        decreases items.len() - i,
    {
        proof {
            assert(iv.take(i + 1).drop_last() =~= iv.take(i as int));
            assert(iv.take(i + 1).last() == items@[i as int]@);
        }
        match items[i].get("name") {
            Some(value) => match value.as_str() {
                Some(name) => {
                    let item = items[i].duplicate();
                    proof {
                        lemma_entries_map_push(named_pairs(iv.take(i as int)), (name@, item@));
                    }
                    insert_entry(&mut out, name.clone(), item);
                },
                None => {},
            },
            None => {},
        }
        i = i + 1;
    }
    proof {
        assert(iv.take(items.len() as int) =~= iv);
        lemma_canonical_of_sorted(entries_view(out@));
    }
    out
}

/// The change line for a name that the recorded contract has and the
/// server no longer has.
pub open spec fn removed_line(name: Seq<char>) -> Seq<char> {
    "removed tool `"@ + name + "`"@
}

/// The change line for a name that only the server has.
pub open spec fn added_line(name: Seq<char>) -> Seq<char> {
    "added tool `"@ + name + "`"@
}

/// The change line for a name whose item differs.
pub open spec fn changed_line(name: Seq<char>) -> Seq<char> {
    "changed contract for `"@ + name + "`"@
}

/// What `contract_changes` reports: first the removed names, then the added
/// ones, then those whose item changed, each group in name order.
pub open spec fn changes_between(expected: JsonV, actual: JsonV) -> Seq<Seq<char>> {
    let e = named_map(expected);
    let a = named_map(actual);
    canonical_entries(e).filter(|p: (Seq<char>, JsonV)| !a.dom().contains(p.0)).map_values(
        |p: (Seq<char>, JsonV)| removed_line(p.0),
    ) + canonical_entries(a).filter(|p: (Seq<char>, JsonV)| !e.dom().contains(p.0)).map_values(
        |p: (Seq<char>, JsonV)| added_line(p.0),
    ) + canonical_entries(e).filter(
        |p: (Seq<char>, JsonV)| a.dom().contains(p.0) && a[p.0] != p.1,
    ).map_values(|p: (Seq<char>, JsonV)| changed_line(p.0))
}

/// The index of the entry with the key, in a key-sorted list.
#[verifier::loop_isolation(false)]
fn find_key(entries: &Vec<(String, Json)>, key: &String) -> (r: Option<usize>)
    requires
        keys_sorted(entries_view(entries@)),
    ensures
        match r {
            Some(i) => i < entries.len() && entries_map(entries_view(entries@)).dom().contains(key@)
                && entries_map(entries_view(entries@))[key@] == entries@[i as int].1@,
            None => !entries_map(entries_view(entries@)).dom().contains(key@),
        },
{
    let ghost ev = entries_view(entries@);
    proof {
        lemma_sorted_distinct(ev);
        lemma_entries_map_distinct(ev);
    }
    let mut i: usize = 0;
    while i < entries.len()
        invariant
            i <= entries.len(),
            ev == entries_view(entries@),
            forall|j: int| 0 <= j < i ==> (#[trigger] ev[j]).0 != key@,
        decreases entries.len() - i,
    {
        if entries[i].0 == *key {
            proof {
                assert(ev[i as int].0 == key@);
            }
            return Some(i);
        }
        i = i + 1;
    }
    proof {
        if has_key(ev, key@) {
            let j = choose|j: int| 0 <= j < ev.len() && #[trigger] ev[j].0 == key@;
            assert(ev[j].0 != key@);
        }
    }
    None
}

/// `contract_changes`: the differences between the recorded and the current
/// list of a discovery surface, one line each.
#[verifier::loop_isolation(false)]
pub fn contract_changes(expected: &Json, actual: &Json) -> (r: Vec<String>)
    ensures
        strings_view(r@) == changes_between(expected@, actual@),
{
    let em = tool_map(expected);
    let am = tool_map(actual);
    let ghost e = named_map(expected@);
    let ghost a = named_map(actual@);
    let ghost ce = canonical_entries(e);
    let ghost ca = canonical_entries(a);
    let ghost removed_pred = |p: (Seq<char>, JsonV)| !a.dom().contains(p.0);
    let ghost added_pred = |p: (Seq<char>, JsonV)| !e.dom().contains(p.0);
    let ghost changed_pred = |p: (Seq<char>, JsonV)| a.dom().contains(p.0) && a[p.0] != p.1;
    proof {
        lemma_sorted_distinct(entries_view(em@));
        lemma_sorted_distinct(entries_view(am@));
        lemma_entries_map_distinct(ce);
        lemma_entries_map_distinct(ca);
        lemma_canonical_of_sorted(entries_view(em@));
        lemma_canonical_of_sorted(entries_view(am@));
        lemma_canonical_exists(named_pairs(list_items(expected@)));
        lemma_canonical_exists(named_pairs(list_items(actual@)));
    }
    let mut removed: Vec<String> = Vec::new();
    let mut added: Vec<String> = Vec::new();
    let mut changed: Vec<String> = Vec::new();
    let mut i: usize = 0;
    proof {
        reveal(Seq::filter);
        assert(ce.take(0).filter(removed_pred) =~= Seq::empty());
        assert(ce.take(0).filter(changed_pred) =~= Seq::empty());
    }
    while i < em.len()
        invariant
            i <= em.len(),
            entries_view(em@) == ce,
            strings_view(removed@) == ce.take(i as int).filter(removed_pred).map_values(
                |p: (Seq<char>, JsonV)| removed_line(p.0),
            ),
            strings_view(changed@) == ce.take(i as int).filter(changed_pred).map_values(
                |p: (Seq<char>, JsonV)| changed_line(p.0),
            ),
        decreases em.len() - i,
    {
        let ghost before_removed = removed@;
        let ghost before_changed = changed@;
        let ghost p = ce[i as int];
        proof {
            reveal(Seq::filter);
            assert(ce.take(i + 1).drop_last() =~= ce.take(i as int));
            assert(ce.take(i + 1).last() == p);
            assert(p == (em@[i as int].0@, em@[i as int].1@));
            assert(e[p.0] == p.1);
        }
        match find_key(&am, &em[i].0) {
            None => {
                removed.push(join3("removed tool `", em[i].0.as_str(), "`"));
                proof {
                    assert(strings_view(removed@) =~= strings_view(before_removed).push(removed_line(p.0)));
                    assert(strings_view(changed@) =~= strings_view(before_changed));
                }
            },
            Some(j) => {
                if !am[j].1.equals(&em[i].1) {
                    changed.push(join3("changed contract for `", em[i].0.as_str(), "`"));
                    proof {
                        assert(strings_view(changed@) =~= strings_view(before_changed).push(changed_line(p.0)));
                    }
                } else {
                    proof {
                        assert(strings_view(changed@) =~= strings_view(before_changed));
                    }
                }
                proof {
                    assert(strings_view(removed@) =~= strings_view(before_removed));
                }
            },
        }
        i = i + 1;
    }
    let mut k: usize = 0;
    proof {
        reveal(Seq::filter);
        assert(ca.take(0).filter(added_pred) =~= Seq::empty());
    }
    while k < am.len()
        invariant
            k <= am.len(),
            entries_view(am@) == ca,
            strings_view(added@) == ca.take(k as int).filter(added_pred).map_values(
                |p: (Seq<char>, JsonV)| added_line(p.0),
            ),
        decreases am.len() - k,
    {
        let ghost before_added = added@;
        let ghost p = ca[k as int];
        proof {
            reveal(Seq::filter);
            assert(ca.take(k + 1).drop_last() =~= ca.take(k as int));
            assert(ca.take(k + 1).last() == p);
            assert(p == (am@[k as int].0@, am@[k as int].1@));
        }
        if find_key(&em, &am[k].0).is_none() {
            added.push(join3("added tool `", am[k].0.as_str(), "`"));
            proof {
                assert(strings_view(added@) =~= strings_view(before_added).push(added_line(p.0)));
            }
        } else {
            proof {
                assert(strings_view(added@) =~= strings_view(before_added));
            }
        }
        k = k + 1;
    }
    proof {
        assert(ce.take(ce.len() as int) =~= ce);
        assert(ca.take(ca.len() as int) =~= ca);
    }
    let ghost r1 = removed@;
    let ghost r2 = added@;
    let ghost r3 = changed@;
    removed.append(&mut added);
    removed.append(&mut changed);
    proof {
        assert(strings_view(removed@) =~= strings_view(r1) + strings_view(r2) + strings_view(r3));
    }
    removed
}

/// The recorded and the current list differ in no reported line exactly
/// when they map the same names to the same items.
pub proof fn lemma_no_changes_iff_same_items(expected: JsonV, actual: JsonV)
    ensures
        changes_between(expected, actual).len() == 0 <==> named_map(expected) == named_map(actual),
{
    let e = named_map(expected);
    let a = named_map(actual);
    let ce = canonical_entries(e);
    let ca = canonical_entries(a);
    let removed_pred = |p: (Seq<char>, JsonV)| !a.dom().contains(p.0);
    let added_pred = |p: (Seq<char>, JsonV)| !e.dom().contains(p.0);
    let changed_pred = |p: (Seq<char>, JsonV)| a.dom().contains(p.0) && a[p.0] != p.1;
    lemma_canonical_exists(named_pairs(list_items(expected)));
    lemma_canonical_exists(named_pairs(list_items(actual)));
    lemma_sorted_distinct(ce);
    lemma_sorted_distinct(ca);
    lemma_entries_map_distinct(ce);
    lemma_entries_map_distinct(ca);
    let removed = ce.filter(removed_pred);
    let added = ca.filter(added_pred);
    let changed = ce.filter(changed_pred);
    assert(changes_between(expected, actual).len() == removed.len() + added.len() + changed.len());
    if e == a {
        lemma_filter_none(ce, removed_pred);
        lemma_filter_none(ca, added_pred);
        assert forall|i: int| 0 <= i < ce.len() implies !changed_pred(#[trigger] ce[i]) by {
            assert(e[ce[i].0] == ce[i].1);
        }
        lemma_filter_none(ce, changed_pred);
    }
    if removed.len() + added.len() + changed.len() == 0 {
        assert forall|k: Seq<char>| e.dom().contains(k) <==> a.dom().contains(k) by {
            if e.dom().contains(k) {
                let i = choose|i: int| 0 <= i < ce.len() && #[trigger] ce[i].0 == k;
                if !removed_pred(ce[i]) {
                } else {
                    lemma_filter_some(ce, removed_pred, i);
                }
            }
            if a.dom().contains(k) {
                let i = choose|i: int| 0 <= i < ca.len() && #[trigger] ca[i].0 == k;
                if added_pred(ca[i]) {
                    lemma_filter_some(ca, added_pred, i);
                }
            }
        }
        assert forall|k: Seq<char>| e.dom().contains(k) implies e[k] == a[k] by {
            let i = choose|i: int| 0 <= i < ce.len() && #[trigger] ce[i].0 == k;
            assert(e[ce[i].0] == ce[i].1);
            if changed_pred(ce[i]) {
                lemma_filter_some(ce, changed_pred, i);
            }
        }
        assert(e =~= a);
    }
}

/// When every item has a string name, the named items are all the items.
proof fn lemma_named_pairs_all_named(items: Seq<JsonV>)
    requires
        forall|i: int| 0 <= i < items.len() ==> (#[trigger] items[i].string_field("name"@)) is Some,
    ensures
        named_pairs(items) == Seq::new(
            items.len(),
            |i: int| (items[i].string_field("name"@)->0, items[i]),
        ),
    decreases items.len(),
{
    if items.len() > 0 {
        let d = items.drop_last();
        assert forall|i: int| 0 <= i < d.len() implies (#[trigger] d[i].string_field("name"@)) is Some by {
            assert(d[i] == items[i]);
        }
        lemma_named_pairs_all_named(d);
        assert(items[items.len() - 1].string_field("name"@) is Some);
        assert(named_pairs(items) =~= Seq::new(
            items.len(),
            |i: int| (items[i].string_field("name"@)->0, items[i]),
        ));
    } else {
        assert(named_pairs(items) =~= Seq::new(
            items.len(),
            |i: int| (items[i].string_field("name"@)->0, items[i]),
        ));
    }
}

/// The named map of a normal list is the map of its name-sorted entries.
proof fn lemma_named_map_of_normal(v: JsonV) -> (c: Seq<(Seq<char>, JsonV)>)
    requires
        normal_list(v),
    ensures
        keys_sorted(c),
        v == JsonV::Array(c.map_values(|p: (Seq<char>, JsonV)| p.1)),
        named_map(v) == entries_map(c),
{
    let c = normal_entries(v);
    let items = c.map_values(|p: (Seq<char>, JsonV)| p.1);
    assert forall|i: int| 0 <= i < items.len() implies (#[trigger] items[i].string_field("name"@)) is Some by {
        assert(item_name(c[i].1) == Some(c[i].0));
    }
    lemma_named_pairs_all_named(items);
    assert(named_pairs(items) =~= c) by {
        assert forall|i: int| 0 <= i < c.len() implies #[trigger] named_pairs(items)[i] == c[i] by {
            assert(item_name(c[i].1) == Some(c[i].0));
        }
    }
    c
}

/// Two normal lists that map the same names to the same items are equal.
pub proof fn lemma_same_items_same_list(x: JsonV, y: JsonV)
    requires
        normal_list(x),
        normal_list(y),
    ensures
        named_map(x) == named_map(y) <==> x == y,
{
    let cx = lemma_named_map_of_normal(x);
    let cy = lemma_named_map_of_normal(y);
    if named_map(x) == named_map(y) {
        lemma_sorted_unique(cx, cy);
    }
}

} // verus!
