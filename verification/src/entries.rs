use vstd::prelude::*;

use crate::text::{
    lemma_str_lt_asymmetric, lemma_str_lt_irreflexive, lemma_str_lt_total,
    lemma_str_lt_transitive, str_less, str_lt,
};

verus! {

/// The value stored under `key` in a list of entries: the last entry with
/// that key wins, as when the entries are inserted into a map one by one.
pub open spec fn lookup<V>(e: Seq<(Seq<char>, V)>, key: Seq<char>) -> Option<V>
    decreases e.len(),
{
    if e.len() == 0 {
        None
    } else if e.last().0 == key {
        Some(e.last().1)
    } else {
        lookup(e.drop_last(), key)
    }
}

/// Keys strictly increase along the entries (so no key occurs twice).
pub open spec fn keys_sorted<V>(e: Seq<(Seq<char>, V)>) -> bool {
    forall|i: int, j: int| 0 <= i < j < e.len() ==> str_lt(#[trigger] e[i].0, #[trigger] e[j].0)
}

/// No key occurs twice.
pub open spec fn keys_distinct<V>(e: Seq<(Seq<char>, V)>) -> bool {
    forall|i: int, j: int| 0 <= i < e.len() && 0 <= j < e.len() && i != j ==> #[trigger] e[i].0 != #[trigger] e[j].0
}

/// Whether some entry has the key.
pub open spec fn has_key<V>(e: Seq<(Seq<char>, V)>, key: Seq<char>) -> bool {
    exists|i: int| 0 <= i < e.len() && #[trigger] e[i].0 == key
}

/// The map that the entries describe, the last entry winning for each key.
pub open spec fn entries_map<V>(e: Seq<(Seq<char>, V)>) -> Map<Seq<char>, V> {
    Map::new(|k: Seq<char>| lookup(e, k) is Some, |k: Seq<char>| lookup(e, k)->0)
}

/// The entries of a map listed in increasing key order.
pub open spec fn canonical_entries<V>(m: Map<Seq<char>, V>) -> Seq<(Seq<char>, V)> {
    choose|s: Seq<(Seq<char>, V)>| keys_sorted(s) && entries_map(s) == m
}

pub proof fn lemma_sorted_distinct<V>(e: Seq<(Seq<char>, V)>)
    requires
        keys_sorted(e),
    ensures
        keys_distinct(e),
{
    assert forall|i: int, j: int| 0 <= i < e.len() && 0 <= j < e.len() && i != j implies #[trigger] e[i].0 != #[trigger] e[j].0 by {
        if i < j {
            assert(str_lt(e[i].0, e[j].0));
            lemma_str_lt_irreflexive(e[i].0);
        } else {
            assert(str_lt(e[j].0, e[i].0));
            lemma_str_lt_irreflexive(e[j].0);
        }
    }
}

/// Without a matching entry, there is nothing under the key; with one, the
/// value found is that of some matching entry.
pub proof fn lemma_lookup_found<V>(e: Seq<(Seq<char>, V)>, key: Seq<char>)
    ensures
        lookup(e, key) is Some <==> has_key(e, key),
        lookup(e, key) is Some ==> exists|i: int|
            0 <= i < e.len() && #[trigger] e[i] == (key, lookup(e, key)->0),
    decreases e.len(),
{
    if e.len() > 0 {
        let d = e.drop_last();
        lemma_lookup_found(d, key);
        if e.last().0 == key {
            assert(e[e.len() - 1] == (key, lookup(e, key)->0));
        } else {
            if has_key(e, key) {
                let i = choose|i: int| 0 <= i < e.len() && #[trigger] e[i].0 == key;
                assert(d[i].0 == key);
            }
            if has_key(d, key) {
                let i = choose|i: int| 0 <= i < d.len() && #[trigger] d[i].0 == key;
                assert(e[i].0 == key);
            }
            if lookup(e, key) is Some {
                let i = choose|i: int| 0 <= i < d.len() && #[trigger] d[i] == (key, lookup(d, key)->0);
                assert(e[i] == d[i]);
            }
        }
    }
}

/// With distinct keys, the value under a key is that of its one entry.
pub proof fn lemma_lookup_distinct<V>(e: Seq<(Seq<char>, V)>, i: int)
    requires
        keys_distinct(e),
        0 <= i < e.len(),
    ensures
        lookup(e, e[i].0) == Some(e[i].1),
    decreases e.len(),
{
    if i < e.len() - 1 {
        let d = e.drop_last();
        assert(e[i].0 != e[e.len() - 1].0);
        assert(keys_distinct(d)) by {
            assert forall|a: int, b: int| 0 <= a < d.len() && 0 <= b < d.len() && a != b implies #[trigger] d[a].0 != #[trigger] d[b].0 by {
                assert(d[a] == e[a] && d[b] == e[b]);
            }
        }
        assert(d[i] == e[i]);
        lemma_lookup_distinct(d, i);
    }
}

/// The map of entries with distinct keys, described entry by entry.
pub proof fn lemma_entries_map_distinct<V>(e: Seq<(Seq<char>, V)>)
    requires
        keys_distinct(e),
    ensures
        forall|k: Seq<char>| #[trigger] entries_map(e).dom().contains(k) <==> has_key(e, k),
        forall|i: int| 0 <= i < e.len() ==> #[trigger] entries_map(e)[e[i].0] == e[i].1,
        forall|i: int| 0 <= i < e.len() ==> entries_map(e).dom().contains(#[trigger] e[i].0),
{
    assert forall|k: Seq<char>| #[trigger] entries_map(e).dom().contains(k) <==> has_key(e, k) by {
        lemma_lookup_found(e, k);
    }
    assert forall|i: int| 0 <= i < e.len() implies #[trigger] entries_map(e)[e[i].0] == e[i].1 by {
        lemma_lookup_distinct(e, i);
    }
    assert forall|i: int| 0 <= i < e.len() implies entries_map(e).dom().contains(#[trigger] e[i].0) by {
        lemma_lookup_distinct(e, i);
    }
}

/// Two key-sorted entry lists that describe the same map are the same list.
pub proof fn lemma_sorted_unique<V>(s: Seq<(Seq<char>, V)>, t: Seq<(Seq<char>, V)>)
    requires
        keys_sorted(s),
        keys_sorted(t),
        entries_map(s) == entries_map(t),
    ensures
        s == t,
    decreases s.len(),
{
    lemma_sorted_distinct(s);
    lemma_sorted_distinct(t);
    lemma_entries_map_distinct(s);
    lemma_entries_map_distinct(t);
    if s.len() == 0 {
        if t.len() > 0 {
            assert(entries_map(t).dom().contains(t[0].0));
            assert(!has_key(s, t[0].0));
        }
        assert(s =~= t);
    } else {
        assert(entries_map(s).dom().contains(s[0].0));
        assert(has_key(t, s[0].0));
        let j = choose|j: int| 0 <= j < t.len() && #[trigger] t[j].0 == s[0].0;
        assert(entries_map(t).dom().contains(t[0].0));
        assert(has_key(s, t[0].0));
        let i = choose|i: int| 0 <= i < s.len() && #[trigger] s[i].0 == t[0].0;
        if j > 0 {
            assert(str_lt(t[0].0, t[j].0));
            if i > 0 {
                assert(str_lt(s[0].0, s[i].0));
                lemma_str_lt_asymmetric(s[0].0, t[0].0);
            }
            assert(false);
        }
        assert(s[0].1 == entries_map(s)[s[0].0]);
        assert(t[0].1 == entries_map(t)[t[0].0]);
        assert(s[0] == t[0]);
        let s1 = s.drop_first();
        let t1 = t.drop_first();
        assert(keys_sorted(s1)) by {
            assert forall|a: int, b: int| 0 <= a < b < s1.len() implies str_lt(#[trigger] s1[a].0, #[trigger] s1[b].0) by {
                assert(s1[a] == s[a + 1] && s1[b] == s[b + 1]);
            }
        }
        assert(keys_sorted(t1)) by {
            assert forall|a: int, b: int| 0 <= a < b < t1.len() implies str_lt(#[trigger] t1[a].0, #[trigger] t1[b].0) by {
                assert(t1[a] == t[a + 1] && t1[b] == t[b + 1]);
            }
        }
        lemma_sorted_distinct(s1);
        lemma_sorted_distinct(t1);
        lemma_entries_map_distinct(s1);
        lemma_entries_map_distinct(t1);
        assert(entries_map(s1) =~= entries_map(t1)) by {
            assert forall|k: Seq<char>| #[trigger] entries_map(s1).dom().contains(k) <==> entries_map(t1).dom().contains(k) by {
                if has_key(s1, k) {
                    let a = choose|a: int| 0 <= a < s1.len() && #[trigger] s1[a].0 == k;
                    assert(s[a + 1].0 == k);
                    assert(entries_map(t).dom().contains(k));
                    let b = choose|b: int| 0 <= b < t.len() && #[trigger] t[b].0 == k;
                    if b == 0 {
                        assert(s[0].0 == s[a + 1].0);
                        assert(false);
                    }
                    assert(t1[b - 1].0 == k);
                }
                if has_key(t1, k) {
                    let a = choose|a: int| 0 <= a < t1.len() && #[trigger] t1[a].0 == k;
                    assert(t[a + 1].0 == k);
                    assert(entries_map(s).dom().contains(k));
                    let b = choose|b: int| 0 <= b < s.len() && #[trigger] s[b].0 == k;
                    if b == 0 {
                        assert(t[0].0 == t[a + 1].0);
                        assert(false);
                    }
                    assert(s1[b - 1].0 == k);
                }
            }
            assert forall|k: Seq<char>| #[trigger] entries_map(s1).dom().contains(k) implies entries_map(s1)[k] == entries_map(t1)[k] by {
                let a = choose|a: int| 0 <= a < s1.len() && #[trigger] s1[a].0 == k;
                let b = choose|b: int| 0 <= b < t1.len() && #[trigger] t1[b].0 == k;
                assert(s[a + 1] == s1[a]);
                assert(t[b + 1] == t1[b]);
                assert(entries_map(s)[s[a + 1].0] == s[a + 1].1);
                assert(entries_map(t)[t[b + 1].0] == t[b + 1].1);
            }
        }
        lemma_sorted_unique(s1, t1);
        assert(s =~= seq![s[0]] + s1);
        assert(t =~= seq![t[0]] + t1);
    }
}

/// A key-sorted list is the canonical listing of its own map.
pub proof fn lemma_canonical_of_sorted<V>(s: Seq<(Seq<char>, V)>)
    requires
        keys_sorted(s),
    ensures
        canonical_entries(entries_map(s)) == s,
{
    let c = canonical_entries(entries_map(s));
    assert(keys_sorted(c) && entries_map(c) == entries_map(s));
    lemma_sorted_unique(c, s);
}

/// Every list of entries has a canonical listing of its map.
pub proof fn lemma_canonical_exists<V>(e: Seq<(Seq<char>, V)>)
    ensures
        keys_sorted(canonical_entries(entries_map(e))),
        entries_map(canonical_entries(entries_map(e))) == entries_map(e),
    decreases e.len(),
{
    let w = sorted_listing(e);
    assert(keys_sorted(w) && entries_map(w) == entries_map(e));
}

/// A key-sorted listing of the map of `e`, built by insertion.
proof fn sorted_listing<V>(e: Seq<(Seq<char>, V)>) -> (s: Seq<(Seq<char>, V)>)
    ensures
        keys_sorted(s),
        entries_map(s) == entries_map(e),
    decreases e.len(),
{
    if e.len() == 0 {
        lemma_entries_map_empty(e);
        lemma_entries_map_empty(Seq::<(Seq<char>, V)>::empty());
        Seq::empty()
    } else {
        let d = e.drop_last();
        let x = e.last();
        let t = sorted_listing(d);
        assert(e =~= d.push(x));
        lemma_entries_map_push(d, x);
        sorted_put(t, x)
    }
}

/// Puts an entry into a key-sorted list (the mathematical twin of `insert_entry`).
proof fn sorted_put<V>(t: Seq<(Seq<char>, V)>, x: (Seq<char>, V)) -> (s: Seq<(Seq<char>, V)>)
    requires
        keys_sorted(t),
    ensures
        keys_sorted(s),
        entries_map(s) == entries_map(t).insert(x.0, x.1),
    decreases t.len(),
{
    lemma_sorted_distinct(t);
    lemma_entries_map_distinct(t);
    if t.len() == 0 {
        let s = seq![x];
        lemma_entries_map_empty(t);
        assert(s =~= t.push(x));
        lemma_entries_map_push(t, x);
        s
    } else if t[0].0 == x.0 {
        let s = t.update(0, x);
        assert(keys_sorted(s)) by {
            assert forall|a: int, b: int| 0 <= a < b < s.len() implies str_lt(#[trigger] s[a].0, #[trigger] s[b].0) by {
                assert(s[a].0 == t[a].0 && s[b].0 == t[b].0);
            }
        }
        lemma_sorted_distinct(s);
        lemma_entries_map_distinct(s);
        assert(entries_map(s) =~= entries_map(t).insert(x.0, x.1)) by {
            assert forall|k: Seq<char>| #[trigger] entries_map(s).dom().contains(k) <==> entries_map(t).insert(x.0, x.1).dom().contains(k) by {
                if has_key(s, k) {
                    let a = choose|a: int| 0 <= a < s.len() && #[trigger] s[a].0 == k;
                    assert(t[a].0 == k);
                }
                if has_key(t, k) {
                    let a = choose|a: int| 0 <= a < t.len() && #[trigger] t[a].0 == k;
                    assert(s[a].0 == k);
                }
            }
            assert forall|k: Seq<char>| #[trigger] entries_map(s).dom().contains(k) implies entries_map(s)[k] == entries_map(t).insert(x.0, x.1)[k] by {
                let a = choose|a: int| 0 <= a < s.len() && #[trigger] s[a].0 == k;
                assert(entries_map(s)[s[a].0] == s[a].1);
                if a != 0 {
                    assert(entries_map(t)[t[a].0] == t[a].1);
                }
            }
        }
        s
    } else if str_lt(x.0, t[0].0) {
        let s = seq![x] + t;
        assert(keys_sorted(s)) by {
            assert forall|a: int, b: int| 0 <= a < b < s.len() implies str_lt(#[trigger] s[a].0, #[trigger] s[b].0) by {
                if a == 0 {
                    if b > 1 {
                        lemma_str_lt_transitive(x.0, t[0].0, t[b - 1].0);
                    }
                } else {
                    assert(s[a] == t[a - 1] && s[b] == t[b - 1]);
                }
            }
        }
        lemma_sorted_distinct(s);
        lemma_entries_map_distinct(s);
        assert(entries_map(s) =~= entries_map(t).insert(x.0, x.1)) by {
            assert forall|k: Seq<char>| #[trigger] entries_map(s).dom().contains(k) <==> entries_map(t).insert(x.0, x.1).dom().contains(k) by {
                if has_key(s, k) {
                    let a = choose|a: int| 0 <= a < s.len() && #[trigger] s[a].0 == k;
                    if a > 0 {
                        assert(t[a - 1].0 == k);
                    }
                }
                if has_key(t, k) {
                    let a = choose|a: int| 0 <= a < t.len() && #[trigger] t[a].0 == k;
                    assert(s[a + 1].0 == k);
                }
                if k == x.0 {
                    assert(s[0].0 == k);
                }
            }
            assert forall|k: Seq<char>| #[trigger] entries_map(s).dom().contains(k) implies entries_map(s)[k] == entries_map(t).insert(x.0, x.1)[k] by {
                let a = choose|a: int| 0 <= a < s.len() && #[trigger] s[a].0 == k;
                assert(entries_map(s)[s[a].0] == s[a].1);
                if a != 0 {
                    assert(s[0].0 != s[a].0);
                    assert(s[a] == t[a - 1]);
                    assert(entries_map(t)[t[a - 1].0] == t[a - 1].1);
                }
            }
        }
        s
    } else {
        lemma_str_lt_total(x.0, t[0].0);
        let rest = t.drop_first();
        assert(keys_sorted(rest)) by {
            assert forall|a: int, b: int| 0 <= a < b < rest.len() implies str_lt(#[trigger] rest[a].0, #[trigger] rest[b].0) by {
                assert(rest[a] == t[a + 1] && rest[b] == t[b + 1]);
            }
        }
        let r = sorted_put(rest, x);
        let s = seq![t[0]] + r;
        lemma_sorted_distinct(rest);
        lemma_entries_map_distinct(rest);
        lemma_sorted_distinct(r);
        lemma_entries_map_distinct(r);
        // every key of `r` is a key of `rest` or `x`'s key, all above `t[0]`'s key
        assert forall|b: int| 0 <= b < r.len() implies str_lt(t[0].0, #[trigger] r[b].0) by {
            assert(entries_map(r).dom().contains(r[b].0));
            if r[b].0 != x.0 {
                assert(entries_map(rest).dom().contains(r[b].0));
                let c = choose|c: int| 0 <= c < rest.len() && #[trigger] rest[c].0 == r[b].0;
                assert(t[c + 1] == rest[c]);
            }
        }
        assert(keys_sorted(s)) by {
            assert forall|a: int, b: int| 0 <= a < b < s.len() implies str_lt(#[trigger] s[a].0, #[trigger] s[b].0) by {
                if a == 0 {
                    assert(s[b] == r[b - 1]);
                } else {
                    assert(s[a] == r[a - 1] && s[b] == r[b - 1]);
                }
            }
        }
        lemma_sorted_distinct(s);
        lemma_entries_map_distinct(s);
        assert(entries_map(s) =~= entries_map(t).insert(x.0, x.1)) by {
            assert forall|k: Seq<char>| #[trigger] entries_map(s).dom().contains(k) <==> entries_map(t).insert(x.0, x.1).dom().contains(k) by {
                if has_key(s, k) {
                    let a = choose|a: int| 0 <= a < s.len() && #[trigger] s[a].0 == k;
                    if a > 0 {
                        assert(r[a - 1].0 == k);
                        assert(entries_map(r).dom().contains(k));
                        if k != x.0 {
                            let c = choose|c: int| 0 <= c < rest.len() && #[trigger] rest[c].0 == k;
                            assert(t[c + 1].0 == k);
                        }
                    }
                }
                if has_key(t, k) {
                    let a = choose|a: int| 0 <= a < t.len() && #[trigger] t[a].0 == k;
                    if a > 0 {
                        assert(rest[a - 1].0 == k);
                        assert(entries_map(r).dom().contains(k));
                        let c = choose|c: int| 0 <= c < r.len() && #[trigger] r[c].0 == k;
                        assert(s[c + 1].0 == k);
                    } else {
                        assert(s[0].0 == k);
                    }
                }
                if k == x.0 {
                    assert(entries_map(r).dom().contains(k));
                    let c = choose|c: int| 0 <= c < r.len() && #[trigger] r[c].0 == k;
                    assert(s[c + 1].0 == k);
                }
            }
            assert forall|k: Seq<char>| #[trigger] entries_map(s).dom().contains(k) implies entries_map(s)[k] == entries_map(t).insert(x.0, x.1)[k] by {
                let a = choose|a: int| 0 <= a < s.len() && #[trigger] s[a].0 == k;
                assert(entries_map(s)[s[a].0] == s[a].1);
                if a == 0 {
                    assert(entries_map(t)[t[0].0] == t[0].1);
                } else {
                    assert(s[a] == r[a - 1]);
                    assert(entries_map(r)[r[a - 1].0] == r[a - 1].1);
                    if k != x.0 {
                        let c = choose|c: int| 0 <= c < rest.len() && #[trigger] rest[c].0 == k;
                        assert(entries_map(rest)[rest[c].0] == rest[c].1);
                        assert(t[c + 1] == rest[c]);
                        assert(entries_map(t)[t[c + 1].0] == t[c + 1].1);
                    }
                }
            }
        }
        s
    }
}

/// Appending an entry sets its key in the map.
pub proof fn lemma_entries_map_push<V>(e: Seq<(Seq<char>, V)>, x: (Seq<char>, V))
    ensures
        entries_map(e.push(x)) == entries_map(e).insert(x.0, x.1),
{
    let f = e.push(x);
    assert(f.drop_last() =~= e);
    assert(entries_map(f) =~= entries_map(e).insert(x.0, x.1));
}

/// The map of no entries is empty.
pub proof fn lemma_entries_map_empty<V>(e: Seq<(Seq<char>, V)>)
    requires
        e.len() == 0,
    ensures
        entries_map(e) == Map::<Seq<char>, V>::empty(),
{
    assert(entries_map(e) =~= Map::<Seq<char>, V>::empty());
}

/// The model of a list of entries keyed by strings: each key and value by
/// its view.
pub open spec fn keyed_view<V: View>(e: Seq<(String, V)>) -> Seq<(Seq<char>, V::V)> {
    e.map_values(|p: (String, V)| (p.0@, p.1@))
}

/// A map keyed by text is kept as a key-sorted list of entries, whose
/// contents and order the contracts state exactly.
///
/// Puts `(key, value)` into a key-sorted list of entries: the entry with the
/// same key is replaced, or else the new entry goes where its key belongs.
/// Returns whether the key was already there.
pub fn insert_entry<V: View>(out: &mut Vec<(String, V)>, key: String, value: V) -> (existed: bool)
    requires
        keys_sorted(keyed_view(old(out)@)),
    ensures
        keys_sorted(keyed_view(final(out)@)),
        entries_map(keyed_view(final(out)@)) == entries_map(keyed_view(old(out)@)).insert(
            key@,
            value@,
        ),
        existed == entries_map(keyed_view(old(out)@)).dom().contains(key@),
{
    let ghost old_v = keyed_view(out@);
    let ghost k = key@;
    let ghost v = value@;
    proof {
        lemma_sorted_distinct(old_v);
        lemma_entries_map_distinct(old_v);
    }
    let len = out.len();
    let mut p: usize = 0;
    while p < len && str_less(out[p].0.as_str(), key.as_str())
        invariant
            len == out.len(),
            out@ == old(out)@,
            old_v == keyed_view(out@),
            k == key@,
            p <= len,
            forall|j: int| 0 <= j < p ==> str_lt(#[trigger] old_v[j].0, k),
        decreases len - p,
    {
        p = p + 1;
    }
    // Every key from `p` on is at least `key`.
    proof {
        if p < len {
            lemma_str_lt_total(old_v[p as int].0, k);
        }
        assert forall|j: int| p < j < len implies str_lt(k, #[trigger] old_v[j].0) by {
            assert(str_lt(old_v[p as int].0, old_v[j].0));
            if old_v[p as int].0 != k {
                lemma_str_lt_transitive(k, old_v[p as int].0, old_v[j].0);
            }
        }
    }
    if p < len && out[p].0 == key {
        proof {
            assert(entries_map(old_v).dom().contains(k));
        }
        out.set(p, (key, value));
        proof {
            let nv = keyed_view(out@);
            assert(nv =~= old_v.update(p as int, (k, v)));
            assert(keys_sorted(nv)) by {
                assert forall|a: int, b: int| 0 <= a < b < nv.len() implies str_lt(#[trigger] nv[a].0, #[trigger] nv[b].0) by {
                    assert(nv[a].0 == old_v[a].0);
                    assert(nv[b].0 == old_v[b].0);
                }
            }
            lemma_sorted_distinct(nv);
            lemma_entries_map_distinct(nv);
            assert(entries_map(nv) =~= entries_map(old_v).insert(k, v)) by {
                assert forall|x: Seq<char>| #[trigger] entries_map(nv).dom().contains(x) <==> entries_map(old_v).insert(k, v).dom().contains(x) by {
                    if has_key(nv, x) {
                        let a = choose|a: int| 0 <= a < nv.len() && #[trigger] nv[a].0 == x;
                        assert(old_v[a].0 == x);
                    }
                    if has_key(old_v, x) {
                        let a = choose|a: int| 0 <= a < old_v.len() && #[trigger] old_v[a].0 == x;
                        assert(nv[a].0 == x);
                    }
                }
                assert forall|x: Seq<char>| #[trigger] entries_map(nv).dom().contains(x) implies entries_map(nv)[x] == entries_map(old_v).insert(k, v)[x] by {
                    let a = choose|a: int| 0 <= a < nv.len() && #[trigger] nv[a].0 == x;
                    assert(entries_map(nv)[nv[a].0] == nv[a].1);
                    if a != p {
                        assert(old_v[a] == nv[a]);
                        assert(entries_map(old_v)[old_v[a].0] == old_v[a].1);
                    }
                }
            }
        }
        true
    } else {
        proof {
            if has_key(old_v, k) {
                let a = choose|a: int| 0 <= a < old_v.len() && #[trigger] old_v[a].0 == k;
                if a < p {
                    lemma_str_lt_irreflexive(k);
                } else if a > p {
                    lemma_str_lt_irreflexive(k);
                }
            }
            assert(!entries_map(old_v).dom().contains(k));
        }
        out.insert(p, (key, value));
        proof {
            let nv = keyed_view(out@);
            assert(nv =~= old_v.insert(p as int, (k, v)));
            assert(keys_sorted(nv)) by {
                assert forall|a: int, b: int| 0 <= a < b < nv.len() implies str_lt(#[trigger] nv[a].0, #[trigger] nv[b].0) by {
                    if b < p {
                        assert(nv[a] == old_v[a] && nv[b] == old_v[b]);
                    } else if b == p {
                        assert(nv[a] == old_v[a]);
                    } else if a < p {
                        assert(nv[a] == old_v[a] && nv[b] == old_v[b - 1]);
                        assert(str_lt(old_v[a].0, k));
                        if b - 1 > p {
                            lemma_str_lt_transitive(old_v[a].0, k, old_v[b - 1].0);
                        } else {
                            if old_v[p as int].0 != k {
                                lemma_str_lt_transitive(old_v[a].0, k, old_v[b - 1].0);
                            }
                        }
                    } else if a == p {
                        assert(nv[b] == old_v[b - 1]);
                        if b - 1 == p {
                            assert(old_v[p as int].0 != k);
                        }
                    } else {
                        assert(nv[a] == old_v[a - 1] && nv[b] == old_v[b - 1]);
                    }
                }
            }
            lemma_sorted_distinct(nv);
            lemma_entries_map_distinct(nv);
            assert(entries_map(nv) =~= entries_map(old_v).insert(k, v)) by {
                assert forall|x: Seq<char>| #[trigger] entries_map(nv).dom().contains(x) <==> entries_map(old_v).insert(k, v).dom().contains(x) by {
                    if has_key(nv, x) {
                        let a = choose|a: int| 0 <= a < nv.len() && #[trigger] nv[a].0 == x;
                        if a < p {
                            assert(old_v[a].0 == x);
                        } else if a > p {
                            assert(old_v[a - 1].0 == x);
                        }
                    }
                    if has_key(old_v, x) {
                        let a = choose|a: int| 0 <= a < old_v.len() && #[trigger] old_v[a].0 == x;
                        if a < p {
                            assert(nv[a].0 == x);
                        } else {
                            assert(nv[a + 1].0 == x);
                        }
                    }
                    if x == k {
                        assert(nv[p as int].0 == x);
                    }
                }
                assert forall|x: Seq<char>| #[trigger] entries_map(nv).dom().contains(x) implies entries_map(nv)[x] == entries_map(old_v).insert(k, v)[x] by {
                    let a = choose|a: int| 0 <= a < nv.len() && #[trigger] nv[a].0 == x;
                    assert(entries_map(nv)[nv[a].0] == nv[a].1);
                    if a < p {
                        assert(old_v[a] == nv[a]);
                        assert(entries_map(old_v)[old_v[a].0] == old_v[a].1);
                    } else if a > p {
                        assert(old_v[a - 1] == nv[a]);
                        assert(entries_map(old_v)[old_v[a - 1].0] == old_v[a - 1].1);
                    }
                }
            }
        }
        false
    }
}

} // verus!
