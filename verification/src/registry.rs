//! Keyed tables held as sequences of (key, value) entries with distinct
//! keys, and the map that such a sequence stands for.
use vstd::prelude::*;

verus! {

/// No two entries share a key.
pub open spec fn unique_keys<V>(s: Seq<(Seq<char>, V)>) -> bool {
    forall|i: int, j: int| 0 <= i < s.len() && 0 <= j < s.len() && i != j ==> s[i].0 != s[j].0
}

/// Some entry has key `k`.
pub open spec fn has_key<V>(s: Seq<(Seq<char>, V)>, k: Seq<char>) -> bool {
    exists|i: int| 0 <= i < s.len() && s[i].0 == k
}

/// The map from each key to the value of its entry.
pub open spec fn keyed_map<V>(s: Seq<(Seq<char>, V)>) -> Map<Seq<char>, V> {
    Map::new(
        |k: Seq<char>| has_key(s, k),
        |k: Seq<char>| s[choose|i: int| 0 <= i < s.len() && s[i].0 == k].1,
    )
}

/// Each entry is what the map holds under its key.
pub proof fn lemma_keyed_map_entry<V>(s: Seq<(Seq<char>, V)>, i: int)
    requires
        unique_keys(s),
        0 <= i < s.len(),
    ensures
        keyed_map(s).contains_key(s[i].0),
        keyed_map(s)[s[i].0] == s[i].1,
{
    let k = s[i].0;
    assert(has_key(s, k));
    let c = choose|c: int| 0 <= c < s.len() && s[c].0 == k;
    assert(c == i);
}

/// Appending an entry with a new key inserts it into the map.
pub proof fn lemma_keyed_map_push<V>(s: Seq<(Seq<char>, V)>, k: Seq<char>, v: V)
    requires
        unique_keys(s),
        forall|i: int| 0 <= i < s.len() ==> s[i].0 != k,
    ensures
        unique_keys(s.push((k, v))),
        keyed_map(s.push((k, v))) == keyed_map(s).insert(k, v),
{
    let t = s.push((k, v));
    assert forall|i: int, j: int|
        0 <= i < t.len() && 0 <= j < t.len() && i != j implies t[i].0 != t[j].0 by {
        if i < s.len() && j < s.len() {
            assert(t[i] == s[i] && t[j] == s[j]);
        }
    }
    lemma_keyed_map_entry(t, s.len() as int);
    assert forall|q: Seq<char>| #[trigger] keyed_map(t).contains_key(q) <==> keyed_map(
        s,
    ).insert(k, v).contains_key(q) by {
        if has_key(s, q) {
            let i = choose|i: int| 0 <= i < s.len() && s[i].0 == q;
            assert(t[i] == s[i]);
        }
        if has_key(t, q) && q != k {
            let i = choose|i: int| 0 <= i < t.len() && t[i].0 == q;
            assert(i < s.len());
            assert(s[i] == t[i]);
        }
    }
    assert forall|q: Seq<char>| #[trigger] keyed_map(t).contains_key(q) implies keyed_map(t)[q]
        == keyed_map(s).insert(k, v)[q] by {
        if q != k {
            let i = choose|i: int| 0 <= i < s.len() && s[i].0 == q;
            lemma_keyed_map_entry(s, i);
            assert(t[i] == s[i]);
            lemma_keyed_map_entry(t, i);
        }
    }
    assert(keyed_map(t) =~= keyed_map(s).insert(k, v));
}

/// Replacing the value of an entry updates the map under its key.
pub proof fn lemma_keyed_map_update<V>(s: Seq<(Seq<char>, V)>, i: int, v: V)
    requires
        unique_keys(s),
        0 <= i < s.len(),
    ensures
        unique_keys(s.update(i, (s[i].0, v))),
        keyed_map(s.update(i, (s[i].0, v))) == keyed_map(s).insert(s[i].0, v),
{
    let k = s[i].0;
    let t = s.update(i, (k, v));
    assert forall|a: int, b: int|
        0 <= a < t.len() && 0 <= b < t.len() && a != b implies t[a].0 != t[b].0 by {
        assert(t[a].0 == s[a].0 && t[b].0 == s[b].0);
    }
    assert forall|q: Seq<char>| #[trigger] keyed_map(t).contains_key(q) <==> keyed_map(
        s,
    ).insert(k, v).contains_key(q) by {
        if has_key(s, q) {
            let j = choose|j: int| 0 <= j < s.len() && s[j].0 == q;
            assert(t[j].0 == q);
        }
        if has_key(t, q) {
            let j = choose|j: int| 0 <= j < t.len() && t[j].0 == q;
            assert(s[j].0 == q);
        }
    }
    assert forall|q: Seq<char>| #[trigger] keyed_map(t).contains_key(q) implies keyed_map(t)[q]
        == keyed_map(s).insert(k, v)[q] by {
        let j = choose|j: int| 0 <= j < t.len() && t[j].0 == q;
        lemma_keyed_map_entry(t, j);
        if j != i {
            assert(t[j] == s[j]);
            lemma_keyed_map_entry(s, j);
        }
    }
    assert(keyed_map(t) =~= keyed_map(s).insert(k, v));
}

/// Removing an entry removes its key from the map.
pub proof fn lemma_keyed_map_remove<V>(s: Seq<(Seq<char>, V)>, i: int)
    requires
        unique_keys(s),
        0 <= i < s.len(),
    ensures
        unique_keys(s.remove(i)),
        keyed_map(s.remove(i)) == keyed_map(s).remove(s[i].0),
{
    let k = s[i].0;
    let t = s.remove(i);
    assert forall|a: int| 0 <= a < t.len() implies #[trigger] t[a] == s[if a < i {
        a
    } else {
        a + 1
    }] by {}
    assert forall|a: int, b: int|
        0 <= a < t.len() && 0 <= b < t.len() && a != b implies t[a].0 != t[b].0 by {
        let a2 = if a < i {
            a
        } else {
            a + 1
        };
        let b2 = if b < i {
            b
        } else {
            b + 1
        };
        assert(t[a] == s[a2] && t[b] == s[b2]);
    }
    assert forall|q: Seq<char>| #[trigger] keyed_map(t).contains_key(q) <==> keyed_map(
        s,
    ).remove(k).contains_key(q) by {
        if has_key(s, q) && q != k {
            let j = choose|j: int| 0 <= j < s.len() && s[j].0 == q;
            assert(j != i);
            let j2 = if j < i {
                j
            } else {
                j - 1
            };
            assert(t[j2] == s[j]);
        }
        if has_key(t, q) {
            let j = choose|j: int| 0 <= j < t.len() && t[j].0 == q;
            let j2 = if j < i {
                j
            } else {
                j + 1
            };
            assert(t[j] == s[j2]);
            assert(j2 != i);
        }
    }
    assert forall|q: Seq<char>| #[trigger] keyed_map(t).contains_key(q) implies keyed_map(t)[q]
        == keyed_map(s).remove(k)[q] by {
        let j = choose|j: int| 0 <= j < t.len() && t[j].0 == q;
        let j2 = if j < i {
            j
        } else {
            j + 1
        };
        assert(t[j] == s[j2]);
        lemma_keyed_map_entry(t, j);
        lemma_keyed_map_entry(s, j2);
    }
    assert(keyed_map(t) =~= keyed_map(s).remove(k));
}


/// A sequence with distinct keys has as many entries as its map has keys.
pub proof fn lemma_keyed_map_len<V>(s: Seq<(Seq<char>, V)>)
    requires
        unique_keys(s),
    ensures
        keyed_map(s).dom().finite(),
        keyed_map(s).dom().len() == s.len(),
    decreases s.len(),
{
    if s.len() == 0 {
        assert(keyed_map(s).dom() =~= Set::<Seq<char>>::empty());
    } else {
        let t = s.drop_last();
        let last = s.last();
        assert forall|i: int, j: int|
            0 <= i < t.len() && 0 <= j < t.len() && i != j implies t[i].0 != t[j].0 by {
            assert(t[i] == s[i] && t[j] == s[j]);
        }
        assert forall|i: int| 0 <= i < t.len() implies t[i].0 != last.0 by {
            assert(t[i] == s[i]);
        }
        lemma_keyed_map_len(t);
        lemma_keyed_map_push(t, last.0, last.1);
        assert(t.push((last.0, last.1)) =~= s);
        assert(!keyed_map(t).dom().contains(last.0));
        assert(keyed_map(s).dom() =~= keyed_map(t).dom().insert(last.0));
    }
}

} // verus!
