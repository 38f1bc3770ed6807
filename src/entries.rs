//! The entries of a store: a vector of key-value pairs with distinct keys,
//! seen as a map from the keys' text to the values.
use vstd::prelude::*;

verus! {

pub open spec fn has_key<V>(s: Seq<(String, V)>, k: Seq<char>) -> bool {
    exists|i: int| 0 <= i < s.len() && #[trigger] s[i].0@ == k
}

pub open spec fn distinct_keys<V>(s: Seq<(String, V)>) -> bool {
    forall|i: int, j: int|
        0 <= i < s.len() && 0 <= j < s.len() && i != j ==> #[trigger] s[i].0@ != #[trigger] s[j].0@
}

/// The position of an entry with key `k`.
pub open spec fn position_of<V>(s: Seq<(String, V)>, k: Seq<char>) -> int {
    choose|i: int| 0 <= i < s.len() && #[trigger] s[i].0@ == k
}

/// The map that a vector of entries with distinct keys stands for.
pub open spec fn entries_map<V>(s: Seq<(String, V)>) -> Map<Seq<char>, V> {
    Map::new(|k: Seq<char>| has_key(s, k), |k: Seq<char>| s[position_of(s, k)].1)
}

pub proof fn lemma_entry_in_map<V>(s: Seq<(String, V)>, i: int)
    requires
        distinct_keys(s),
        0 <= i < s.len(),
    ensures
        entries_map(s).contains_key(s[i].0@),
        entries_map(s)[s[i].0@] == s[i].1,
{
    assert(has_key(s, s[i].0@));
    let j = position_of(s, s[i].0@);
    assert(s[j].0@ == s[i].0@);
}

pub proof fn lemma_remove_entry<V>(s: Seq<(String, V)>, i: int)
    requires
        distinct_keys(s),
        0 <= i < s.len(),
    ensures
        distinct_keys(s.remove(i)),
        entries_map(s.remove(i)) == entries_map(s).remove(s[i].0@),
{
    let t = s.remove(i);
    let k = s[i].0@;
    assert forall|a: int, b: int|
        0 <= a < t.len() && 0 <= b < t.len() && a != b implies #[trigger] t[a].0@ != #[trigger] t[b].0@ by {
        let a2 = if a < i { a } else { a + 1 };
        let b2 = if b < i { b } else { b + 1 };
        assert(t[a] == s[a2]);
        assert(t[b] == s[b2]);
    }
    assert forall|key: Seq<char>| #[trigger] entries_map(t).contains_key(key) <==> entries_map(s).remove(k).contains_key(key) by {
        if has_key(t, key) {
            let a = choose|a: int| 0 <= a < t.len() && #[trigger] t[a].0@ == key;
            let a2 = if a < i { a } else { a + 1 };
            assert(s[a2].0@ == key);
            assert(has_key(s, key));
        }
        if has_key(s, key) && key != k {
            let a = choose|a: int| 0 <= a < s.len() && #[trigger] s[a].0@ == key;
            let a2 = if a < i { a } else { a - 1 };
            assert(t[a2].0@ == key);
        }
    }
    assert forall|key: Seq<char>| #[trigger] entries_map(t).contains_key(key) implies entries_map(t)[key] == entries_map(s).remove(k)[key] by {
        let a = position_of(t, key);
        lemma_entry_in_map(t, a);
        let a2 = if a < i { a } else { a + 1 };
        assert(t[a] == s[a2]);
        lemma_entry_in_map(s, a2);
    }
    assert(entries_map(t) =~= entries_map(s).remove(k));
}

pub proof fn lemma_push_entry<V>(s: Seq<(String, V)>, k: String, v: V)
    requires
        distinct_keys(s),
        !has_key(s, k@),
    ensures
        distinct_keys(s.push((k, v))),
        entries_map(s.push((k, v))) == entries_map(s).insert(k@, v),
{
    let t = s.push((k, v));
    assert forall|a: int, b: int|
        0 <= a < t.len() && 0 <= b < t.len() && a != b implies #[trigger] t[a].0@ != #[trigger] t[b].0@ by {
        if a < s.len() {
            assert(t[a] == s[a]);
        }
        if b < s.len() {
            assert(t[b] == s[b]);
        }
    }
    assert forall|key: Seq<char>| #[trigger] entries_map(t).contains_key(key) <==> entries_map(s).insert(k@, v).contains_key(key) by {
        if has_key(t, key) {
            let a = choose|a: int| 0 <= a < t.len() && #[trigger] t[a].0@ == key;
            if a < s.len() {
                assert(t[a] == s[a]);
                assert(has_key(s, key));
            }
        }
        if has_key(s, key) {
            let a = choose|a: int| 0 <= a < s.len() && #[trigger] s[a].0@ == key;
            assert(t[a] == s[a]);
            assert(has_key(t, key));
        }
        if key == k@ {
            assert(t[s.len() as int].0@ == key);
        }
    }
    assert forall|key: Seq<char>| #[trigger] entries_map(t).contains_key(key) implies entries_map(t)[key] == entries_map(s).insert(k@, v)[key] by {
        let a = position_of(t, key);
        lemma_entry_in_map(t, a);
        if a < s.len() {
            assert(t[a] == s[a]);
            lemma_entry_in_map(s, a);
        }
    }
    assert(entries_map(t) =~= entries_map(s).insert(k@, v));
}

/// Position of the entry whose key equals `key`, if any.
pub fn find_entry<V>(entries: &Vec<(String, V)>, key: &String) -> (r: Option<usize>)
    ensures
        r is None ==> !has_key(entries@, key@),
        r matches Some(i) ==> i < entries@.len() && entries@[i as int].0@ == key@,
{
    let n = entries.len();
    let mut i: usize = 0;
    while i < n
        invariant
            n == entries@.len(),
            i <= n,
            forall|j: int| 0 <= j < i ==> #[trigger] entries@[j].0@ != key@,
        decreases n - i,
    {
        if entries[i].0 == *key {
            return Some(i);
        }
        i = i + 1;
    }
    None
}

/// Inserts or replaces the value under `key`.
pub fn upsert<V>(entries: &mut Vec<(String, V)>, key: String, value: V)
    requires
        distinct_keys(old(entries)@),
    ensures
        distinct_keys(final(entries)@),
        entries_map(final(entries)@) == entries_map(old(entries)@).insert(key@, value),
{
    match find_entry(entries, &key) {
        Some(i) => {
            proof {
                lemma_remove_entry(entries@, i as int);
            }
            entries.remove(i);
            proof {
                let s = entries@;
                assert forall|j: int| 0 <= j < s.len() implies #[trigger] s[j].0@ != key@ by {
                    lemma_entry_in_map(s, j);
                }
                lemma_push_entry(entries@, key, value);
                assert(entries_map(old(entries)@).remove(key@).insert(key@, value)
                    =~= entries_map(old(entries)@).insert(key@, value));
            }
            entries.push((key, value));
        },
        None => {
            proof {
                lemma_push_entry(entries@, key, value);
            }
            entries.push((key, value));
        },
    }
}

} // verus!
