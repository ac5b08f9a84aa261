//! Counts keyed by text, kept in the order in which their keys first appeared: the per-day and
//! per-model tallies of the usage statistics. Counters add with two's-complement wrapping, as
//! `+=` on `i64` does in a release build.
use vstd::prelude::*;
use vstd::pervasive::VecAdditionalExecFns;

verus! {

/// Messages, sessions and tool calls of one day.
#[derive(Clone, Copy, Debug, PartialEq, Eq, Structural)]
pub struct DayCounts {
    pub messages: i64,
    pub sessions: i64,
    pub tools: i64,
}

/// A day with nothing counted.
pub open spec fn no_counts() -> DayCounts {
    DayCounts { messages: 0, sessions: 0, tools: 0 }
}

/// The position of the first occurrence of `k` in `keys`.
pub open spec fn key_index(keys: Seq<Seq<char>>, k: Seq<char>) -> Option<int>
    decreases keys.len(),
{
    if keys.len() == 0 {
        None
    } else {
        match key_index(keys.drop_last(), k) {
            Some(i) => Some(i),
            None => if keys.last() == k {
                Some(keys.len() - 1)
            } else {
                None
            },
        }
    }
}

/// The keys of a tally.
pub open spec fn keys_of<V>(s: Seq<(Seq<char>, V)>) -> Seq<Seq<char>> {
    s.map_values(|p: (Seq<char>, V)| p.0)
}

/// The keys of a tally held in strings.
pub open spec fn string_keys<V>(e: Seq<(String, V)>) -> Seq<Seq<char>> {
    e.map_values(|p: (String, V)| p.0@)
}

/// A tally held in strings, with values that need no view.
pub open spec fn tally_view<V>(e: Seq<(String, V)>) -> Seq<(Seq<char>, V)> {
    e.map_values(|p: (String, V)| (p.0@, p.1))
}

/// No key occurs twice.
pub open spec fn keys_unique<V>(s: Seq<(Seq<char>, V)>) -> bool {
    forall|i: int, j: int| 0 <= i < j < s.len() ==> (#[trigger] s[i]).0 != (#[trigger] s[j]).0
}

/// The value kept for `k`.
pub open spec fn value_of<V>(s: Seq<(Seq<char>, V)>, k: Seq<char>) -> Option<V> {
    match key_index(keys_of(s), k) {
        Some(i) => Some(s[i].1),
        None => None,
    }
}

/// `s` with `v` kept for `k`: in place when `k` is there, appended otherwise.
pub open spec fn upsert<V>(s: Seq<(Seq<char>, V)>, k: Seq<char>, v: V) -> Seq<(Seq<char>, V)> {
    match key_index(keys_of(s), k) {
        Some(i) => s.update(i, (k, v)),
        None => s.push((k, v)),
    }
}

/// `*map.entry(k).or_default() += d`.
pub open spec fn add_count(s: Seq<(Seq<char>, i64)>, k: Seq<char>, d: i64) -> Seq<(Seq<char>, i64)> {
    let current = match value_of(s, k) {
        Some(v) => v,
        None => 0,
    };
    upsert(s, k, current.wrapping_add(d))
}

/// The counts of day `k`, nothing counted when it is not there.
pub open spec fn day_of(s: Seq<(Seq<char>, DayCounts)>, k: Seq<char>) -> DayCounts {
    match value_of(s, k) {
        Some(v) => v,
        None => no_counts(),
    }
}

pub proof fn lemma_key_index(keys: Seq<Seq<char>>, k: Seq<char>)
    ensures
        match key_index(keys, k) {
            Some(i) => 0 <= i < keys.len() && keys[i] == k && forall|j: int|
                0 <= j < i ==> keys[j] != k,
            None => forall|j: int| 0 <= j < keys.len() ==> keys[j] != k,
        },
    decreases keys.len(),
{
    if keys.len() > 0 {
        let d = keys.drop_last();
        lemma_key_index(d, k);
        assert forall|j: int| 0 <= j < d.len() implies #[trigger] d[j] == keys[j] by {}
        match key_index(d, k) {
            Some(i) => {
                assert forall|j: int| 0 <= j < i implies keys[j] != k by {
                    assert(d[j] != k);
                }
            },
            None => {
                assert forall|j: int| 0 <= j < d.len() implies keys[j] != k by {
                    assert(d[j] != k);
                }
            },
        }
    }
}

pub proof fn lemma_upsert<V>(s: Seq<(Seq<char>, V)>, k: Seq<char>, v: V)
    ensures
        keys_unique(s) ==> keys_unique(upsert(s, k, v)),
        value_of(upsert(s, k, v), k) == Some(v),
        forall|k2: Seq<char>| k2 != k ==> value_of(upsert(s, k, v), k2) == value_of(s, k2),
        keys_of(s).len() <= keys_of(upsert(s, k, v)).len(),
{
    lemma_key_index(keys_of(s), k);
    let t = upsert(s, k, v);
    assert(keys_of(t).len() == t.len());
    lemma_key_index(keys_of(t), k);
    assert forall|j: int| 0 <= j < s.len() implies #[trigger] keys_of(s)[j] == s[j].0 by {}
    assert forall|j: int| 0 <= j < t.len() implies #[trigger] keys_of(t)[j] == t[j].0 by {}
    assert forall|k2: Seq<char>| k2 != k implies value_of(t, k2) == value_of(s, k2) by {
        lemma_key_index(keys_of(s), k2);
        lemma_key_index(keys_of(t), k2);
        match key_index(keys_of(s), k2) {
            Some(i) => {
                assert(keys_of(t)[i] == k2);
                match key_index(keys_of(t), k2) {
                    Some(j) => {
                        if j < i {
                            assert(keys_of(s)[j] == k2);
                        }
                        if i < j {
                            assert(keys_of(t)[i] == k2);
                        }
                    },
                    None => {},
                }
            },
            None => {
                match key_index(keys_of(t), k2) {
                    Some(j) => {
                        assert(keys_of(s)[j] == k2);
                    },
                    None => {},
                }
            },
        }
    }
    match key_index(keys_of(s), k) {
        Some(i) => {
            assert(keys_of(t)[i] == k);
            match key_index(keys_of(t), k) {
                Some(j) => {
                    if j < i {
                        assert(keys_of(s)[j] == k);
                    }
                    if j > i {
                        assert(keys_of(t)[i] == k);
                    }
                    assert(j == i);
                },
                None => {
                    assert(keys_of(t)[i] != k);
                },
            }
        },
        None => {
            assert(keys_of(t)[s.len() as int] == k);
            match key_index(keys_of(t), k) {
                Some(j) => {
                    if j < s.len() {
                        assert(keys_of(s)[j] == k);
                    }
                    assert(j == s.len());
                },
                None => {
                    assert(keys_of(t)[s.len() as int] != k);
                },
            }
        },
    }
    if keys_unique(s) {
        assert forall|i: int, j: int| 0 <= i < j < t.len() implies (#[trigger] t[i]).0 != (
        #[trigger] t[j]).0 by {
            if j < s.len() {
                match key_index(keys_of(s), k) {
                    Some(x) => {
                        if i == x {
                            assert(keys_of(s)[j] == s[j].0);
                        } else if j == x {
                            assert(keys_of(s)[i] == s[i].0);
                        }
                    },
                    None => {},
                }
            } else {
                assert(keys_of(s)[i] == s[i].0);
            }
        }
    }
}

/// The first position of `key` among the keys of `entries`.
pub fn find_key<V>(entries: &Vec<(String, V)>, key: &String) -> (r: Option<usize>)
    ensures
        match r {
            Some(i) => key_index(string_keys(entries@), key@) == Some(i as int),
            None => key_index(string_keys(entries@), key@) is None,
        },
{
    let ghost ks = string_keys(entries@);
    let mut i: usize = 0;
    while i < entries.len()
        invariant
            0 <= i <= entries.len(),
            ks == string_keys(entries@),
            forall|j: int| 0 <= j < i ==> ks[j] != key@,
        decreases entries.len() - i,
    {
        if entries[i].0 == *key {
            proof {
                lemma_key_index(ks, key@);
                assert(ks[i as int] == key@);
                match key_index(ks, key@) {
                    Some(x) => {
                        if x > i {
                            assert(ks[i as int] != key@);
                        }
                    },
                    None => {},
                }
            }
            return Some(i);
        }
        i = i + 1;
    }
    proof {
        lemma_key_index(ks, key@);
    }
    None
}

proof fn lemma_keys_of_view<V>(e: Seq<(String, V)>)
    ensures
        keys_of(tally_view(e)) == string_keys(e),
{
    assert(keys_of(tally_view(e)) =~= string_keys(e));
}

/// The value kept for `key`.
pub fn get_value<V: Copy>(entries: &Vec<(String, V)>, key: &String) -> (r: Option<V>)
    ensures
        r == value_of(tally_view(entries@), key@),
{
    proof {
        lemma_keys_of_view(entries@);
        lemma_key_index(string_keys(entries@), key@);
    }
    match find_key(entries, key) {
        Some(i) => Some(entries[i].1),
        None => None,
    }
}

/// Keeps `value` for `key`: in place when the key is there, appended otherwise.
pub fn put_value<V>(entries: &mut Vec<(String, V)>, key: String, value: V)
    ensures
        tally_view(final(entries)@) == upsert(tally_view(old(entries)@), key@, value),
{
    proof {
        lemma_keys_of_view(entries@);
        lemma_key_index(string_keys(entries@), key@);
    }
    let ghost before = entries@;
    let ghost k = key@;
    match find_key(entries, &key) {
        Some(i) => {
            entries.set(i, (key, value));
            proof {
                assert(tally_view(entries@) =~= tally_view(before).update(i as int, (k, value)));
            }
        },
        None => {
            entries.push((key, value));
            proof {
                assert(tally_view(entries@) =~= tally_view(before).push((k, value)));
            }
        },
    }
}

/// `*map.entry(key).or_default() += delta`, wrapping.
pub fn add_to(entries: &mut Vec<(String, i64)>, key: String, delta: i64)
    ensures
        tally_view(final(entries)@) == add_count(tally_view(old(entries)@), key@, delta),
{
    let current = match get_value(entries, &key) {
        Some(v) => v,
        None => 0,
    };
    put_value(entries, key, current.wrapping_add(delta));
}

/// The counts of day `key`, nothing counted when it is not there.
pub fn day_counts(entries: &Vec<(String, DayCounts)>, key: &String) -> (r: DayCounts)
    ensures
        r == day_of(tally_view(entries@), key@),
{
    match get_value(entries, key) {
        Some(v) => v,
        None => DayCounts { messages: 0, sessions: 0, tools: 0 },
    }
}

} // verus!
