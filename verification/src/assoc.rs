use vstd::prelude::*;
use crate::strutil::str_eq;

verus! {

/// The finite map that a sequence of `(key, index)` entries denotes when
/// the entries are inserted in order: a later entry with the same key
/// overwrites an earlier one, as insertion into a hash map would.
pub open spec fn assoc_map(entries: Seq<(String, usize)>) -> Map<Seq<char>, int>
    decreases entries.len(),
{
    if entries.len() == 0 {
        Map::empty()
    } else {
        assoc_map(entries.drop_last()).insert(entries.last().0@, entries.last().1 as int)
    }
}

/// Appending one entry inserts its binding into the denoted map.
pub proof fn lemma_assoc_map_push(entries: Seq<(String, usize)>, k: String, v: usize)
    ensures
        assoc_map(entries.push((k, v))) == assoc_map(entries).insert(k@, v as int),
{
    let pushed = entries.push((k, v));
    assert(pushed.drop_last() =~= entries);
    assert(pushed.last() == (k, v));
}

/// Every key of the denoted map is the key of some entry, and the value it
/// maps to is that of some entry with that key.
pub proof fn lemma_assoc_map_key_from_entry(entries: Seq<(String, usize)>, k: Seq<char>)
    requires
        assoc_map(entries).contains_key(k),
    ensures
        exists|j: int|
            0 <= j < entries.len() && (#[trigger] entries[j]).0@ == k && entries[j].1 as int
                == assoc_map(entries)[k],
    decreases entries.len(),
{
    if entries.len() > 0 {
        if entries.last().0@ == k {
            assert(entries[entries.len() - 1].0@ == k && entries[entries.len() - 1].1 as int
                == assoc_map(entries)[k]);
        } else {
            lemma_assoc_map_key_from_entry(entries.drop_last(), k);
            let j = choose|j: int|
                0 <= j < entries.drop_last().len() && (#[trigger] entries.drop_last()[j]).0@ == k
                    && entries.drop_last()[j].1 as int == assoc_map(entries.drop_last())[k];
            assert(entries[j].0@ == k && entries[j].1 as int == assoc_map(entries)[k]);
        }
    }
}

/// An entry's key is a key of the denoted map.
pub proof fn lemma_assoc_map_contains_entry_key(entries: Seq<(String, usize)>, j: int)
    requires
        0 <= j < entries.len(),
    ensures
        assoc_map(entries).contains_key(entries[j].0@),
    decreases entries.len(),
{
    if j == entries.len() - 1 {
        assert(entries.last() == entries[j]);
    } else {
        lemma_assoc_map_contains_entry_key(entries.drop_last(), j);
        assert(entries.drop_last()[j] == entries[j]);
    }
}

/// Exact lookup: the value the denoted map gives the key, if any.
pub fn assoc_lookup(entries: &Vec<(String, usize)>, key: &str) -> (r: Option<usize>)
    ensures
        match r {
            Some(v) => assoc_map(entries@).contains_key(key@) && assoc_map(entries@)[key@]
                == v as int,
            None => !assoc_map(entries@).contains_key(key@),
        },
{
    let n = entries.len();
    let mut result: Option<usize> = None;
    let mut j: usize = 0;
    while j < n
        invariant
            n == entries@.len(),
            j <= n,
            match result {
                Some(v) => assoc_map(entries@.take(j as int)).contains_key(key@) && assoc_map(
                    entries@.take(j as int),
                )[key@] == v as int,
                None => !assoc_map(entries@.take(j as int)).contains_key(key@),
            },
        decreases n - j,
    {
        proof {
            assert(entries@.take(j as int).push(entries@[j as int]) =~= entries@.take(j + 1));
            lemma_assoc_map_push(entries@.take(j as int), entries@[j as int].0, entries@[j as int].1);
        }
        if str_eq(entries[j].0.as_str(), key) {
            result = Some(entries[j].1);
        }
        j += 1;
    }
    proof {
        assert(entries@.take(n as int) =~= entries@);
    }
    result
}

} // verus!
