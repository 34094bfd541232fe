use vstd::prelude::*;

verus! {

/// The last index at which `k` occurs in `keys`, or -1.
pub open spec fn find_key<K>(keys: Seq<K>, k: K) -> int
    decreases keys.len(),
{
    if keys.len() == 0 {
        -1
    } else if keys.last() == k {
        keys.len() - 1
    } else {
        find_key(keys.drop_last(), k)
    }
}

pub proof fn lemma_find_key<K>(keys: Seq<K>, k: K)
    ensures
        -1 <= find_key(keys, k) < keys.len(),
        find_key(keys, k) >= 0 ==> keys[find_key(keys, k)] == k,
        find_key(keys, k) == -1 <==> (forall|i: int| 0 <= i < keys.len() ==> keys[i] != k),
        forall|i: int|
            0 <= i < keys.len() && keys.no_duplicates() && #[trigger] keys[i] == k ==> find_key(keys, k)
                == i,
    decreases keys.len(),
{
    if keys.len() > 0 {
        let d = keys.drop_last();
        lemma_find_key(d, k);
        assert forall|i: int|
            0 <= i < keys.len() && keys.no_duplicates() && #[trigger] keys[i] == k implies find_key(
            keys,
            k,
        ) == i by {
            if i < keys.len() - 1 {
                assert(d[i] == keys[i]);
                assert(d.no_duplicates());
            }
        }
        if find_key(keys, k) == -1 {
            assert forall|i: int| 0 <= i < keys.len() implies keys[i] != k by {
                if i < keys.len() - 1 {
                    assert(d[i] == keys[i]);
                }
            }
        }
    }
}

/// Appending a key that does not occur keeps the keys distinct.
pub proof fn lemma_push_fresh<K>(keys: Seq<K>, k: K)
    requires
        keys.no_duplicates(),
        forall|i: int| 0 <= i < keys.len() ==> keys[i] != k,
    ensures
        keys.push(k).no_duplicates(),
{
    let s = keys.push(k);
    assert forall|i: int, j: int| 0 <= i < s.len() && 0 <= j < s.len() && i != j implies s[i] != s[j] by {
        if i < keys.len() && j < keys.len() {
            assert(s[i] == keys[i] && s[j] == keys[j]);
        }
    }
}

/// Removing an element keeps the keys distinct.
pub proof fn lemma_remove_distinct<K>(keys: Seq<K>, i: int)
    requires
        keys.no_duplicates(),
        0 <= i < keys.len(),
    ensures
        keys.remove(i).no_duplicates(),
        forall|j: int| 0 <= j < keys.remove(i).len() ==> keys.remove(i)[j] != keys[i],
{
    let s = keys.remove(i);
    assert forall|a: int, b: int| 0 <= a < s.len() && 0 <= b < s.len() && a != b implies s[a] != s[b] by {
        let a2 = if a < i { a } else { a + 1 };
        let b2 = if b < i { b } else { b + 1 };
        assert(s[a] == keys[a2] && s[b] == keys[b2]);
    }
    assert forall|j: int| 0 <= j < s.len() implies s[j] != keys[i] by {
        let j2 = if j < i { j } else { j + 1 };
        assert(s[j] == keys[j2]);
    }
}

} // verus!
