//! Finding an entry of a list, and picking the best.

use vstd::prelude::*;

verus! {

/// Whether the entry at `i` has the largest key of all entries that have one, and each later
/// entry a smaller key or none.
pub open spec fn is_last_largest(keys: Seq<Option<u32>>, i: int) -> bool {
    &&& 0 <= i < keys.len()
    &&& keys[i] is Some
    &&& forall|j: int|
        0 <= j < keys.len() && (#[trigger] keys[j]) is Some ==> if j > i {
            keys[j]->0 < keys[i]->0
        } else {
            keys[j]->0 <= keys[i]->0
        }
}

/// Whether some entry has a key.
pub open spec fn has_key(keys: Seq<Option<u32>>) -> bool {
    exists|j: int| 0 <= j < keys.len() && (#[trigger] keys[j]) is Some
}

/// The last of the entries with the largest key, if any entry has a key.
pub open spec fn last_largest(keys: Seq<Option<u32>>) -> Option<int> {
    if has_key(keys) {
        Some(choose|i: int| is_last_largest(keys, i))
    } else {
        None
    }
}

/// At most one entry is the last of those with the largest key.
pub proof fn lemma_last_largest_is(keys: Seq<Option<u32>>, i: int)
    requires
        is_last_largest(keys, i),
    ensures
        last_largest(keys) == Some(i),
{
    assert(keys[i] is Some);
    let k = choose|k: int| is_last_largest(keys, k);
    assert(is_last_largest(keys, k));
    assert(keys[k] is Some);
}

/// Where some entry has a key, one of the entries is the last of those with the largest key.
pub proof fn lemma_last_largest_exists(keys: Seq<Option<u32>>)
    requires
        has_key(keys),
    ensures
        last_largest(keys) is Some,
        is_last_largest(keys, last_largest(keys)->0),
    decreases keys.len(),
{
    let rest = keys.drop_last();
    let end = keys.len() - 1;
    if has_key(rest) {
        lemma_last_largest_exists(rest);
        let k = last_largest(rest)->0;
        let best = if keys[end] is Some && keys[end]->0 >= keys[k]->0 {
            end
        } else {
            k
        };
        assert forall|j: int| 0 <= j < keys.len() && (#[trigger] keys[j]) is Some implies if j
            > best {
            keys[j]->0 < keys[best]->0
        } else {
            keys[j]->0 <= keys[best]->0
        } by {
            if j < end {
                assert(rest[j] is Some);
            }
        }
        assert(rest[k] is Some);
        assert(is_last_largest(keys, best));
        lemma_last_largest_is(keys, best);
    } else {
        assert forall|j: int| 0 <= j < end implies !((#[trigger] keys[j]) is Some) by {
            assert(rest[j] == keys[j]);
        }
        assert(is_last_largest(keys, end));
        lemma_last_largest_is(keys, end);
    }
}

/// Finds the last of the entries with the largest key.
pub fn find_last_largest(keys: &Vec<Option<u32>>) -> (best: Option<usize>)
    ensures
        match best {
            Some(i) => last_largest(keys@) == Some(i as int) && i < keys@.len(),
            None => last_largest(keys@) is None,
        },
{
    let mut best: Option<(usize, u32)> = None;
    let mut i: usize = 0;
    while i < keys.len()
        invariant
            i <= keys@.len(),
            match best {
                Some(found) => found.0 < i && keys@[found.0 as int] == Some(found.1)
                    && is_last_largest(keys@.take(i as int), found.0 as int),
                None => !has_key(keys@.take(i as int)),
            },
        decreases keys@.len() - i,
    {
        let ghost before = keys@.take(i as int);
        let ghost after = keys@.take(i + 1);
        assert(forall|j: int| 0 <= j < i ==> before[j] == after[j]);
        assert(after[i as int] == keys@[i as int]);
        match keys[i] {
            Some(key) => {
                let take_it = match best {
                    Some((_, largest)) => key >= largest,
                    None => true,
                };
                if take_it {
                    proof {
                        assert forall|j: int|
                            0 <= j < after.len() && (#[trigger] after[j]) is Some implies if j > i {
                            after[j]->0 < key
                        } else {
                            after[j]->0 <= key
                        } by {
                            if j < i {
                                assert(before[j] is Some);
                            }
                        }
                    }
                    best = Some((i, key));
                } else {
                    proof {
                        let at = (best->0).0 as int;
                        assert forall|j: int|
                            0 <= j < after.len() && (#[trigger] after[j]) is Some implies if j
                            > at {
                            after[j]->0 < after[at]->0
                        } else {
                            after[j]->0 <= after[at]->0
                        } by {
                            if j < i {
                                assert(before[j] is Some);
                            }
                        }
                        assert(is_last_largest(after, at));
                    }
                }
            },
            None => {
                proof {
                    if best is Some {
                        let at = (best->0).0 as int;
                        assert forall|j: int|
                            0 <= j < after.len() && (#[trigger] after[j]) is Some implies if j
                            > at {
                            after[j]->0 < after[at]->0
                        } else {
                            after[j]->0 <= after[at]->0
                        } by {
                            assert(before[j] is Some);
                        }
                        assert(is_last_largest(after, at));
                    } else {
                        assert forall|j: int| 0 <= j < after.len() implies !(
                        (#[trigger] after[j]) is Some) by {
                            if j < i {
                                assert(!(before[j] is Some));
                            }
                        }
                    }
                }
            },
        }
        i += 1;
    }
    assert(keys@.take(keys@.len() as int) =~= keys@);
    match best {
        Some((at, _)) => {
            proof {
                lemma_last_largest_is(keys@, at as int);
            }
            Some(at)
        },
        None => None,
    }
}

/// Where `wanted` stands first in a list.
pub open spec fn first_index(list: Seq<u32>, wanted: u32) -> Option<int>
    decreases list.len(),
{
    if list.len() == 0 {
        None
    } else if first_index(list.drop_last(), wanted) is Some {
        first_index(list.drop_last(), wanted)
    } else if list.last() == wanted {
        Some(list.len() - 1)
    } else {
        None
    }
}

proof fn lemma_first_index_stays(list: Seq<u32>, wanted: u32, n: int)
    requires
        0 <= n <= list.len(),
        first_index(list.take(n), wanted) is Some,
    ensures
        first_index(list, wanted) == first_index(list.take(n), wanted),
    decreases list.len() - n,
{
    if n == list.len() {
        assert(list.take(n) =~= list);
    } else {
        assert(list.take(n + 1).drop_last() =~= list.take(n));
        lemma_first_index_stays(list, wanted, n + 1);
    }
}

/// Where an entry is found it is the one looked for, and none in front of it is; where none is
/// found there is none.
pub proof fn lemma_first_index_is_first(list: Seq<u32>, wanted: u32)
    ensures
        match first_index(list, wanted) {
            Some(i) => 0 <= i < list.len() && list[i] == wanted && forall|j: int|
                0 <= j < i ==> list[j] != wanted,
            None => !list.contains(wanted),
        },
    decreases list.len(),
{
    if list.len() > 0 {
        let rest = list.drop_last();
        lemma_first_index_is_first(rest, wanted);
        if first_index(rest, wanted) is Some {
            let i = first_index(rest, wanted)->0;
            assert(list[i] == rest[i]);
            assert forall|j: int| 0 <= j < i implies list[j] != wanted by {
                assert(list[j] == rest[j]);
            }
        } else {
            assert forall|j: int| 0 <= j < rest.len() implies list[j] != wanted by {
                assert(rest[j] == list[j]);
                if list[j] == wanted {
                    assert(rest.contains(wanted));
                }
            }
        }
    }
}

/// Finds where `wanted` stands first in a list.
pub fn find_first(list: &Vec<u32>, wanted: u32) -> (found: Option<usize>)
    ensures
        match found {
            Some(i) => first_index(list@, wanted) == Some(i as int) && i < list@.len(),
            None => first_index(list@, wanted) is None,
        },
{
    let mut i: usize = 0;
    assert(list@.take(0) =~= seq![]);
    while i < list.len()
        invariant
            i <= list@.len(),
            first_index(list@.take(i as int), wanted) is None,
        decreases list@.len() - i,
    {
        proof {
            assert(list@.take(i + 1).drop_last() =~= list@.take(i as int));
        }
        if list[i] == wanted {
            proof {
                lemma_first_index_stays(list@, wanted, i + 1);
            }
            return Some(i);
        }
        i += 1;
    }
    assert(list@.take(i as int) =~= list@);
    None
}

} // verus!
