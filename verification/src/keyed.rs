//! Lists of entries under keys, as the property namespaces of an object and
//! the bindings of a scope frame keep them.
//!
//! To a contract such a list is a sequence of pairs, each a key's view and
//! a value's view. Two kinds are kept here. One holds its entries in the
//! order in which their keys first came. The other, under `u32` keys, holds
//! them in ascending order of the keys. Neither holds a key twice.

use vstd::prelude::*;

verus! {

/// A key of such a list. Keys are told apart by their views.
pub trait NamespaceKey: View + Sized {
    /// Whether two keys are the same key.
    fn same_key(&self, other: &Self) -> (same: bool)
        ensures
            same == (self@ == other@),
    ;
}

impl NamespaceKey for u32 {
    fn same_key(&self, other: &u32) -> (same: bool) {
        *self == *other
    }
}

impl NamespaceKey for String {
    fn same_key(&self, other: &String) -> (same: bool) {
        *self == *other
    }
}

/// What a list of entries is to a contract.
pub open spec fn views<K: View, V: View>(entries: Seq<(K, V)>) -> Seq<(K::V, V::V)> {
    Seq::new(entries.len(), |i: int| (entries[i].0@, entries[i].1@))
}

/// Whether some entry has the key.
pub open spec fn has_key<A, B>(entries: Seq<(A, B)>, key: A) -> bool {
    exists|i: int| 0 <= i < entries.len() && (#[trigger] entries[i]).0 == key
}

/// The place of an entry that has the key, where there is one.
pub open spec fn key_index<A, B>(entries: Seq<(A, B)>, key: A) -> int {
    choose|i: int| 0 <= i < entries.len() && (#[trigger] entries[i]).0 == key
}

/// No two entries have the same key.
pub open spec fn unique_keys<A, B>(entries: Seq<(A, B)>) -> bool {
    forall|i: int, j: int|
        0 <= i < j < entries.len() ==> (#[trigger] entries[i]).0 != (#[trigger] entries[j]).0
}

/// The value under the key.
pub open spec fn find<A, B>(entries: Seq<(A, B)>, key: A) -> Option<B> {
    if has_key(entries, key) {
        Some(entries[key_index(entries, key)].1)
    } else {
        None
    }
}

/// The list after the key was given the value: the entry that has the key
/// takes the value where it stands, a new key goes to the end.
pub open spec fn put<A, B>(entries: Seq<(A, B)>, key: A, value: B) -> Seq<(A, B)> {
    if has_key(entries, key) {
        entries.update(key_index(entries, key), (key, value))
    } else {
        entries.push((key, value))
    }
}

/// The list without the key: the other entries keep their order.
pub open spec fn take<A, B>(entries: Seq<(A, B)>, key: A) -> Seq<(A, B)> {
    if has_key(entries, key) {
        entries.remove(key_index(entries, key))
    } else {
        entries
    }
}

/// The entries stand in ascending order of their keys.
pub open spec fn ascending<B>(entries: Seq<(u32, B)>) -> bool {
    forall|i: int, j: int|
        0 <= i < j < entries.len() ==> (#[trigger] entries[i]).0 < (#[trigger] entries[j]).0
}

/// Whether a new key can go to place `p` of an ascending list: every
/// smaller key stands before `p`, every greater one from `p` on.
pub open spec fn is_slot<B>(entries: Seq<(u32, B)>, key: u32, p: int) -> bool {
    &&& 0 <= p <= entries.len()
    &&& forall|i: int| 0 <= i < p ==> (#[trigger] entries[i]).0 < key
    &&& forall|i: int| p <= i < entries.len() ==> key < (#[trigger] entries[i]).0
}

/// Where a new key goes in an ascending list.
pub open spec fn slot_of<B>(entries: Seq<(u32, B)>, key: u32) -> int {
    choose|p: int| is_slot(entries, key, p)
}

/// The ascending list after the key was given the value: the entry that
/// has the key takes the value, a new key goes where the order puts it.
pub open spec fn put_ascending<B>(entries: Seq<(u32, B)>, key: u32, value: B) -> Seq<(u32, B)> {
    if has_key(entries, key) {
        entries.update(key_index(entries, key), (key, value))
    } else {
        entries.insert(slot_of(entries, key), (key, value))
    }
}

/// In a list without repeated keys, the entry at a place is the one that
/// its key finds.
pub proof fn lemma_find_at<A, B>(entries: Seq<(A, B)>, i: int)
    requires
        unique_keys(entries),
        0 <= i < entries.len(),
    ensures
        has_key(entries, entries[i].0),
        key_index(entries, entries[i].0) == i,
        find(entries, entries[i].0) == Some(entries[i].1),
{
    let key = entries[i].0;
    let j = key_index(entries, key);
    assert(0 <= j < entries.len() && entries[j].0 == key);
    if j < i {
        assert(entries[j].0 != entries[i].0);
    }
    if i < j {
        assert(entries[i].0 != entries[j].0);
    }
}

/// An ascending list has no repeated keys.
pub proof fn lemma_ascending_unique<B>(entries: Seq<(u32, B)>)
    requires
        ascending(entries),
    ensures
        unique_keys(entries),
{
    assert forall|i: int, j: int| 0 <= i < j < entries.len() implies (#[trigger] entries[i]).0 != (
    #[trigger] entries[j]).0 by {
        assert(entries[i].0 < entries[j].0);
    }
}

/// What `put` does to a list without repeated keys: the key finds the
/// value, every other key finds what it found before, and no key is
/// repeated.
pub proof fn lemma_put<A, B>(entries: Seq<(A, B)>, key: A, value: B)
    requires
        unique_keys(entries),
    ensures
        unique_keys(put(entries, key, value)),
        find(put(entries, key, value), key) == Some(value),
        forall|other: A|
            other != key ==> #[trigger] find(put(entries, key, value), other) == find(
                entries,
                other,
            ),
        put(entries, key, value).len() == if has_key(entries, key) {
            entries.len()
        } else {
            entries.len() + 1
        },
{
    let after = put(entries, key, value);
    if has_key(entries, key) {
        let i = key_index(entries, key);
        assert(0 <= i < entries.len() && entries[i].0 == key);
        assert forall|a: int, b: int| 0 <= a < b < after.len() implies (#[trigger] after[a]).0 != (
        #[trigger] after[b]).0 by {
            assert(entries[a].0 != entries[b].0);
        }
        assert(after[i].0 == key);
        lemma_find_at(after, i);
        assert forall|other: A| other != key implies #[trigger] find(after, other) == find(
            entries,
            other,
        ) by {
            if has_key(entries, other) {
                let j = key_index(entries, other);
                assert(0 <= j < entries.len() && entries[j].0 == other);
                assert(after[j].0 == other);
                lemma_find_at(after, j);
            } else {
                if has_key(after, other) {
                    let j = key_index(after, other);
                    assert(0 <= j < after.len() && after[j].0 == other);
                    assert(entries[j].0 == other);
                }
            }
        }
    } else {
        let n = entries.len() as int;
        assert forall|a: int, b: int| 0 <= a < b < after.len() implies (#[trigger] after[a]).0 != (
        #[trigger] after[b]).0 by {
            if b < n {
                assert(entries[a].0 != entries[b].0);
            } else {
                assert(entries[a].0 != key);
            }
        }
        assert(after[n].0 == key);
        lemma_find_at(after, n);
        assert forall|other: A| other != key implies #[trigger] find(after, other) == find(
            entries,
            other,
        ) by {
            if has_key(entries, other) {
                let j = key_index(entries, other);
                assert(0 <= j < entries.len() && entries[j].0 == other);
                assert(after[j].0 == other);
                lemma_find_at(after, j);
            } else {
                if has_key(after, other) {
                    let j = key_index(after, other);
                    assert(0 <= j < after.len() && after[j].0 == other);
                    if j < n {
                        assert(entries[j].0 == other);
                    }
                }
            }
        }
    }
}

/// An ascending list has a place for every key that it lacks.
pub proof fn lemma_slot_exists<B>(entries: Seq<(u32, B)>, key: u32)
    requires
        ascending(entries),
        !has_key(entries, key),
    ensures
        is_slot(entries, key, slot_of(entries, key)),
    decreases entries.len(),
{
    if entries.len() == 0 {
        assert(is_slot(entries, key, 0));
    } else {
        let n = entries.len() - 1;
        let front = entries.drop_last();
        assert forall|a: int, b: int| 0 <= a < b < front.len() implies (#[trigger] front[a]).0 < (
        #[trigger] front[b]).0 by {
            assert(entries[a].0 < entries[b].0);
        }
        if has_key(front, key) {
            let j = key_index(front, key);
            assert(0 <= j < front.len() && front[j].0 == key);
            assert(entries[j].0 == key);
        }
        lemma_slot_exists(front, key);
        let q = slot_of(front, key);
        assert(is_slot(front, key, q));
        assert(entries[n].0 != key);
        if entries[n].0 < key {
            assert forall|i: int| 0 <= i < n + 1 implies (#[trigger] entries[i]).0 < key by {
                if i < n {
                    assert(entries[i].0 < entries[n].0);
                }
            }
            assert(is_slot(entries, key, n + 1));
        } else {
            assert forall|i: int| 0 <= i < q implies (#[trigger] entries[i]).0 < key by {
                assert(front[i].0 < key);
            }
            assert forall|i: int| q <= i < entries.len() implies key < (#[trigger] entries[i]).0 by {
                if i < n {
                    assert(key < front[i].0);
                }
            }
            assert(is_slot(entries, key, q));
        }
    }
}

/// A key that an ascending list lacks has one place only.
pub proof fn lemma_slot_unique<B>(entries: Seq<(u32, B)>, key: u32, p: int)
    requires
        is_slot(entries, key, p),
    ensures
        slot_of(entries, key) == p,
{
    let q = slot_of(entries, key);
    assert(is_slot(entries, key, q));
    if q < p {
        assert(entries[q].0 < key);
    }
    if p < q {
        assert(entries[p].0 < key);
    }
}

/// What `put_ascending` does to an ascending list: the order is kept, the
/// key finds the value, and every other key finds what it found before.
pub proof fn lemma_put_ascending<B>(entries: Seq<(u32, B)>, key: u32, value: B)
    requires
        ascending(entries),
    ensures
        ascending(put_ascending(entries, key, value)),
        find(put_ascending(entries, key, value), key) == Some(value),
        forall|other: u32|
            other != key ==> #[trigger] find(put_ascending(entries, key, value), other) == find(
                entries,
                other,
            ),
        put_ascending(entries, key, value).len() == if has_key(entries, key) {
            entries.len()
        } else {
            entries.len() + 1
        },
{
    let after = put_ascending(entries, key, value);
    lemma_ascending_unique(entries);
    if has_key(entries, key) {
        assert(after == put(entries, key, value));
        lemma_put(entries, key, value);
        let i = key_index(entries, key);
        assert(0 <= i < entries.len() && entries[i].0 == key);
        assert forall|a: int, b: int| 0 <= a < b < after.len() implies (#[trigger] after[a]).0 < (
        #[trigger] after[b]).0 by {
            assert(entries[a].0 < entries[b].0);
        }
    } else {
        lemma_slot_exists(entries, key);
        let p = slot_of(entries, key);
        assert(is_slot(entries, key, p));
        assert forall|a: int, b: int| 0 <= a < b < after.len() implies (#[trigger] after[a]).0 < (
        #[trigger] after[b]).0 by {
            if b < p {
                assert(entries[a].0 < entries[b].0);
            } else if b == p {
                assert(entries[a].0 < key);
            } else if a < p {
                assert(entries[a].0 < entries[b - 1].0);
            } else if a == p {
                assert(key < entries[b - 1].0);
            } else {
                assert(entries[a - 1].0 < entries[b - 1].0);
            }
        }
        lemma_ascending_unique(after);
        assert(after[p].0 == key);
        lemma_find_at(after, p);
        assert forall|other: u32| other != key implies #[trigger] find(after, other) == find(
            entries,
            other,
        ) by {
            if has_key(entries, other) {
                let j = key_index(entries, other);
                assert(0 <= j < entries.len() && entries[j].0 == other);
                let k = if j < p {
                    j
                } else {
                    j + 1
                };
                assert(after[k].0 == other);
                lemma_find_at(after, k);
            } else {
                if has_key(after, other) {
                    let k = key_index(after, other);
                    assert(0 <= k < after.len() && after[k].0 == other);
                    if k < p {
                        assert(entries[k].0 == other);
                    } else {
                        assert(entries[k - 1].0 == other);
                    }
                }
            }
        }
    }
}

/// A key above every key of an ascending list goes to its end.
pub proof fn lemma_put_ascending_last<B>(entries: Seq<(u32, B)>, key: u32, value: B)
    requires
        forall|i: int| 0 <= i < entries.len() ==> (#[trigger] entries[i]).0 < key,
    ensures
        put_ascending(entries, key, value) == entries.push((key, value)),
{
    if has_key(entries, key) {
        let j = key_index(entries, key);
        assert(0 <= j < entries.len() && entries[j].0 == key);
    }
    assert(is_slot(entries, key, entries.len() as int));
    lemma_slot_unique(entries, key, entries.len() as int);
    assert(entries.insert(entries.len() as int, (key, value)) =~= entries.push((key, value)));
}

/// What `take` does to a list without repeated keys: the key finds
/// nothing, every other key finds what it found before.
pub proof fn lemma_take<A, B>(entries: Seq<(A, B)>, key: A)
    requires
        unique_keys(entries),
    ensures
        unique_keys(take(entries, key)),
        find(take(entries, key), key) is None,
        forall|other: A|
            other != key ==> #[trigger] find(take(entries, key), other) == find(entries, other),
{
    let after = take(entries, key);
    if has_key(entries, key) {
        let i = key_index(entries, key);
        assert(0 <= i < entries.len() && entries[i].0 == key);
        assert forall|a: int, b: int| 0 <= a < b < after.len() implies (#[trigger] after[a]).0 != (
        #[trigger] after[b]).0 by {
            let a0 = if a < i {
                a
            } else {
                a + 1
            };
            let b0 = if b < i {
                b
            } else {
                b + 1
            };
            assert(entries[a0].0 != entries[b0].0);
        }
        if has_key(after, key) {
            let k = key_index(after, key);
            assert(0 <= k < after.len() && after[k].0 == key);
            let k0 = if k < i {
                k
            } else {
                k + 1
            };
            assert(entries[k0].0 == key);
            if k0 < i {
                assert(entries[k0].0 != entries[i].0);
            } else {
                assert(entries[i].0 != entries[k0].0);
            }
        }
        assert forall|other: A| other != key implies #[trigger] find(after, other) == find(
            entries,
            other,
        ) by {
            if has_key(entries, other) {
                let j = key_index(entries, other);
                assert(0 <= j < entries.len() && entries[j].0 == other);
                let k = if j < i {
                    j
                } else {
                    j - 1
                };
                assert(after[k].0 == other);
                lemma_find_at(after, k);
            } else {
                if has_key(after, other) {
                    let k = key_index(after, other);
                    assert(0 <= k < after.len() && after[k].0 == other);
                    let k0 = if k < i {
                        k
                    } else {
                        k + 1
                    };
                    assert(entries[k0].0 == other);
                }
            }
        }
    }
}

/// Removing an entry keeps an ascending list ascending.
pub proof fn lemma_take_ascending<B>(entries: Seq<(u32, B)>, key: u32)
    requires
        ascending(entries),
    ensures
        ascending(take(entries, key)),
{
    let after = take(entries, key);
    if has_key(entries, key) {
        let i = key_index(entries, key);
        assert(0 <= i < entries.len() && entries[i].0 == key);
        assert forall|a: int, b: int| 0 <= a < b < after.len() implies (#[trigger] after[a]).0 < (
        #[trigger] after[b]).0 by {
            let a0 = if a < i {
                a
            } else {
                a + 1
            };
            let b0 = if b < i {
                b
            } else {
                b + 1
            };
            assert(entries[a0].0 < entries[b0].0);
        }
    }
}

/// The place of a key in a list, if the list has the key.
pub(crate) fn position<K: NamespaceKey, V: View>(entries: &Vec<(K, V)>, key: &K) -> (found: Option<
    usize,
>)
    ensures
        match found {
            Some(i) => i < entries.len() && views(entries@)[i as int].0 == key@,
            None => !has_key(views(entries@), key@),
        },
{
    let mut i: usize = 0;
    while i < entries.len()
        invariant
            i <= entries.len(),
            forall|j: int| 0 <= j < i ==> (#[trigger] views(entries@)[j]).0 != key@,
        decreases entries.len() - i,
    {
        if entries[i].0.same_key(key) {
            return Some(i);
        }
        i += 1;
    }
    None
}

/// The first place of an ascending list whose key is not below the given
/// one, by bisection.
pub(crate) fn lower_bound<V: View>(entries: &Vec<(u32, V)>, key: u32) -> (place: usize)
    requires
        ascending(views(entries@)),
    ensures
        place <= entries.len(),
        forall|i: int| 0 <= i < place ==> (#[trigger] views(entries@)[i]).0 < key,
        forall|i: int| place <= i < entries.len() ==> key <= (#[trigger] views(entries@)[i]).0,
{
    let ghost list = views(entries@);
    let mut low: usize = 0;
    let mut high: usize = entries.len();
    while low < high
        invariant
            low <= high <= entries.len(),
            list == views(entries@),
            ascending(list),
            forall|i: int| 0 <= i < low ==> (#[trigger] list[i]).0 < key,
            forall|i: int| high <= i < entries.len() ==> key <= (#[trigger] list[i]).0,
        decreases high - low,
    {
        let middle: usize = low + (high - low) / 2;
        assert(list[middle as int].0 == entries@[middle as int].0);
        if entries[middle].0 < key {
            assert forall|i: int| 0 <= i < middle + 1 implies (#[trigger] list[i]).0 < key by {
                if i < middle {
                    assert(list[i].0 < list[middle as int].0);
                }
            }
            low = middle + 1;
        } else {
            assert forall|i: int| middle <= i < entries.len() implies key <= (#[trigger] list[i]).0 by {
                if middle < i {
                    assert(list[middle as int].0 < list[i].0);
                }
            }
            high = middle;
        }
    }
    low
}

/// Looks a key up.
pub(crate) fn lookup<'a, K: NamespaceKey, V: View>(entries: &'a Vec<(K, V)>, key: &K) -> (found:
    Option<&'a V>)
    requires
        unique_keys(views(entries@)),
    ensures
        match found {
            Some(value) => find(views(entries@), key@) == Some(value@),
            None => find(views(entries@), key@) is None,
        },
{
    match position(entries, key) {
        Some(i) => {
            proof {
                lemma_find_at(views(entries@), i as int);
            }
            Some(&entries[i].1)
        },
        None => None,
    }
}

/// Looks a key up in an ascending list.
pub(crate) fn lookup_ascending<'a, V: View>(entries: &'a Vec<(u32, V)>, key: u32) -> (found: Option<
    &'a V,
>)
    requires
        ascending(views(entries@)),
    ensures
        match found {
            Some(value) => find(views(entries@), key) == Some(value@),
            None => find(views(entries@), key) is None,
        },
{
    let ghost list = views(entries@);
    let place = lower_bound(entries, key);
    if place < entries.len() && entries[place].0 == key {
        proof {
            lemma_ascending_unique(list);
            assert(list[place as int].0 == key);
            lemma_find_at(list, place as int);
        }
        Some(&entries[place].1)
    } else {
        proof {
            if has_key(list, key) {
                let j = key_index(list, key);
                assert(0 <= j < list.len() && list[j].0 == key);
                if place < entries.len() {
                    assert(list[place as int].0 == entries@[place as int].0);
                }
            }
        }
        None
    }
}

/// Gives a key a value; returns the value that it had.
pub(crate) fn upsert<K: NamespaceKey, V: View>(entries: &mut Vec<(K, V)>, key: K, value: V) -> (previous:
    Option<V>)
    requires
        unique_keys(views(old(entries)@)),
    ensures
        views(final(entries)@) == put(views(old(entries)@), key@, value@),
        match previous {
            Some(before) => find(views(old(entries)@), key@) == Some(before@),
            None => find(views(old(entries)@), key@) is None,
        },
        unique_keys(views(final(entries)@)),
{
    let ghost list = views(entries@);
    proof {
        lemma_put(list, key@, value@);
    }
    match position(entries, &key) {
        Some(i) => {
            proof {
                lemma_find_at(list, i as int);
            }
            entries.push((key, value));
            let replaced = entries.swap_remove(i);
            assert(views(entries@) =~= list.update(i as int, (key@, value@)));
            Some(replaced.1)
        },
        None => {
            entries.push((key, value));
            assert(views(entries@) =~= list.push((key@, value@)));
            None
        },
    }
}

/// Gives a key of an ascending list a value; returns the value that it
/// had.
pub(crate) fn upsert_ascending<V: View>(entries: &mut Vec<(u32, V)>, key: u32, value: V) -> (previous:
    Option<V>)
    requires
        ascending(views(old(entries)@)),
    ensures
        views(final(entries)@) == put_ascending(views(old(entries)@), key, value@),
        match previous {
            Some(before) => find(views(old(entries)@), key) == Some(before@),
            None => find(views(old(entries)@), key) is None,
        },
        ascending(views(final(entries)@)),
{
    let ghost list = views(entries@);
    proof {
        lemma_put_ascending(list, key, value@);
        lemma_ascending_unique(list);
    }
    let place = lower_bound(entries, key);
    if place < entries.len() && entries[place].0 == key {
        proof {
            assert(list[place as int].0 == key);
            lemma_find_at(list, place as int);
        }
        entries.push((key, value));
        let replaced = entries.swap_remove(place);
        assert(views(entries@) =~= list.update(place as int, (key, value@)));
        Some(replaced.1)
    } else {
        proof {
            if place < entries.len() {
                assert(list[place as int].0 == entries@[place as int].0);
            }
            if has_key(list, key) {
                let j = key_index(list, key);
                assert(0 <= j < list.len() && list[j].0 == key);
            }
            assert(is_slot(list, key, place as int));
            lemma_slot_unique(list, key, place as int);
        }
        entries.insert(place, (key, value));
        assert(views(entries@) =~= list.insert(place as int, (key, value@)));
        None
    }
}

/// Takes a key out; returns the value that it had.
pub(crate) fn withdraw<K: NamespaceKey, V: View>(entries: &mut Vec<(K, V)>, key: &K) -> (previous:
    Option<V>)
    requires
        unique_keys(views(old(entries)@)),
    ensures
        views(final(entries)@) == take(views(old(entries)@), key@),
        match previous {
            Some(before) => find(views(old(entries)@), key@) == Some(before@),
            None => find(views(old(entries)@), key@) is None,
        },
        unique_keys(views(final(entries)@)),
{
    let ghost list = views(entries@);
    proof {
        lemma_take(list, key@);
    }
    match position(entries, key) {
        Some(i) => {
            proof {
                lemma_find_at(list, i as int);
            }
            let removed = entries.remove(i);
            assert(views(entries@) =~= list.remove(i as int));
            Some(removed.1)
        },
        None => None,
    }
}

} // verus!
