//! Facts about increasing key sequences and the maps that entries build.
use crate::model::{increasing, keys_of, map_of, sorted_keys};
use crate::order::{key_lt, lemma_key_lt_irreflexive, lemma_key_lt_total, lemma_key_lt_transitive};
use vstd::prelude::*;

verus! {

/// An increasing sequence holds no key twice.
pub proof fn lemma_increasing_distinct(keys: Seq<Seq<char>>, i: int, j: int)
    requires
        increasing(keys),
        0 <= i < keys.len(),
        0 <= j < keys.len(),
        keys[i] == keys[j],
    ensures
        i == j,
{
    lemma_key_lt_irreflexive(keys[i]);
}

/// Only one increasing sequence holds a given set of keys.
pub proof fn lemma_increasing_unique(a: Seq<Seq<char>>, b: Seq<Seq<char>>)
    requires
        increasing(a),
        increasing(b),
        a.to_set() == b.to_set(),
    ensures
        a == b,
    decreases a.len(),
{
    if a.len() == 0 {
        if b.len() > 0 {
            assert(b.to_set().contains(b[0]));
            assert(a.contains(b[0]));
        }
        assert(a =~= b);
    } else {
        let x = a.last();
        assert(a.to_set().contains(x));
        assert(b.contains(x));
        let y = b.last();
        assert(b.to_set().contains(y));
        assert(a.contains(y));
        if x != y {
            let i = choose|i: int| 0 <= i < b.len() && b[i] == x;
            let j = choose|j: int| 0 <= j < a.len() && a[j] == y;
            assert(key_lt(b[i], b[b.len() - 1]));
            assert(key_lt(a[j], a[a.len() - 1]));
            lemma_key_lt_transitive(x, y, x);
            lemma_key_lt_irreflexive(x);
        }
        let a0 = a.drop_last();
        let b0 = b.drop_last();
        assert forall|k: Seq<char>| a0.to_set().contains(k) <==> b0.to_set().contains(k) by {
            if a0.contains(k) {
                let i = choose|i: int| 0 <= i < a0.len() && a0[i] == k;
                assert(a[i] == k);
                assert(a.to_set().contains(k));
                assert(b.contains(k));
                let j = choose|j: int| 0 <= j < b.len() && b[j] == k;
                if j == b.len() - 1 {
                    lemma_increasing_distinct(a, i, a.len() - 1);
                }
                assert(b0[j] == k);
            }
            if b0.contains(k) {
                let i = choose|i: int| 0 <= i < b0.len() && b0[i] == k;
                assert(b[i] == k);
                assert(b.to_set().contains(k));
                assert(a.contains(k));
                let j = choose|j: int| 0 <= j < a.len() && a[j] == k;
                if j == a.len() - 1 {
                    lemma_increasing_distinct(b, i, b.len() - 1);
                }
                assert(a0[j] == k);
            }
        }
        assert(a0.to_set() =~= b0.to_set());
        assert(increasing(a0)) by {
            assert forall|i: int, j: int| 0 <= i < j < a0.len() implies key_lt(
                #[trigger] a0[i],
                #[trigger] a0[j],
            ) by {
                assert(key_lt(a[i], a[j]));
            }
        }
        assert(increasing(b0)) by {
            assert forall|i: int, j: int| 0 <= i < j < b0.len() implies key_lt(
                #[trigger] b0[i],
                #[trigger] b0[j],
            ) by {
                assert(key_lt(b[i], b[j]));
            }
        }
        lemma_increasing_unique(a0, b0);
        assert(a =~= a0.push(x));
        assert(b =~= b0.push(y));
    }
}

/// A finite set of keys that is not empty has a last key.
pub proof fn lemma_last_key_exists(keys: Set<Seq<char>>) -> (last: Seq<char>)
    requires
        keys.finite(),
        keys.len() > 0,
    ensures
        keys.contains(last),
        forall|k: Seq<char>| keys.contains(k) && k != last ==> key_lt(k, last),
    decreases keys.len(),
{
    let a = keys.choose();
    let rest = keys.remove(a);
    if rest.len() == 0 {
        assert forall|k: Seq<char>| keys.contains(k) && k != a implies key_lt(k, a) by {
            assert(rest.contains(k));
        }
        a
    } else {
        let m = lemma_last_key_exists(rest);
        lemma_key_lt_total(a, m);
        if key_lt(a, m) {
            assert forall|k: Seq<char>| keys.contains(k) && k != m implies key_lt(k, m) by {
                if k != a {
                    assert(rest.contains(k));
                }
            }
            m
        } else {
            assert forall|k: Seq<char>| keys.contains(k) && k != a implies key_lt(k, a) by {
                assert(rest.contains(k));
                if k != m {
                    lemma_key_lt_transitive(k, m, a);
                }
            }
            a
        }
    }
}

/// Every finite set of keys can be laid out as an increasing sequence.
pub proof fn lemma_increasing_exists(keys: Set<Seq<char>>) -> (q: Seq<Seq<char>>)
    requires
        keys.finite(),
    ensures
        increasing(q),
        q.to_set() == keys,
    decreases keys.len(),
{
    if keys.len() == 0 {
        let q = Seq::<Seq<char>>::empty();
        assert(q.to_set() =~= keys);
        q
    } else {
        let last = lemma_last_key_exists(keys);
        let rest = keys.remove(last);
        let q0 = lemma_increasing_exists(rest);
        let q = q0.push(last);
        assert forall|i: int, j: int| 0 <= i < j < q.len() implies key_lt(
            #[trigger] q[i],
            #[trigger] q[j],
        ) by {
            if j < q0.len() {
                assert(key_lt(q0[i], q0[j]));
            } else {
                assert(q0.to_set().contains(q0[i]));
            }
        }
        assert forall|k: Seq<char>| q.to_set().contains(k) <==> keys.contains(k) by {
            if q.contains(k) {
                let i = choose|i: int| 0 <= i < q.len() && q[i] == k;
                if i < q0.len() {
                    assert(q0.to_set().contains(q0[i]));
                }
            }
            if keys.contains(k) {
                if k == last {
                    assert(q[q.len() - 1] == k);
                } else {
                    assert(rest.contains(k));
                    assert(q0.contains(k));
                    let i = choose|i: int| 0 <= i < q0.len() && q0[i] == k;
                    assert(q[i] == k);
                }
            }
        }
        assert(q.to_set() =~= keys);
        q
    }
}

/// The sorted keys of a finite set are increasing and are the keys of the set.
pub proof fn lemma_sorted_keys(keys: Set<Seq<char>>)
    requires
        keys.finite(),
    ensures
        increasing(sorted_keys(keys)),
        sorted_keys(keys).to_set() == keys,
{
    let q = lemma_increasing_exists(keys);
}

/// An increasing sequence is the sorted keys of the set of its keys.
pub proof fn lemma_sorted_keys_of_increasing(q: Seq<Seq<char>>)
    requires
        increasing(q),
    ensures
        sorted_keys(q.to_set()) == q,
{
    let s = sorted_keys(q.to_set());
    lemma_increasing_unique(s, q);
}

/// The map that entries build holds the keys of the entries and no others,
/// and it is finite.
pub proof fn lemma_map_of_dom<V>(entries: Seq<(Seq<char>, V)>)
    ensures
        map_of(entries).dom() == keys_of(entries).to_set(),
        map_of(entries).dom().finite(),
    decreases entries.len(),
{
    let keys = keys_of(entries);
    if entries.len() == 0 {
        assert(map_of(entries).dom() =~= keys.to_set());
    } else {
        let front = entries.drop_last();
        lemma_map_of_dom(front);
        let keys0 = keys_of(front);
        assert forall|k: Seq<char>| map_of(entries).dom().contains(k) <==> keys.to_set().contains(
            k,
        ) by {
            if keys.contains(k) {
                let i = choose|i: int| 0 <= i < keys.len() && keys[i] == k;
                if i < front.len() {
                    assert(keys0[i] == k);
                    assert(keys0.to_set().contains(k));
                }
            }
            if keys0.contains(k) {
                let i = choose|i: int| 0 <= i < keys0.len() && keys0[i] == k;
                assert(keys[i] == k);
            }
            if k == entries.last().0 {
                assert(keys[entries.len() - 1] == k);
            }
        }
        assert(map_of(entries).dom() =~= keys.to_set());
    }
}

/// An increasing sequence holds no key twice.
pub proof fn lemma_increasing_no_duplicates(keys: Seq<Seq<char>>)
    requires
        increasing(keys),
    ensures
        keys.no_duplicates(),
{
    assert forall|i: int, j: int| 0 <= i < keys.len() && 0 <= j < keys.len() && i != j implies keys[i]
        != keys[j] by {
        if keys[i] == keys[j] {
            lemma_increasing_distinct(keys, i, j);
        }
    }
}

/// With no key twice, the map that entries build holds under each key the
/// value of its entry.
pub proof fn lemma_map_of_value<V>(entries: Seq<(Seq<char>, V)>, i: int)
    requires
        keys_of(entries).no_duplicates(),
        0 <= i < entries.len(),
    ensures
        map_of(entries).dom().contains(entries[i].0),
        map_of(entries)[entries[i].0] == entries[i].1,
    decreases entries.len(),
{
    let front = entries.drop_last();
    let keys = keys_of(entries);
    let n = entries.len() as int;
    assert(keys.len() == n);
    if i < n - 1 {
        assert forall|a: int, b: int|
            0 <= a < front.len() && 0 <= b < front.len() && a != b implies keys_of(front)[a]
            != keys_of(front)[b] by {
            assert(keys[a] != keys[b]);
        }
        lemma_map_of_value(front, i);
        assert(front[i] == entries[i]);
        assert(keys[i] != keys[n - 1]);
    }
}

/// Putting an entry between the keys before its key and the keys after it
/// keeps the keys increasing; the entries are then the old ones and the new
/// one.
pub proof fn lemma_insert_at<V>(entries: Seq<(Seq<char>, V)>, at: int, entry: (Seq<char>, V))
    requires
        increasing(keys_of(entries)),
        0 <= at <= entries.len(),
        at > 0 ==> key_lt(entries[at - 1].0, entry.0),
        at < entries.len() ==> key_lt(entry.0, entries[at].0),
    ensures
        increasing(keys_of(entries.insert(at, entry))),
        forall|e: (Seq<char>, V)| #[trigger]
            entries.insert(at, entry).contains(e) <==> e == entry || entries.contains(e),
        forall|i: int| 0 <= i < entries.len() ==> (#[trigger] entries[i]).0 != entry.0,
{
    let keys = keys_of(entries);
    let after = entries.insert(at, entry);
    assert forall|i: int| 0 <= i < entries.len() implies if i < at {
        key_lt((#[trigger] entries[i]).0, entry.0)
    } else {
        key_lt(entry.0, entries[i].0)
    } by {
        if i < at - 1 {
            assert(key_lt(keys[i], keys[at - 1]));
            lemma_key_lt_transitive(entries[i].0, entries[at - 1].0, entry.0);
        } else if i > at {
            assert(key_lt(keys[at], keys[i]));
            lemma_key_lt_transitive(entry.0, entries[at].0, entries[i].0);
        }
    }
    lemma_key_lt_irreflexive(entry.0);
    assert forall|i: int, j: int| 0 <= i < j < after.len() implies key_lt(
        #[trigger] keys_of(after)[i],
        #[trigger] keys_of(after)[j],
    ) by {
        if i < at && j > at {
            assert(key_lt(keys[i], keys[j - 1]) || i == j - 1);
            lemma_key_lt_transitive(entries[i].0, entry.0, entries[j - 1].0);
        } else if i < at && j < at {
            assert(key_lt(keys[i], keys[j]));
        } else if i > at {
            assert(key_lt(keys[i - 1], keys[j - 1]));
        } else if i == at {
            assert(after[j] == entries[j - 1]);
        } else {
            assert(after[i] == entries[i]);
        }
    }
    assert forall|e: (Seq<char>, V)| #[trigger] after.contains(e) <==> e == entry
        || entries.contains(e) by {
        if after.contains(e) {
            let i = choose|i: int| 0 <= i < after.len() && after[i] == e;
            if i < at {
                assert(entries[i] == e);
            } else if i > at {
                assert(entries[i - 1] == e);
            }
        }
        if entries.contains(e) {
            let i = choose|i: int| 0 <= i < entries.len() && entries[i] == e;
            if i < at {
                assert(after[i] == e);
            } else {
                assert(after[i + 1] == e);
            }
        }
        if e == entry {
            assert(after[at] == e);
        }
    }
}

/// Putting an entry in the place of the entry with its key keeps the keys
/// increasing; the entries are then the new one and the old ones with
/// another key.
pub proof fn lemma_replace_at<V>(entries: Seq<(Seq<char>, V)>, at: int, entry: (Seq<char>, V))
    requires
        increasing(keys_of(entries)),
        0 <= at < entries.len(),
        entries[at].0 == entry.0,
    ensures
        increasing(keys_of(entries.update(at, entry))),
        forall|e: (Seq<char>, V)| #[trigger]
            entries.update(at, entry).contains(e) <==> e == entry || (entries.contains(e) && e.0
                != entry.0),
{
    let keys = keys_of(entries);
    let after = entries.update(at, entry);
    assert(keys_of(after) =~= keys);
    assert forall|e: (Seq<char>, V)| #[trigger] after.contains(e) <==> e == entry || (
    entries.contains(e) && e.0 != entry.0) by {
        if after.contains(e) {
            let i = choose|i: int| 0 <= i < after.len() && after[i] == e;
            if i != at {
                assert(entries[i] == e);
                if keys[i] == keys[at] {
                    lemma_increasing_distinct(keys, i, at);
                }
            }
        }
        if entries.contains(e) && e.0 != entry.0 {
            let i = choose|i: int| 0 <= i < entries.len() && entries[i] == e;
            assert(after[i] == e);
        }
        if e == entry {
            assert(after[at] == e);
        }
    }
}

/// The keys after an entry was put in are the keys before, and its key.
pub proof fn lemma_keys_after_put<V>(
    before: Seq<(Seq<char>, V)>,
    after: Seq<(Seq<char>, V)>,
    entry: (Seq<char>, V),
)
    requires
        forall|e: (Seq<char>, V)| #[trigger]
            after.contains(e) <==> e == entry || (before.contains(e) && e.0 != entry.0),
    ensures
        forall|k: Seq<char>| #[trigger]
            keys_of(after).contains(k) <==> k == entry.0 || keys_of(before).contains(k),
{
    assert forall|k: Seq<char>| #[trigger]
        keys_of(after).contains(k) <==> k == entry.0 || keys_of(before).contains(k) by {
        if keys_of(after).contains(k) {
            let i = choose|i: int| 0 <= i < keys_of(after).len() && keys_of(after)[i] == k;
            assert(after.contains(after[i]));
            if after[i] != entry {
                let j = choose|j: int| 0 <= j < before.len() && before[j] == after[i];
                assert(keys_of(before)[j] == k);
            }
        }
        if keys_of(before).contains(k) && k != entry.0 {
            let j = choose|j: int| 0 <= j < keys_of(before).len() && keys_of(before)[j] == k;
            assert(before.contains(before[j]));
            assert(after.contains(before[j]));
            let i = choose|i: int| 0 <= i < after.len() && after[i] == before[j];
            assert(keys_of(after)[i] == k);
        }
        if k == entry.0 {
            assert(after.contains(entry));
            let i = choose|i: int| 0 <= i < after.len() && after[i] == entry;
            assert(keys_of(after)[i] == k);
        }
    }
}

} // verus!
