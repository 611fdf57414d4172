//! What holds between the two directions of the bridge.
use crate::model::{increasing, keys_of, map_of, sorted_keys, JsonView, ValueView};
use crate::number::{NumberView, N};
use crate::sorted::{
    lemma_increasing_no_duplicates, lemma_map_of_dom, lemma_map_of_value, lemma_sorted_keys,
    lemma_sorted_keys_of_increasing,
};
use vstd::prelude::*;

verus! {

/// A JSON number that is an integer from zero to `u64::MAX` has the typed
/// form `PosInt`, and that form stands for the same number.
pub proof fn law_unsigned_number(x: NumberView)
    requires
        x matches NumberView::Integer(i) && 0 <= i <= u64::MAX,
    ensures
        x.typed() is PosInt,
        x.typed().generic() == x,
{
}

/// A JSON number that is an integer from `i64::MIN` to minus one has the
/// typed form `NegInt`, and that form stands for the same number.
pub proof fn law_negative_number(x: NumberView)
    requires
        x matches NumberView::Integer(i) && i64::MIN <= i < 0,
    ensures
        x.typed() is NegInt,
        x.typed().wf(),
        x.typed().generic() == x,
{
}

/// A JSON number that holds a float has the typed form `Float` with the same
/// bit pattern, and that form stands for the same number.
pub proof fn law_float_number(x: NumberView)
    requires
        x is Float,
    ensures
        x.typed() == N::Float(x->Float_0),
        x.typed().generic() == x,
{
}

/// The three typed forms are the typed forms of distinct numbers: a well
/// formed typed number is the typed form of the number it stands for.
pub proof fn law_number_typed_again(n: N)
    requires
        n.wf(),
    ensures
        n.generic().valid(),
        n.generic().typed() == n,
{
}

/// From generic to typed and back: the typed value of a JSON value is
/// canonical and stands for that JSON value.
pub proof fn law_round_trip(j: JsonView)
    requires
        j.valid(),
    ensures
        j.typed().wf(),
        j.typed().generic() == j,
    decreases j,
{
    match j {
        JsonView::Array(items) => {
            let typed = JsonView::typed_items(items);
            assert forall|i: int| 0 <= i < items.len() implies (#[trigger] typed[i]).wf()
                && typed[i].generic() == items[i] by {
                law_round_trip(items[i]);
            }
            assert(ValueView::generic_items(typed) =~= items);
        },
        JsonView::Object(m) => {
            let keys = sorted_keys(m.dom());
            lemma_sorted_keys(m.dom());
            let entries = JsonView::typed_entries(m);
            assert(keys_of(entries) =~= keys);
            assert forall|i: int| 0 <= i < entries.len() implies m.dom().contains(keys[i]) && (
            #[trigger] entries[i]).1.wf() && entries[i].1.generic() == m[keys[i]] by {
                assert(keys.to_set().contains(keys[i]));
                law_round_trip(m[keys[i]]);
            }
            let pairs = ValueView::generic_entries(entries);
            assert(keys_of(pairs) =~= keys);
            lemma_map_of_dom(pairs);
            lemma_increasing_no_duplicates(keys);
            assert forall|k: Seq<char>| #[trigger] m.dom().contains(k) implies map_of(pairs)[k]
                == m[k] by {
                assert(keys.to_set().contains(k));
                let i = choose|i: int| 0 <= i < keys.len() && keys[i] == k;
                lemma_map_of_value(pairs, i);
            }
            assert(map_of(pairs) =~= m);
        },
        _ => {},
    }
}

/// From typed to generic and back: a canonical typed value stands for a valid
/// JSON value, and is the typed value of it.
pub proof fn law_typed_again(t: ValueView)
    requires
        t.wf(),
    ensures
        t.generic().valid(),
        t.generic().typed() == t,
    decreases t,
{
    match t {
        ValueView::Array(items) => {
            let generic = ValueView::generic_items(items);
            assert forall|i: int| 0 <= i < items.len() implies (#[trigger] generic[i]).valid()
                && generic[i].typed() == items[i] by {
                law_typed_again(items[i]);
            }
            assert(JsonView::typed_items(generic) =~= items);
        },
        ValueView::Object(entries) => {
            let keys = keys_of(entries);
            let pairs = ValueView::generic_entries(entries);
            let m = map_of(pairs);
            assert(keys_of(pairs) =~= keys);
            lemma_map_of_dom(pairs);
            lemma_increasing_no_duplicates(keys);
            lemma_sorted_keys_of_increasing(keys);
            assert forall|i: int| 0 <= i < entries.len() implies m.dom().contains(keys[i]) && m[keys[i]]
                == (#[trigger] entries[i]).1.generic() && m[keys[i]].valid() && m[keys[i]].typed()
                == entries[i].1 by {
                lemma_map_of_value(pairs, i);
                law_typed_again(entries[i].1);
            }
            assert forall|k: Seq<char>| m.dom().contains(k) implies (#[trigger] m[k]).valid() by {
                assert(keys.to_set().contains(k));
                let i = choose|i: int| 0 <= i < keys.len() && keys[i] == k;
                assert(m[keys[i]] == entries[i].1.generic());
            }
            assert(JsonView::typed_entries(m) =~= entries);
        },
        _ => {},
    }
}

/// Two canonical typed values that stand for the same JSON value are the
/// same, entry by entry.
pub proof fn law_canonical_unique(a: ValueView, b: ValueView)
    requires
        a.wf(),
        b.wf(),
        a.generic() == b.generic(),
    ensures
        a == b,
{
    law_typed_again(a);
    law_typed_again(b);
}

/// The order in which an object got its entries does not show in its typed
/// value: two sequences of entries, neither with a key twice, that hold the
/// same entries build objects with one typed value.
pub proof fn law_insertion_order(a: Seq<(Seq<char>, JsonView)>, b: Seq<(Seq<char>, JsonView)>)
    requires
        keys_of(a).no_duplicates(),
        keys_of(b).no_duplicates(),
        forall|e: (Seq<char>, JsonView)| a.contains(e) <==> b.contains(e),
    ensures
        map_of(a) == map_of(b),
        JsonView::Object(map_of(a)).typed() == JsonView::Object(map_of(b)).typed(),
{
    lemma_map_of_dom(a);
    lemma_map_of_dom(b);
    assert forall|k: Seq<char>| #[trigger] map_of(a).dom().contains(k) implies map_of(
        b,
    ).dom().contains(k) && map_of(a)[k] == map_of(b)[k] by {
        assert(keys_of(a).contains(k));
        let i = choose|i: int| 0 <= i < keys_of(a).len() && keys_of(a)[i] == k;
        assert(a.contains(a[i]));
        assert(b.contains(a[i]));
        let j = choose|j: int| 0 <= j < b.len() && b[j] == a[i];
        lemma_map_of_value(a, i);
        lemma_map_of_value(b, j);
    }
    assert forall|k: Seq<char>| #[trigger] map_of(b).dom().contains(k) implies map_of(
        a,
    ).dom().contains(k) by {
        assert(keys_of(b).contains(k));
        let j = choose|j: int| 0 <= j < keys_of(b).len() && keys_of(b)[j] == k;
        assert(b.contains(b[j]));
        assert(a.contains(b[j]));
        let i = choose|i: int| 0 <= i < a.len() && a[i] == b[j];
        lemma_map_of_value(a, i);
    }
    assert(map_of(a) =~= map_of(b));
}

} // verus!
