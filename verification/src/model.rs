//! The two mathematical models that the contracts speak of: what a generic
//! JSON value stands for, and what a typed value is.
use crate::number::{NumberView, N};
use crate::order::key_lt;
use vstd::prelude::*;

verus! {

/// What a generic JSON value stands for. An object is a finite map: it has no
/// order and no key twice.
pub enum JsonView {
    Null,
    Bool(bool),
    Number(NumberView),
    String(Seq<char>),
    Array(Seq<JsonView>),
    Object(Map<Seq<char>, JsonView>),
}

/// What a typed value is. An object is the sequence of its entries, in the
/// order in which they are stored.
pub enum ValueView {
    Null,
    Bool(bool),
    Number(N),
    String(Seq<char>),
    Array(Seq<ValueView>),
    Object(Seq<(Seq<char>, ValueView)>),
}

/// Each key comes strictly before all keys after it.
pub open spec fn increasing(keys: Seq<Seq<char>>) -> bool {
    forall|i: int, j: int| 0 <= i < j < keys.len() ==> key_lt(#[trigger] keys[i], #[trigger] keys[j])
}

/// The keys of a sequence of entries, in its order.
pub open spec fn keys_of<V>(entries: Seq<(Seq<char>, V)>) -> Seq<Seq<char>> {
    Seq::new(entries.len(), |i: int| entries[i].0)
}

/// The keys of a finite set in increasing order.
pub open spec fn sorted_keys(keys: Set<Seq<char>>) -> Seq<Seq<char>> {
    choose|q: Seq<Seq<char>>| increasing(q) && q.to_set() == keys
}

/// The entries with `entry` put at index `at`: in place of the entry there if
/// that one has its key, else before it.
pub open spec fn put_at<V>(entries: Seq<(Seq<char>, V)>, at: int, entry: (Seq<char>, V)) -> Seq<
    (Seq<char>, V),
> {
    if 0 <= at < entries.len() && entries[at].0 == entry.0 {
        entries.update(at, entry)
    } else {
        entries.insert(at, entry)
    }
}

/// The map that a sequence of entries builds when they are put into it one
/// after the other: of two entries with one key the later one stays.
pub open spec fn map_of<V>(entries: Seq<(Seq<char>, V)>) -> Map<Seq<char>, V>
    decreases entries.len(),
{
    if entries.len() == 0 {
        Map::empty()
    } else {
        map_of(entries.drop_last()).insert(entries.last().0, entries.last().1)
    }
}

impl JsonView {
    /// Numbers are in range, and objects are finite, at every depth.
    pub open spec fn valid(self) -> bool
        decreases self,
    {
        match self {
            JsonView::Number(x) => x.valid(),
            JsonView::Array(items) => forall|i: int|
                0 <= i < items.len() ==> (#[trigger] items[i]).valid(),
            JsonView::Object(m) => m.dom().finite() && forall|k: Seq<char>|
                m.dom().contains(k) ==> (#[trigger] m[k]).valid(),
            _ => true,
        }
    }

    /// The typed value for a JSON value: the same tree, with each number in
    /// its typed form and the entries of each object in increasing key order.
    pub open spec fn typed(self) -> ValueView
        decreases self,
    {
        match self {
            JsonView::Null => ValueView::Null,
            JsonView::Bool(b) => ValueView::Bool(b),
            JsonView::Number(x) => ValueView::Number(x.typed()),
            JsonView::String(s) => ValueView::String(s),
            JsonView::Array(items) => ValueView::Array(Self::typed_items(items)),
            JsonView::Object(m) => ValueView::Object(Self::typed_entries(m)),
        }
    }

    /// The typed values of the items of an array, in their order.
    pub open spec fn typed_items(items: Seq<JsonView>) -> Seq<ValueView>
        decreases items,
    {
        Seq::new(
            items.len(),
            |i: int|
                if 0 <= i < items.len() {
                    items[i].typed()
                } else {
                    ValueView::Null
                },
        )
    }

    /// The entries of an object with their values typed, in increasing key
    /// order.
    pub open spec fn typed_entries(m: Map<Seq<char>, JsonView>) -> Seq<(Seq<char>, ValueView)>
        decreases m,
    {
        if m.dom().finite() {
            let keys = sorted_keys(m.dom());
            Seq::new(
                keys.len(),
                |i: int|
                    (
                        keys[i],
                        if m.dom().contains(keys[i]) {
                            m[keys[i]].typed()
                        } else {
                            ValueView::Null
                        },
                    ),
            )
        } else {
            Seq::empty()
        }
    }
}

impl ValueView {
    /// The canonical shape: numbers are well formed and the keys of each
    /// object are strictly increasing, at every depth.
    pub open spec fn wf(self) -> bool
        decreases self,
    {
        match self {
            ValueView::Number(n) => n.wf(),
            ValueView::Array(items) => forall|i: int|
                0 <= i < items.len() ==> (#[trigger] items[i]).wf(),
            ValueView::Object(entries) => increasing(keys_of(entries)) && forall|i: int|
                0 <= i < entries.len() ==> (#[trigger] entries[i]).1.wf(),
            _ => true,
        }
    }

    /// The JSON value that a typed value stands for.
    pub open spec fn generic(self) -> JsonView
        decreases self,
    {
        match self {
            ValueView::Null => JsonView::Null,
            ValueView::Bool(b) => JsonView::Bool(b),
            ValueView::Number(n) => JsonView::Number(n.generic()),
            ValueView::String(s) => JsonView::String(s),
            ValueView::Array(items) => JsonView::Array(Self::generic_items(items)),
            ValueView::Object(entries) => JsonView::Object(map_of(Self::generic_entries(entries))),
        }
    }

    /// The JSON values that the items of an array stand for, in their order.
    pub open spec fn generic_items(items: Seq<ValueView>) -> Seq<JsonView>
        decreases items,
    {
        Seq::new(
            items.len(),
            |i: int|
                if 0 <= i < items.len() {
                    items[i].generic()
                } else {
                    JsonView::Null
                },
        )
    }

    /// The entries of an object with the JSON values that their values stand
    /// for, in their order.
    pub open spec fn generic_entries(entries: Seq<(Seq<char>, ValueView)>) -> Seq<
        (Seq<char>, JsonView),
    >
        decreases entries,
    {
        Seq::new(
            entries.len(),
            |i: int|
                (
                    entries[i].0,
                    if 0 <= i < entries.len() {
                        entries[i].1.generic()
                    } else {
                        JsonView::Null
                    },
                ),
        )
    }

    /// Whether a float with bit pattern `bits` occurs in the value.
    pub open spec fn has_float(self, bits: u64) -> bool
        decreases self,
    {
        match self {
            ValueView::Number(n) => n == N::Float(bits),
            ValueView::Array(items) => exists|i: int|
                0 <= i < items.len() && (#[trigger] items[i]).has_float(bits),
            ValueView::Object(entries) => exists|i: int|
                0 <= i < entries.len() && (#[trigger] entries[i]).1.has_float(bits),
            _ => false,
        }
    }

    /// The bit patterns of the floats that occur in the value.
    pub open spec fn floats(self) -> Set<u64> {
        Set::new(|bits: u64| self.has_float(bits))
    }
}

} // verus!
