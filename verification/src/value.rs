//! Typed values and the two directions of the bridge.
use crate::json::{
    json_close, json_open, json_view, map_entries, map_insert, map_new, map_view, JsonNode, JsonRef,
};
use crate::laws::law_round_trip;
use crate::model::{increasing, keys_of, map_of, put_at, JsonView, ValueView};
use crate::number::{Number, N};
use crate::order::{key_less, key_lt, lemma_key_lt_total};
use crate::sorted::{
    lemma_insert_at, lemma_keys_after_put, lemma_replace_at, lemma_sorted_keys_of_increasing,
};
use serde_json::Number as JsonNumber;
use serde_json::Value as JsonValue;
use vstd::prelude::*;
use vstd::seq_lib::seq_to_set_is_finite;

verus! {

/// A typed value. The entries of an object are kept in a vector, in
/// increasing key order and with no key twice.
#[derive(Debug, PartialEq, Eq)]
pub enum Value {
    Null,
    Bool(bool),
    Number(Number),
    String(String),
    Array(Vec<Value>),
    Object(Vec<(String, Value)>),
}

impl Value {
    /// What the value is, as a tree of plain values.
    pub open spec fn model(self) -> ValueView
        decreases self,
    {
        match self {
            Value::Null => ValueView::Null,
            Value::Bool(b) => ValueView::Bool(b),
            Value::Number(n) => ValueView::Number(n.n),
            Value::String(s) => ValueView::String(s@),
            Value::Array(items) => ValueView::Array(Self::item_views(items)),
            Value::Object(entries) => ValueView::Object(Self::entry_views(entries)),
        }
    }

    /// What the items of an array are, in their order.
    pub open spec fn item_views(items: Vec<Value>) -> Seq<ValueView>
        decreases items,
    {
        Seq::new(
            items@.len(),
            |i: int|
                if 0 <= i < items@.len() {
                    items@[i].model()
                } else {
                    ValueView::Null
                },
        )
    }

    /// What the entries of an object are, in their order.
    pub open spec fn entry_views(entries: Vec<(String, Value)>) -> Seq<(Seq<char>, ValueView)>
        decreases entries,
    {
        Seq::new(
            entries@.len(),
            |i: int|
                (
                    entries@[i].0@,
                    if 0 <= i < entries@.len() {
                        entries@[i].1.model()
                    } else {
                        ValueView::Null
                    },
                ),
        )
    }
}

impl View for Value {
    type V = ValueView;

    open spec fn view(&self) -> ValueView {
        self.model()
    }
}

/// Puts an entry into the entries of an object, at the place of its key: in
/// place of the entry with that key if there is one, else between the keys
/// before it and the keys after it.
pub fn insert_entry(entries: &mut Vec<(String, Value)>, key: String, value: Value)
    requires
        increasing(keys_of(Value::entry_views(*old(entries)))),
    ensures
        increasing(keys_of(Value::entry_views(*final(entries)))),
        exists|at: int|
            0 <= at <= old(entries)@.len() && Value::entry_views(*final(entries)) == put_at(
                Value::entry_views(*old(entries)),
                at,
                (key@, value@),
            ),
        forall|e: (Seq<char>, ValueView)| #[trigger]
            Value::entry_views(*final(entries)).contains(e) <==> e == (key@, value@) || (
            Value::entry_views(*old(entries)).contains(e) && e.0 != key@),
        forall|k: Seq<char>| #[trigger]
            keys_of(Value::entry_views(*final(entries))).contains(k) <==> k == key@ || keys_of(
                Value::entry_views(*old(entries)),
            ).contains(k),
{
    let ghost before = Value::entry_views(*entries);
    let ghost entry = (key@, value@);
    let mut at: usize = entries.len();
    while at > 0 && key_less(key.as_str(), entries[at - 1].0.as_str())
        invariant
            at <= entries.len(),
            before == Value::entry_views(*entries),
            entry == (key@, value@),
            at < entries.len() ==> key_lt(key@, before[at as int].0),
        decreases at,
    {
        at = at - 1;
    }
    if at > 0 && !key_less(entries[at - 1].0.as_str(), key.as_str()) {
        proof {
            lemma_key_lt_total(key@, before[at - 1].0);
            lemma_replace_at(before, at - 1, entry);
        }
        entries.set(at - 1, (key, value));
        assert(Value::entry_views(*entries) =~= put_at(before, at - 1, entry));
    } else {
        proof {
            lemma_insert_at(before, at as int, entry);
        }
        entries.insert(at, (key, value));
        assert(Value::entry_views(*entries) =~= put_at(before, at as int, entry));
    }
    proof {
        lemma_keys_after_put(before, Value::entry_views(*entries), entry);
    }
}

impl Value {
    /// Turns a generic JSON value into its typed value: the same tree, with
    /// each number classified and the entries of each object in increasing key
    /// order.
    pub fn from_json(json: &JsonValue) -> (r: Value)
        ensures
            json_view(*json).valid(),
            r@ == json_view(*json).typed(),
            r@.wf(),
            r@.generic() == json_view(*json),
    {
        let r = Value::typed_of(json);
        proof {
            law_round_trip(json_view(*json));
        }
        r
    }

    /// The typed value for `json`, built from the leaves up.
    fn typed_of(json: &JsonValue) -> (r: Value)
        ensures
            json_view(*json).valid(),
            r@ == json_view(*json).typed(),
        decreases json_view(*json),
    {
        match json_open(json) {
            JsonRef::Null => Value::Null,
            JsonRef::Bool(b) => Value::Bool(b),
            JsonRef::Number(n) => Value::Number(Number { n: N::classify(n) }),
            JsonRef::String(s) => Value::String(s.clone()),
            JsonRef::Array(items) => {
                let ghost views = json_view(*json)->Array_0;
                let mut out: Vec<Value> = Vec::new();
                let mut i: usize = 0;
                while i < items.len()
                    invariant
                        i <= items.len(),
                        out.len() == i,
                        json_view(*json) == JsonView::Array(views),
                        views.len() == items@.len(),
                        forall|k: int| 0 <= k < views.len() ==> views[k] == json_view(items@[k]),
                        forall|k: int| 0 <= k < i ==> (#[trigger] views[k]).valid(),
                        forall|k: int| 0 <= k < i ==> (#[trigger] out@[k])@ == views[k].typed(),
                    decreases items.len() - i,
                {
                    assert(decreases_to!(json_view(*json) => json_view(*json)->Array_0[i as int]));
                    let item = Value::typed_of(&items[i]);
                    out.push(item);
                    i = i + 1;
                }
                assert(Value::item_views(out) =~= JsonView::typed_items(views));
                Value::Array(out)
            },
            JsonRef::Object(m) => {
                let pairs = map_entries(m);
                let ghost object = map_view(*m);
                let ghost given = Seq::new(pairs@.len(), |k: int| pairs@[k].0@);
                proof {
                    assert forall|k: Seq<char>| object.dom().contains(k) <==> given.to_set().contains(
                        k,
                    ) by {
                        if object.dom().contains(k) {
                            let i = choose|i: int| 0 <= i < pairs@.len() && pairs@[i].0@ == k;
                            assert(given[i] == k);
                        }
                        if given.contains(k) {
                            let i = choose|i: int| 0 <= i < given.len() && given[i] == k;
                            assert(object.dom().contains(pairs@[i].0@));
                        }
                    }
                    assert(object.dom() =~= given.to_set());
                    seq_to_set_is_finite(given);
                }
                let mut out: Vec<(String, Value)> = Vec::new();
                let mut i: usize = 0;
                while i < pairs.len()
                    invariant
                        i <= pairs.len(),
                        json_view(*json) == JsonView::Object(object),
                        object.dom().finite(),
                        given == Seq::new(pairs@.len(), |k: int| pairs@[k].0@),
                        forall|k: int|
                            0 <= k < pairs@.len() ==> object.dom().contains((#[trigger] pairs@[k]).0@)
                                && object[pairs@[k].0@] == json_view(*pairs@[k].1),
                        increasing(keys_of(Value::entry_views(out))),
                        forall|e: (Seq<char>, ValueView)| #[trigger]
                            Value::entry_views(out).contains(e) ==> object.dom().contains(e.0)
                                && e.1 == object[e.0].typed(),
                        forall|k: int|
                            0 <= k < i ==> object[#[trigger] given[k]].valid() && keys_of(
                                Value::entry_views(out),
                            ).contains(given[k]),
                    decreases pairs.len() - i,
                {
                    let pair = pairs[i];
                    assert(decreases_to!(json_view(*json) => json_view(*json)->Object_0[pair.0@]));
                    let item = Value::typed_of(pair.1);
                    let ghost before = keys_of(Value::entry_views(out));
                    insert_entry(&mut out, pair.0.clone(), item);
                    assert(given[i as int] == pair.0@);
                    assert forall|k: int| 0 <= k < i + 1 implies keys_of(
                        Value::entry_views(out),
                    ).contains(#[trigger] given[k]) by {
                        if k < i {
                            assert(before.contains(given[k]));
                        }
                    }
                    i = i + 1;
                }
                proof {
                    let entries = Value::entry_views(out);
                    let keys = keys_of(entries);
                    assert forall|k: Seq<char>| object.dom().contains(k) <==> keys.to_set().contains(
                        k,
                    ) by {
                        if object.dom().contains(k) {
                            assert(given.to_set().contains(k));
                            let i = choose|i: int| 0 <= i < given.len() && given[i] == k;
                            assert(keys.contains(given[i]));
                        }
                        if keys.contains(k) {
                            let i = choose|i: int| 0 <= i < keys.len() && keys[i] == k;
                            assert(entries.contains(entries[i]));
                        }
                    }
                    assert(object.dom() =~= keys.to_set());
                    lemma_sorted_keys_of_increasing(keys);
                    assert forall|i: int| 0 <= i < entries.len() implies entries[i]
                        == JsonView::typed_entries(object)[i] by {
                        assert(entries.contains(entries[i]));
                    }
                    assert(entries =~= JsonView::typed_entries(object));
                    assert forall|k: Seq<char>| object.dom().contains(k) implies (
                    #[trigger] object[k]).valid() by {
                        assert(given.to_set().contains(k));
                        let i = choose|i: int| 0 <= i < given.len() && given[i] == k;
                        assert(object[given[i]].valid());
                    }
                }
                Value::Object(out)
            },
        }
    }
}

/// A float that occurs in an item of an array occurs in the array.
proof fn lemma_item_has_float(items: Seq<ValueView>, at: int, bits: u64)
    requires
        0 <= at < items.len(),
        items[at].has_float(bits),
    ensures
        ValueView::Array(items).has_float(bits),
{
    assert(ValueView::Array(items)->Array_0[at].has_float(bits));
}

/// A float that occurs in the value of an entry of an object occurs in the
/// object.
proof fn lemma_entry_has_float(entries: Seq<(Seq<char>, ValueView)>, at: int, bits: u64)
    requires
        0 <= at < entries.len(),
        entries[at].1.has_float(bits),
    ensures
        ValueView::Object(entries).has_float(bits),
{
    assert(ValueView::Object(entries)->Object_0[at].1.has_float(bits));
}

/// Whether each float that occurs in `value` is finite and has its JSON
/// number in `pool`.
pub open spec fn floats_served(value: ValueView, pool: Seq<JsonNumber>) -> bool {
    forall|bits: u64| #[trigger] value.has_float(bits) ==> N::Float(bits).served(pool)
}

impl Value {
    /// Turns a typed value into the generic JSON value that it stands for.
    /// The JSON numbers for its floats are taken from `floats`; the result is
    /// `None` where one of them is not finite or `floats` lacks its number.
    pub fn to_json(&self, floats: &Vec<JsonNumber>) -> (r: Option<JsonValue>)
        ensures
            r is Some <==> floats_served(self@, floats@),
            r matches Some(json) ==> json_view(json) == self@.generic(),
        decreases self,
    {
        match self {
            Value::Null => Some(json_close(JsonNode::Null)),
            Value::Bool(b) => Some(json_close(JsonNode::Bool(*b))),
            Value::Number(number) => {
                match number.n.to_json(floats) {
                    Some(n) => Some(json_close(JsonNode::Number(n))),
                    None => {
                        assert(self@.has_float(number.n->Float_0));
                        None
                    },
                }
            },
            Value::String(s) => Some(json_close(JsonNode::String(s.clone()))),
            Value::Array(items) => {
                let ghost views = Value::item_views(*items);
                let mut out: Vec<JsonValue> = Vec::new();
                let mut i: usize = 0;
                while i < items.len()
                    invariant
                        i <= items.len(),
                        out.len() == i,
                        self@ == ValueView::Array(views),
                        views == Value::item_views(*items),
                        *self == Value::Array(*items),
                        forall|k: int| 0 <= k < i ==> floats_served(#[trigger] views[k], floats@),
                        forall|k: int|
                            0 <= k < i ==> json_view(#[trigger] out@[k]) == views[k].generic(),
                    decreases items.len() - i,
                {
                    assert(decreases_to!(*self => (*self)->Array_0@[i as int]));
                    assert(views[i as int] == items@[i as int]@);
                    match items[i].to_json(floats) {
                        Some(json) => {
                            out.push(json);
                        },
                        None => {
                            proof {
                                let bits = choose|bits: u64|
                                    views[i as int].has_float(bits) && !N::Float(bits).served(
                                        floats@,
                                    );
                                assert(self@.has_float(bits));
                            }
                            return None;
                        },
                    }
                    i = i + 1;
                }
                let json = json_close(JsonNode::Array(out));
                assert(json_view(json)->Array_0 =~= ValueView::generic_items(views));
                assert forall|bits: u64| #[trigger] self@.has_float(bits) implies N::Float(
                    bits,
                ).served(floats@) by {
                    let k = choose|k: int|
                        0 <= k < views.len() && (#[trigger] views[k]).has_float(bits);
                    assert(floats_served(views[k], floats@));
                }
                Some(json)
            },
            Value::Object(entries) => {
                let ghost views = Value::entry_views(*entries);
                let ghost pairs = ValueView::generic_entries(views);
                let mut m = map_new();
                let mut i: usize = 0;
                while i < entries.len()
                    invariant
                        i <= entries.len(),
                        self@ == ValueView::Object(views),
                        views == Value::entry_views(*entries),
                        pairs == ValueView::generic_entries(views),
                        *self == Value::Object(*entries),
                        forall|k: int| 0 <= k < i ==> floats_served((#[trigger] views[k]).1, floats@),
                        map_view(m) == map_of(pairs.take(i as int)),
                    decreases entries.len() - i,
                {
                    assert(decreases_to!(*self => (*self)->Object_0@[i as int].1));
                    assert(views[i as int].1 == entries@[i as int].1@);
                    match entries[i].1.to_json(floats) {
                        Some(json) => {
                            m = map_insert(m, entries[i].0.clone(), json);
                            assert(pairs.take(i + 1).drop_last() =~= pairs.take(i as int));
                        },
                        None => {
                            proof {
                                let bits = choose|bits: u64|
                                    views[i as int].1.has_float(bits) && !N::Float(bits).served(
                                        floats@,
                                    );
                                assert(self@.has_float(bits));
                            }
                            return None;
                        },
                    }
                    i = i + 1;
                }
                assert(pairs.take(i as int) =~= pairs);
                assert forall|bits: u64| #[trigger] self@.has_float(bits) implies N::Float(
                    bits,
                ).served(floats@) by {
                    let k = choose|k: int|
                        0 <= k < views.len() && (#[trigger] views[k]).1.has_float(bits);
                    assert(floats_served(views[k].1, floats@));
                }
                Some(json_close(JsonNode::Object(m)))
            },
        }
    }

    /// Adds to `out` the bit pattern of each float that occurs in the value.
    pub fn collect_floats(&self, out: &mut Vec<u64>)
        ensures
            forall|bits: u64| #[trigger]
                final(out)@.contains(bits) <==> old(out)@.contains(bits) || self@.has_float(bits),
        decreases self,
    {
        let ghost before = out@;
        match self {
            Value::Number(number) => {
                if let N::Float(bits) = number.n {
                    out.push(bits);
                    assert forall|b: u64| #[trigger]
                        out@.contains(b) <==> before.contains(b) || self@.has_float(b) by {
                        if before.contains(b) {
                            let i = choose|i: int| 0 <= i < before.len() && before[i] == b;
                            assert(out@[i] == b);
                        }
                        if b == bits {
                            assert(out@[before.len() as int] == b);
                        }
                    }
                }
            },
            Value::Array(items) => {
                let ghost views = Value::item_views(*items);
                let mut i: usize = 0;
                while i < items.len()
                    invariant
                        i <= items.len(),
                        views == Value::item_views(*items),
                        *self == Value::Array(*items),
                        forall|bits: u64| #[trigger]
                            out@.contains(bits) <==> before.contains(bits) || exists|k: int|
                                0 <= k < i && (#[trigger] views[k]).has_float(bits),
                    decreases items.len() - i,
                {
                    let ghost mid = out@;
                    assert(decreases_to!(*self => (*self)->Array_0@[i as int]));
                    items[i].collect_floats(out);
                    proof {
                        assert(items@[i as int]@ == views[i as int]);
                        assert forall|b: u64| #[trigger]
                            out@.contains(b) <==> before.contains(b) || exists|k: int|
                                0 <= k < i + 1 && (#[trigger] views[k]).has_float(b) by {
                            if mid.contains(b) && !before.contains(b) {
                                let k = choose|k: int|
                                    0 <= k < i && (#[trigger] views[k]).has_float(b);
                                assert(0 <= k < i + 1 && views[k].has_float(b));
                            }
                            if views[i as int].has_float(b) {
                                assert(out@.contains(b));
                            }
                            if exists|k: int| 0 <= k < i + 1 && (#[trigger] views[k]).has_float(b) {
                                let k = choose|k: int|
                                    0 <= k < i + 1 && (#[trigger] views[k]).has_float(b);
                                if k < i {
                                    assert(mid.contains(b));
                                }
                            }
                        }
                    }
                    i = i + 1;
                }
                assert(self@ == ValueView::Array(views));
                assert forall|b: u64| #[trigger]
                    out@.contains(b) <==> before.contains(b) || self@.has_float(b) by {
                    if self@.has_float(b) {
                        let k = choose|k: int| 0 <= k < views.len() && (#[trigger] views[k]).has_float(b);
                        assert(0 <= k < i && views[k].has_float(b));
                    }
                    if out@.contains(b) && !before.contains(b) {
                        let k = choose|k: int| 0 <= k < i && (#[trigger] views[k]).has_float(b);
                        assert(0 <= k < views.len() && views[k].has_float(b));
                        lemma_item_has_float(views, k, b);
                    }
                }
            },
            Value::Object(entries) => {
                let ghost views = Value::entry_views(*entries);
                let mut i: usize = 0;
                while i < entries.len()
                    invariant
                        i <= entries.len(),
                        views == Value::entry_views(*entries),
                        *self == Value::Object(*entries),
                        forall|bits: u64| #[trigger]
                            out@.contains(bits) <==> before.contains(bits) || exists|k: int|
                                0 <= k < i && (#[trigger] views[k]).1.has_float(bits),
                    decreases entries.len() - i,
                {
                    let ghost mid = out@;
                    assert(decreases_to!(*self => (*self)->Object_0@[i as int].1));
                    entries[i].1.collect_floats(out);
                    proof {
                        assert(entries@[i as int].1@ == views[i as int].1);
                        assert forall|b: u64| #[trigger]
                            out@.contains(b) <==> before.contains(b) || exists|k: int|
                                0 <= k < i + 1 && (#[trigger] views[k]).1.has_float(b) by {
                            if mid.contains(b) && !before.contains(b) {
                                let k = choose|k: int|
                                    0 <= k < i && (#[trigger] views[k]).1.has_float(b);
                                assert(0 <= k < i + 1 && views[k].1.has_float(b));
                            }
                            if views[i as int].1.has_float(b) {
                                assert(out@.contains(b));
                            }
                            if exists|k: int|
                                0 <= k < i + 1 && (#[trigger] views[k]).1.has_float(b) {
                                let k = choose|k: int|
                                    0 <= k < i + 1 && (#[trigger] views[k]).1.has_float(b);
                                if k < i {
                                    assert(mid.contains(b));
                                }
                            }
                        }
                    }
                    i = i + 1;
                }
                assert(self@ == ValueView::Object(views));
                assert forall|b: u64| #[trigger]
                    out@.contains(b) <==> before.contains(b) || self@.has_float(b) by {
                    if self@.has_float(b) {
                        let k = choose|k: int|
                            0 <= k < views.len() && (#[trigger] views[k]).1.has_float(b);
                        assert(0 <= k < i && views[k].1.has_float(b));
                    }
                    if out@.contains(b) && !before.contains(b) {
                        let k = choose|k: int| 0 <= k < i && (#[trigger] views[k]).1.has_float(b);
                        assert(0 <= k < views.len() && views[k].1.has_float(b));
                        lemma_entry_has_float(views, k, b);
                    }
                }
            },
            _ => {},
        }
    }

    /// The bit patterns of the floats that occur in the value.
    pub fn float_bits(&self) -> (r: Vec<u64>)
        ensures
            r@.to_set() == self@.floats(),
    {
        let mut out: Vec<u64> = Vec::new();
        self.collect_floats(&mut out);
        assert(out@.to_set() =~= self@.floats());
        out
    }
}

impl From<JsonValue> for Value {
    /// The typed value for a generic JSON value; see [`Value::from_json`].
    fn from(json: JsonValue) -> (r: Value)
        ensures
            json_view(json).valid(),
            r@ == json_view(json).typed(),
            r@.wf(),
            r@.generic() == json_view(json),
    {
        Value::from_json(&json)
    }
}

/// A typed value is known by its view, so what `from` returns is stated on
/// `from` itself and not as a value.
impl vstd::std_specs::convert::FromSpecImpl<JsonValue> for Value {
    open spec fn obeys_from_spec() -> bool {
        false
    }

    open spec fn from_spec(json: JsonValue) -> Value {
        arbitrary()
    }
}

} // verus!
