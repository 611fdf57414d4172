use serde_json::Map as JsonMap;
use serde_json::Number as JsonNumber;
use serde_json::Value as JsonValue;
use typed_json::value::insert_entry;
use typed_json::{Number, Value, N};

fn parse(text: &str) -> JsonValue {
    serde_json::from_str(text).unwrap()
}

fn unsigned(u: u64) -> Value {
    Value::Number(Number { n: N::PosInt(u) })
}

fn pool_for(value: &Value) -> Vec<JsonNumber> {
    let mut pool = Vec::new();
    for bits in value.float_bits() {
        pool.push(JsonNumber::from_f64(f64::from_bits(bits)).unwrap());
    }
    pool
}

fn round_trip(json: &JsonValue) -> JsonValue {
    let typed = Value::from_json(json);
    typed.to_json(&pool_for(&typed)).unwrap()
}

#[test]
fn an_object_is_kept_in_key_order() {
    let mut m = JsonMap::new();
    m.insert("b".to_string(), JsonValue::from(1u64));
    m.insert("a".to_string(), JsonValue::from(2u64));
    let typed = Value::from_json(&JsonValue::Object(m));
    assert_eq!(
        typed,
        Value::Object(vec![("a".to_string(), unsigned(2)), ("b".to_string(), unsigned(1))])
    );
}

#[test]
fn a_mixed_array_keeps_its_items_and_comes_back() {
    let json = parse(r#"[null, true, "x", [1, 2]]"#);
    let typed = Value::from_json(&json);
    assert_eq!(
        typed,
        Value::Array(vec![
            Value::Null,
            Value::Bool(true),
            Value::String("x".to_string()),
            Value::Array(vec![unsigned(1), unsigned(2)]),
        ])
    );
    assert_eq!(typed.to_json(&Vec::new()), Some(json));
}

#[test]
fn an_empty_array_round_trips() {
    let json = parse("[]");
    assert_eq!(Value::from_json(&json), Value::Array(Vec::new()));
    assert_eq!(round_trip(&json), json);
}

#[test]
fn an_empty_object_round_trips() {
    let json = parse("{}");
    assert_eq!(Value::from_json(&json), Value::Object(Vec::new()));
    assert_eq!(round_trip(&json), json);
}

#[test]
fn scalars_map_one_for_one() {
    assert_eq!(Value::from_json(&JsonValue::Null), Value::Null);
    assert_eq!(Value::from_json(&JsonValue::Bool(false)), Value::Bool(false));
    assert_eq!(Value::from_json(&JsonValue::Bool(true)), Value::Bool(true));
    assert_eq!(Value::from_json(&parse("0")), unsigned(0));
    assert_eq!(Value::from_json(&parse("-5")), Value::Number(Number { n: N::NegInt(-5) }));
    assert_eq!(
        Value::from_json(&parse("3.14")),
        Value::Number(Number { n: N::Float(3.14f64.to_bits()) })
    );
}

#[test]
fn a_string_is_copied_as_it_is() {
    let text = "line\n\"quoted\" \\ tab\t é € 𝄞";
    let json = JsonValue::String(text.to_string());
    assert_eq!(Value::from_json(&json), Value::String(text.to_string()));
    assert_eq!(round_trip(&json), json);
    assert_eq!(Value::from_json(&JsonValue::String(String::new())), Value::String(String::new()));
}

#[test]
fn scalars_come_back_as_they_were() {
    for text in ["null", "true", "false", "0", "-5", "3.14", "18446744073709551615", "\"x\""] {
        let json = parse(text);
        assert_eq!(round_trip(&json), json);
    }
}

#[test]
fn a_nested_document_round_trips() {
    let json = parse(
        r#"{"name": "widget", "tags": ["a", "b", []], "size": {"w": 1.5, "h": -2, "d": 7},
            "none": null, "ok": true, "deep": [[[{"k": [0.25, {"z": {}}]}]]]}"#,
    );
    assert_eq!(round_trip(&json), json);
}

#[test]
fn the_typed_value_of_a_nested_document_is_sorted_at_every_depth() {
    let json = parse(r#"{"z": {"b": 1, "a": [{"y": 2, "x": 3}]}, "m": 4}"#);
    let expected = Value::Object(vec![
        ("m".to_string(), unsigned(4)),
        (
            "z".to_string(),
            Value::Object(vec![
                (
                    "a".to_string(),
                    Value::Array(vec![Value::Object(vec![
                        ("x".to_string(), unsigned(3)),
                        ("y".to_string(), unsigned(2)),
                    ])]),
                ),
                ("b".to_string(), unsigned(1)),
            ]),
        ),
    ]);
    assert_eq!(Value::from_json(&json), expected);
}

#[test]
fn insertion_order_does_not_show_in_the_typed_value() {
    let mut first = JsonMap::new();
    first.insert("one".to_string(), JsonValue::from(1u64));
    first.insert("two".to_string(), JsonValue::from("2"));
    first.insert("three".to_string(), JsonValue::Null);
    let mut second = JsonMap::new();
    second.insert("three".to_string(), JsonValue::Null);
    second.insert("one".to_string(), JsonValue::from(1u64));
    second.insert("two".to_string(), JsonValue::from("2"));
    let a = Value::from_json(&JsonValue::Object(first));
    let b = Value::from_json(&JsonValue::Object(second));
    assert_eq!(a, b);
    assert_eq!(
        a,
        Value::Object(vec![
            ("one".to_string(), unsigned(1)),
            ("three".to_string(), Value::Null),
            ("two".to_string(), Value::String("2".to_string())),
        ])
    );
}

#[test]
fn a_key_given_twice_keeps_its_last_value() {
    let json = parse(r#"{"k": 1, "j": 0, "k": 2}"#);
    assert_eq!(
        Value::from_json(&json),
        Value::Object(vec![("j".to_string(), unsigned(0)), ("k".to_string(), unsigned(2))])
    );
}

#[test]
fn typed_to_generic_and_back_gives_the_same_typed_value() {
    let typed = Value::Object(vec![
        ("a".to_string(), Value::Array(vec![Value::Null, Value::Bool(false)])),
        ("b".to_string(), Value::Number(Number { n: N::Float(0.5f64.to_bits()) })),
        ("c".to_string(), Value::Number(Number { n: N::NegInt(-3) })),
        ("d".to_string(), Value::Object(vec![("e".to_string(), Value::String("f".to_string()))])),
    ]);
    let json = typed.to_json(&pool_for(&typed)).unwrap();
    assert_eq!(Value::from_json(&json), typed);
    assert_eq!(Value::from(json), typed);
}

#[test]
fn a_typed_object_gives_a_generic_object_with_its_entries() {
    let typed = Value::Object(vec![("a".to_string(), unsigned(2)), ("b".to_string(), unsigned(1))]);
    let json = typed.to_json(&Vec::new()).unwrap();
    assert_eq!(json, parse(r#"{"b": 1, "a": 2}"#));
    assert_eq!(json.as_object().unwrap().len(), 2);
}

#[test]
fn of_two_typed_entries_with_one_key_the_later_stays() {
    let typed = Value::Object(vec![
        ("k".to_string(), unsigned(1)),
        ("a".to_string(), unsigned(0)),
        ("k".to_string(), unsigned(2)),
    ]);
    assert_eq!(typed.to_json(&Vec::new()), Some(parse(r#"{"a": 0, "k": 2}"#)));
}

#[test]
fn a_value_with_a_float_needs_the_number_for_it() {
    let typed = Value::Array(vec![
        unsigned(1),
        Value::Object(vec![("x".to_string(), Value::Number(Number { n: N::Float(1.5f64.to_bits()) }))]),
    ]);
    assert_eq!(typed.to_json(&Vec::new()), None);
    assert_eq!(typed.to_json(&vec![JsonNumber::from_f64(2.5).unwrap()]), None);
    assert_eq!(
        typed.to_json(&vec![JsonNumber::from_f64(1.5).unwrap()]),
        Some(parse(r#"[1, {"x": 1.5}]"#))
    );
}

#[test]
fn a_float_that_is_not_finite_stops_the_conversion() {
    let typed = Value::Array(vec![Value::Number(Number { n: N::Float(f64::INFINITY.to_bits()) })]);
    assert_eq!(typed.float_bits(), vec![f64::INFINITY.to_bits()]);
    assert_eq!(typed.to_json(&vec![JsonNumber::from_f64(1.0).unwrap()]), None);
}

#[test]
fn the_floats_of_a_value_are_collected() {
    let json = parse(r#"{"a": [1.5, 2, {"b": -0.25}], "c": "x", "d": 1.5, "e": null}"#);
    let typed = Value::from_json(&json);
    let mut bits = typed.float_bits();
    bits.sort();
    bits.dedup();
    let mut expected = vec![1.5f64.to_bits(), (-0.25f64).to_bits()];
    expected.sort();
    assert_eq!(bits, expected);
    assert_eq!(Value::from_json(&parse(r#"[1, "x", {"k": -2}]"#)).float_bits(), Vec::<u64>::new());
}

#[test]
fn floats_are_added_to_what_was_collected() {
    let mut out = vec![7u64];
    Value::Number(Number { n: N::Float(9) }).collect_floats(&mut out);
    Value::Number(Number { n: N::PosInt(3) }).collect_floats(&mut out);
    Value::Null.collect_floats(&mut out);
    assert_eq!(out, vec![7, 9]);
}

#[test]
fn an_entry_goes_to_the_place_of_its_key() {
    let mut entries = Vec::new();
    for key in ["m", "c", "x", "a", "q"] {
        insert_entry(&mut entries, key.to_string(), Value::String(key.to_string()));
    }
    let keys: Vec<&str> = entries.iter().map(|e| e.0.as_str()).collect();
    assert_eq!(keys, vec!["a", "c", "m", "q", "x"]);
    for (key, value) in &entries {
        assert_eq!(value, &Value::String(key.clone()));
    }
}

#[test]
fn an_entry_takes_the_place_of_the_entry_with_its_key() {
    let mut entries = Vec::new();
    insert_entry(&mut entries, "b".to_string(), unsigned(1));
    insert_entry(&mut entries, "a".to_string(), unsigned(2));
    insert_entry(&mut entries, "c".to_string(), unsigned(3));
    insert_entry(&mut entries, "b".to_string(), unsigned(4));
    insert_entry(&mut entries, "a".to_string(), unsigned(5));
    insert_entry(&mut entries, "c".to_string(), unsigned(6));
    assert_eq!(
        entries,
        vec![
            ("a".to_string(), unsigned(5)),
            ("b".to_string(), unsigned(4)),
            ("c".to_string(), unsigned(6)),
        ]
    );
}

#[test]
fn keys_are_ordered_by_their_bytes() {
    let json = parse(r#"{"é": 1, "z": 2, "Z": 3, "": 4, "zz": 5, "€": 6, "10": 7, "9": 8}"#);
    let typed = Value::from_json(&json);
    let keys: Vec<String> = match typed {
        Value::Object(entries) => entries.into_iter().map(|e| e.0).collect(),
        _ => Vec::new(),
    };
    assert_eq!(keys, vec!["", "10", "9", "Z", "z", "zz", "é", "€"]);
}

#[test]
fn a_large_object_is_sorted_like_the_standard_order() {
    let mut m = JsonMap::new();
    let mut expected = Vec::new();
    for i in 0..200u64 {
        let key = format!("k{}", (i * 7919) % 1000);
        m.insert(key.clone(), JsonValue::from(i));
        expected.push(key);
    }
    expected.sort();
    expected.dedup();
    let keys: Vec<String> = match Value::from_json(&JsonValue::Object(m)) {
        Value::Object(entries) => entries.into_iter().map(|e| e.0).collect(),
        _ => Vec::new(),
    };
    assert_eq!(keys, expected);
}
