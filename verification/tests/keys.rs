use typed_json::order::key_less;

#[test]
fn a_key_comes_before_a_key_with_a_larger_byte() {
    assert!(key_less("a", "b"));
    assert!(!key_less("b", "a"));
    assert!(key_less("ab", "ac"));
    assert!(key_less("Z", "a"));
    assert!(key_less("10", "9"));
}

#[test]
fn a_key_comes_before_the_keys_that_it_begins() {
    assert!(key_less("", "a"));
    assert!(key_less("a", "aa"));
    assert!(!key_less("aa", "a"));
    assert!(!key_less("a", ""));
}

#[test]
fn a_key_does_not_come_before_itself() {
    assert!(!key_less("", ""));
    assert!(!key_less("abc", "abc"));
    assert!(!key_less("é", "é"));
}

#[test]
fn keys_outside_ascii_are_ordered_by_their_encoding() {
    assert!(key_less("z", "é"));
    assert!(key_less("é", "€"));
    assert!(key_less("€", "𝄞"));
    assert!(!key_less("𝄞", "z"));
}

#[test]
fn the_key_order_is_the_order_of_strings() {
    let keys = ["", "a", "A", "aa", "ab", "b", "é", "z", "€", "10", "9", "\u{0}", "a\u{0}"];
    for a in keys {
        for b in keys {
            assert_eq!(key_less(a, b), a < b);
        }
    }
}
