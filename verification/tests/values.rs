use fono::decimal::{Amount, ATTOS, ATTO_CAP};
use fono::text::{loose_eq, words};
use fono::value::Json;

fn json(text: &str) -> Json {
    Json::parse(text).expect("the fixture is JSON")
}

fn attos(text: &str) -> Option<i128> {
    match Amount::read(text) {
        Some(Amount::Attos(n)) => Some(n),
        _ => None,
    }
}

#[test]
fn amounts_are_read_as_a_float_is_written() {
    assert_eq!(attos("0"), Some(0));
    assert_eq!(attos("21.5"), Some(ATTOS * 43 / 2));
    assert_eq!(attos("-.5"), Some(-ATTOS / 2));
    assert_eq!(attos("+5."), Some(5 * ATTOS));
    assert_eq!(attos("1e-3"), Some(ATTOS / 1000));
    assert_eq!(attos("12E+1"), Some(120 * ATTOS));
    assert_eq!(attos("1e400"), Some(ATTO_CAP), "held at the most that is told apart");
    assert_eq!(Amount::read("-inf"), Some(Amount::Infinite { negative: true }));
    assert_eq!(Amount::read("+Infinity"), Some(Amount::Infinite { negative: false }));
    assert_eq!(attos("0.1234567890123456789"), Some(123_456_789_012_345_678));
    assert_eq!(Amount::read("NaN"), Some(Amount::NotANumber));
    for bad in ["", ".", "e5", "1e", "1.2.3", "0x10", "1 ", "--1", "1_000", "in"] {
        assert_eq!(Amount::read(bad), None, "{bad:?} is no number");
    }
}

/// What Rust reads as a number is read here, and nothing else is.
#[test]
fn the_grammar_of_amounts_is_that_of_floats() {
    for text in [
        "0", "-0", "1", "1.", ".1", ".", "", "+", "-", "1e1", "1e", "1e+", "1e-2", "1.5e2", "inf",
        "Infinity", "nan", "+nan", "1d", "٣", "1,5", " 1", "infinit", "-infinity",
    ] {
        assert_eq!(
            Amount::read(text).is_some(),
            text.parse::<f64>().is_ok(),
            "{text:?} is read differently"
        );
    }
}

#[test]
fn json_reads_and_writes_back() {
    for text in [
        "null",
        "true",
        "-12",
        "1.5",
        "\"a\\\"b\\\\c\\n\\u0007ă\"",
        "[]",
        "[1,[2],{}]",
        "{\"a\":{\"b\":[null,false]},\"c\":\"d\"}",
    ] {
        let value = json(text);
        assert_eq!(value.to_text(), text);
        assert_eq!(json(&value.to_text()), value);
        assert_eq!(value.clone(), value);
    }
    assert_eq!(Json::parse("{"), None);
    assert_eq!(Json::parse("{\"a\":1}trailing"), None);
    assert_eq!(json("{\"b\":1,\"a\":2}").to_text(), "{\"a\":2,\"b\":1}", "members are in order");
}

#[test]
fn json_is_looked_into() {
    let v = json("{\"a\": \"x\", \"b\": [1, 2], \"c\": null}");
    assert_eq!(v.get("a").and_then(Json::as_text), Some("x"));
    assert_eq!(v.get("b").and_then(Json::as_list).map(Vec::len), Some(2));
    assert_eq!(v.get("c"), Some(&Json::Null));
    assert_eq!(v.get("d"), None);
    assert_eq!(json("[1]").get("a"), None);
    assert!(json("3").is_whole_number());
    assert!(json("3.0").is_whole_number());
    assert!(!json("3.5").is_whole_number());
    assert!(!json("\"3\"").is_whole_number());
}

/// Equality is that of `serde_json`: a whole number and a float of the same
/// worth are different, and two ways to write one float are not.
#[test]
fn numbers_are_equal_where_they_are_the_same_number() {
    for (a, b) in [
        ("1", "1"),
        ("1", "1.0"),
        ("1.0", "1e0"),
        ("1.50", "1.5"),
        ("0.0", "-0.0"),
        ("-1", "1"),
        ("100", "1e2"),
        ("[1, {\"a\": 1.0}]", "[1, {\"a\": 1e0}]"),
    ] {
        let left = serde_json::from_str::<serde_json::Value>(a).unwrap();
        let right = serde_json::from_str::<serde_json::Value>(b).unwrap();
        assert_eq!(json(a) == json(b), left == right, "{a} and {b}");
    }
}

#[test]
fn names_are_held_against_each_other_by_their_words() {
    assert_eq!(words("Salt-Lamp  (Hall)"), vec!["salt", "lamp", "hall"]);
    assert!(words(" -- ").is_empty());
    assert!(loose_eq("Boxa birou", "boxa  BIROU"));
    assert!(loose_eq("living-room", "Living room"));
    assert!(!loose_eq("living room", "room living"));
}
