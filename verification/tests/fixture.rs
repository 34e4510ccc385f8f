use fono::bench_actions::fixture::{args_match, render, Class};
use fono::value::Json;

fn json(text: &str) -> Json {
    Json::parse(text).expect("the fixture is JSON")
}

#[test]
fn a_subset_of_arguments_matches() {
    let want = json(r#"{"area": "Office"}"#);
    assert!(args_match(&want, &json(r#"{"area": "Office", "domain": ["light"]}"#)));
}

#[test]
fn a_missing_argument_does_not_match() {
    assert!(!args_match(&json(r#"{"area": "Office"}"#), &json(r#"{"name": "Lamp"}"#)));
}

/// Array order is not part of the request.
#[test]
fn arrays_compare_as_sets() {
    assert!(args_match(&json(r#"{"d": ["light", "fan"]}"#), &json(r#"{"d": ["fan", "light"]}"#)));
}

/// An over-broad domain list is a different request and must be caught — this is
/// the recorded failure where asking for a room's lights also started the air
/// conditioning.
#[test]
fn an_over_broad_array_does_not_match() {
    assert!(!args_match(&json(r#"{"d": ["light"]}"#), &json(r#"{"d": ["light", "switch"]}"#)));
}

#[test]
fn strings_ignore_case() {
    assert!(args_match(&json(r#"{"area": "office"}"#), &json(r#"{"area": "Office"}"#)));
}

#[test]
fn renders_both_slots() {
    assert_eq!(render("turn on the {device}", "Hall lamp", None), "turn on the Hall lamp");
    assert_eq!(
        render("aprinde luminile din {area}", "x", Some("Office")),
        "aprinde luminile din Office"
    );
}

#[test]
fn a_slot_without_an_area_is_empty() {
    assert_eq!(render("{device} in {area}.", "Lamp", None), "Lamp in .");
    assert_eq!(render("{device}{device}", "a", Some("b")), "aa");
}

#[test]
fn numbers_and_nothing_are_held_exactly() {
    assert!(args_match(&json("{\"b\": 50}"), &json("{\"b\": 50}")));
    assert!(!args_match(&json("{\"b\": 50}"), &json("{\"b\": 51}")));
    assert!(!args_match(&json("{\"b\": 50}"), &json("null")), "nothing matches a request");
    assert!(!args_match(&json("{\"b\": 50}"), &json("{\"b\": \"50\"}")));
    assert!(args_match(&json("{}"), &json("{\"b\": 50}")));
    assert!(args_match(&json("[[1, 2]]"), &json("[[2, 1]]")));
}

#[test]
fn a_class_is_told_by_its_name() {
    for class in [
        Class::PlainCommand,
        Class::RoomCommand,
        Class::ToolChoice,
        Class::InventedArgument,
        Class::MisleadingName,
        Class::NonIdempotent,
        Class::MustNotAct,
    ] {
        assert_eq!(class.to_text(), format!("{class:?}"));
    }
}

/// A list is a set both ways: everything asked for is there, and everything
/// there is asked for, however often it is written.
#[test]
fn a_list_that_holds_anything_else_is_another_request() {
    assert!(!args_match(&json(r#"["light", "light"]"#), &json(r#"["light", "fan"]"#)));
    assert!(!args_match(&json(r#"["light", "fan"]"#), &json(r#"["light", "light"]"#)));
    assert!(args_match(&json(r#"["light"]"#), &json(r#"["light", "LIGHT"]"#)));
    assert!(args_match(&json(r#"["light", "light"]"#), &json(r#"["light"]"#)));
    assert!(!args_match(&json(r#"[]"#), &json(r#"["light"]"#)));
    assert!(!args_match(&json(r#"["light"]"#), &json(r#"[]"#)));
    assert!(args_match(&json(r#"[]"#), &json(r#"[]"#)));
    assert!(args_match(&json(r#"[{"a": 1}]"#), &json(r#"[{"a": 1, "b": 2}]"#)));
}

#[test]
fn arguments_agree_with_themselves_and_with_more() {
    let v = json(r#"{"a": [1, {"b": null}], "c": {"d": "x"}, "e": true}"#);
    assert!(args_match(&v, &v));
    let more = json(r#"{"0": 1, "a": [1, {"b": null, "z": 2}], "b": 3, "c": {"d": "x", "y": []}, "e": true}"#);
    assert!(args_match(&v, &more));
    assert!(!args_match(&more, &v), "a missing argument always fails");
}
