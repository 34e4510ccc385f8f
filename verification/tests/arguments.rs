use fono::actions::arguments::{
    drop_any_kind, drop_empty_arguments, matches_json_type, prepare, prepare_args, read_args,
    schema_complaint, Device, HouseFacts, ANY_KIND,
};
use fono::actions::call::ToolCall;
use fono::actions::vendor::SlotFields;
use fono::value::Json;

fn json(text: &str) -> Json {
    Json::parse(text).expect("the fixture is JSON")
}

/// Verbatim from a trace: asked to turn the kitchen lights off, a small local
/// model filled in every field the tool advertises, two of them with nothing.
#[test]
fn a_blank_argument_is_not_sent_to_the_server() {
    let args = json(
        r#"{
            "area": "Kitchen",
            "domain": ["light"],
            "floor": null,
            "name": "",
            "device_class": [],
            "extra": {"nested": null, "kept": "yes"}
        }"#,
    );
    assert_eq!(
        drop_empty_arguments(&args),
        json(r#"{"area": "Kitchen", "domain": ["light"], "extra": {"kept": "yes"}}"#)
    );
}

/// A real value of every shape survives, including the ones that look empty but
/// are not.
#[test]
fn a_real_argument_is_passed_through_untouched() {
    let args = json(
        r#"{"brightness": 0, "on": false, "name": "Kitchen lights", "domain": ["light", "switch"]}"#,
    );
    assert_eq!(drop_empty_arguments(&args), args);
}

#[test]
fn the_word_for_everything_never_reaches_the_server() {
    let args = json(&format!(r#"{{"area": "Kitchen", "domain": ["{ANY_KIND}"]}}"#));
    // Both rules run together on the real path, in this order.
    assert_eq!(
        drop_empty_arguments(&drop_any_kind(&args)),
        json(r#"{"area": "Kitchen"}"#),
        "the whole field goes, not just the word — a list with it removed asks for nothing"
    );

    // A bare string form is handled too, since a schema may not use a list.
    let args = json(&format!(r#"{{"domain": "{ANY_KIND}"}}"#));
    assert_eq!(drop_empty_arguments(&drop_any_kind(&args)), json("{}"));
}

#[test]
fn a_real_kind_of_device_is_left_alone() {
    let args = json(r#"{"area": "Kitchen", "domain": ["light"]}"#);
    assert_eq!(drop_any_kind(&args), args);
}

fn fields() -> SlotFields {
    SlotFields {
        place: Some("area"),
        wider_place: Some("floor"),
        device: Some("name"),
        kind: Some("domain"),
    }
}

/// A house with one of each, plus a name two devices answer to.
fn house() -> HouseFacts {
    HouseFacts {
        slots: fields(),
        kind_of: vec![
            ("air conditioner".to_string(), "climate".to_string()),
            ("balcony lights".to_string(), "light".to_string()),
        ],
        sole: vec!["air conditioner".to_string(), "balcony lights".to_string()],
    }
}

#[test]
fn a_kind_that_contradicts_the_named_device_is_corrected() {
    let (fixed, note) =
        house().agree(&json(r#"{"name": "Air conditioner", "domain": ["light"]}"#));
    assert_eq!(fixed, json(r#"{"name": "Air conditioner", "domain": ["climate"]}"#));
    assert!(note.is_some_and(|n| n.contains("climate")), "the correction is written down");

    // Whatever shape it was written in is the shape the schema asked for.
    let (fixed, _) = house().agree(&json(r#"{"name": "Air conditioner", "domain": "light"}"#));
    assert_eq!(fixed, json(r#"{"name": "Air conditioner", "domain": "climate"}"#));
}

#[test]
fn nothing_is_corrected_without_grounds() {
    let h = house();
    for args in [
        json(r#"{"name": "Air conditioner", "domain": ["climate"]}"#),
        json(r#"{"name": "Something else entirely", "domain": ["light"]}"#),
        json(r#"{"area": "Kitchen", "domain": ["light"]}"#),
        json(r#"{"name": "Air conditioner"}"#),
    ] {
        let (out, note) = h.agree(&args);
        assert_eq!(out, args, "left alone");
        assert_eq!(note, None);
    }

    let unknown = HouseFacts { slots: SlotFields::default(), ..house() };
    let args = json(r#"{"name": "Air conditioner", "domain": ["light"]}"#);
    assert_eq!(unknown.agree(&args), (args.clone(), None), "no field names, no opinion");
}

#[test]
fn an_area_named_beside_one_device_is_dropped() {
    let (fixed, note) = house().agree(&json(
        r#"{"name": "Air conditioner", "area": "Office", "floor": "1", "domain": ["light"]}"#,
    ));
    assert_eq!(fixed, json(r#"{"name": "Air conditioner", "domain": ["climate"]}"#));
    let note = note.expect("both repairs are written down");
    assert!(note.contains("climate"), "{note}");
    assert!(note.contains("area") && note.contains("floor"), "{note}");
}

#[test]
fn an_area_that_is_still_doing_work_stays() {
    let mut h = house();
    h.sole.retain(|n| n != "air conditioner");
    let args = json(r#"{"name": "Air conditioner", "area": "Office"}"#);
    assert_eq!(h.agree(&args), (args.clone(), None), "two devices share the name");

    let args = json(r#"{"name": "Something else entirely", "area": "Office"}"#);
    assert_eq!(house().agree(&args), (args.clone(), None), "never heard of it");
}

#[test]
fn a_value_outside_the_advertised_enumeration_is_named() {
    let schema = json(
        r#"{"properties": {
            "area": {"type": "string"},
            "color": {"enum": ["red", "white", "warm white"]}
        }}"#,
    );
    let args = json(r##"{"area": "Master bedroom", "color": "#FFFFFF"}"##);
    let complaint = schema_complaint(&schema, &args).expect("an invented colour is a complaint");
    assert!(complaint.contains("color"), "{complaint}");
    assert!(complaint.contains("red"), "the allowed values belong in the sentence: {complaint}");
}

#[test]
fn a_value_of_the_wrong_type_is_named() {
    let schema = json(r#"{"properties": {"name": {"type": "string"}}}"#);
    let complaint =
        schema_complaint(&schema, &json(r#"{"name": 7}"#)).expect("a number is not a name");
    assert!(complaint.contains("name must be a string"), "{complaint}");
}

#[test]
fn the_schema_check_refuses_only_what_the_server_plainly_forbids() {
    let schema = json(
        r#"{
            "properties": {
                "area": {"type": "string"},
                "temperature": {"type": "integer"}
            },
            "required": ["area", "missing_one"]
        }"#,
    );
    let args = json(
        r#"{"area": "Office", "temperature": 21.0, "undocumented": "servers extend themselves"}"#,
    );
    assert_eq!(schema_complaint(&schema, &args), None);
    // A tool that advertises nothing can never be complained about.
    assert_eq!(schema_complaint(&json("{}"), &args), None);
}

#[test]
fn dropping_blanks_twice_is_dropping_them_once() {
    let args = json(r#"{"a": {"b": [], "c": {"d": null}}, "e": [null, "", {}], "f": 1}"#);
    let once = drop_empty_arguments(&args);
    assert_eq!(drop_empty_arguments(&once), once);
}

#[test]
fn agreeing_twice_is_agreeing_once() {
    let args = json(
        r#"{"name": "Air conditioner", "area": "Office", "floor": "1", "domain": ["light"]}"#,
    );
    let (once, _) = house().agree(&args);
    assert_eq!(house().agree(&once), (once.clone(), None));
}

#[test]
fn every_json_type_is_told_apart() {
    for (want, value) in [
        ("string", "\"x\""),
        ("boolean", "true"),
        ("array", "[1]"),
        ("object", "{\"a\": 1}"),
        ("number", "1.5"),
        ("integer", "21.0"),
        ("null", "null"),
    ] {
        assert!(matches_json_type(want, &json(value)), "{value} is a {want}");
    }
    assert!(!matches_json_type("string", &json("1")));
    assert!(!matches_json_type("integer", &json("21.5")));
    assert!(!matches_json_type("array", &json("{}")));
    assert!(matches_json_type("no such type", &json("1")), "an unknown type forbids nothing");
}

#[test]
fn a_house_is_learned_from_what_it_reported() {
    let device = |name: &str, domain: &str| Device { name: name.into(), domain: domain.into() };
    let facts = HouseFacts::learn(
        &vec![
            device("Air conditioner", "climate"),
            device("Lamp", "light"),
            device("Lamp", "light"),
        ],
        &vec!["HassTurnOn", "HassTurnOff", "GetLiveContext"],
    );
    let (fixed, note) =
        facts.agree(&json(r#"{"name": "Air conditioner", "area": "Office", "domain": "light"}"#));
    assert_eq!(fixed, json(r#"{"name": "Air conditioner", "domain": "climate"}"#));
    assert!(note.is_some());
    let args = json(r#"{"name": "Lamp", "area": "Office"}"#);
    assert_eq!(facts.agree(&args), (args.clone(), None), "two devices answer to that name");
}

#[test]
fn a_house_nobody_reported_has_no_opinion() {
    let args = json(r#"{"name": "Air conditioner", "domain": ["light"]}"#);
    assert_eq!(HouseFacts::none().agree(&args), (args.clone(), None));
}

#[test]
fn arguments_are_mended_before_they_are_checked() {
    let schema = json(r#"{"properties": {"domain": {"type": "array"}, "area": {"type": "string"}}}"#);
    let args = json(&format!(r#"{{"area": "", "domain": ["{ANY_KIND}"], "name": "X"}}"#));
    let ready = prepare(&schema, &HouseFacts::none(), &args);
    assert_eq!(ready.args, json(r#"{"name": "X"}"#));
    assert!(ready.corrected.is_none());
    assert!(ready.complaint.is_none());
}

#[test]
fn a_call_the_schema_forbids_is_not_sent() {
    let schema = json(r#"{"properties": {"name": {"type": "string"}}}"#);
    let call = ToolCall { id: "1".into(), name: "T".into(), arguments: r#"{"name": 7}"#.into() };
    match prepare_args(&schema, &HouseFacts::none(), &call) {
        Err((sent, why)) => {
            assert!(why.starts_with("T was not sent: "), "{why}");
            assert!(why.contains("name must be a string"), "{why}");
            assert_eq!(sent, r#"{"name":7}"#);
        }
        Ok(_) => panic!("a number is not a name"),
    }
    let call = ToolCall { id: "1".into(), name: "T".into(), arguments: r#"{"name": "x"}"#.into() };
    assert_eq!(
        prepare_args(&schema, &HouseFacts::none(), &call).ok(),
        Some(json(r#"{"name":"x"}"#))
    );
}

#[test]
fn arguments_that_are_no_json_are_nothing() {
    assert_eq!(read_args("not json at all"), Json::Null);
    assert_eq!(read_args(r#"{"a": 1}"#), json(r#"{"a": 1}"#));
}

/// There is a note exactly where something changed, and nothing but the kind and
/// the places can.
#[test]
fn a_note_tells_of_every_correction_and_of_nothing_else() {
    let args = json(r#"{"name": "Air conditioner", "domain": "light", "area": "Attic", "speed": 3}"#);
    let (out, note) = house().agree(&args);
    assert_ne!(out, args);
    assert!(note.is_some());
    assert_eq!(out.get("name"), args.get("name"));
    assert_eq!(out.get("speed"), args.get("speed"));

    let fine = json(r#"{"name": "Air conditioner", "domain": "climate", "speed": 3}"#);
    assert_eq!(house().agree(&fine), (fine.clone(), None));
    let unknown = json(r#"{"name": "Toaster", "domain": "light", "area": "Attic"}"#);
    assert_eq!(house().agree(&unknown), (unknown.clone(), None));
}
