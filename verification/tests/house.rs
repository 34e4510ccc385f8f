use fono::bench_actions::house::{inner_dump, Entity, House, Level};
use fono::bench_actions::requirement::{name_suggests_domain, Requirement};
use fono::decimal::Amount;
use fono::value::Json;

fn degrees(text: &str) -> Level {
    Level::TargetTemperature(Amount::read(text).expect("a number"))
}


const DUMP: &str = "\
- names: Ceiling lamp
  domain: light
  state: 'off'
  brightness: 128
  areas: Office
- names: Office AC
  domain: climate
  state: 'off'
  areas: Office
- names: Front door
  domain: lock
  state: locked
  areas: Hallway
- names: Hall lamp
  domain: light
  state: 'on'
  areas: Hallway
- names: Garage door
  domain: cover
  state: closed
  areas: Hallway
";

#[test]
fn parses_entities_with_areas_and_state() {
    let h = House::parse(DUMP);
    assert_eq!(h.entities.len(), 5);
    let lamp = h.get("Ceiling lamp").unwrap();
    assert_eq!(lamp.domain, "light");
    assert_eq!(lamp.areas, vec!["Office"]);
    assert_eq!(lamp.state.as_deref(), Some("off"));
    assert!(lamp.is_adjustable());
    assert!(!h.get("Hall lamp").unwrap().is_adjustable());
}

/// A benchmark runs unattended, so it never picks the front door or the
/// garage — regardless of the fact that the model is still offered both.
#[test]
fn locks_and_garages_are_never_targeted() {
    let h = House::parse(DUMP);
    assert!(!h.get("Front door").unwrap().safe_to_target());
    assert!(!h.get("Garage door").unwrap().safe_to_target());
    assert!(h.get("Ceiling lamp").unwrap().safe_to_target());
}

/// A motion sensor reports `on` and `off` exactly as a lamp does, and the
/// restore pass reaches every entity rather than only the ones a fixture
/// named. Without this it tried to switch a sensor back and the house
/// refused, ending a clean run by warning the home might be left changed.
#[test]
fn a_reading_is_never_targeted() {
    let h = House::parse(
        "- names: Office PIR\n  domain: binary_sensor\n  state: 'on'\n- names: Hall temp\n  \
         domain: sensor\n  state: '20'\n",
    );
    assert!(h.get("Office PIR").unwrap().is_reading());
    assert!(!h.get("Office PIR").unwrap().safe_to_target());
    assert!(!h.get("Hall temp").unwrap().safe_to_target());
    assert!(!h.get("Ceiling lamp").is_some_and(Entity::is_reading));
}

/// A house where two entities answer to one word. The server refuses such
/// a name outright rather than choosing, so the fixture must pick the
/// other lamp — aiming at the twin measured the house, and took the run
/// down at the staging step before the model was even asked.
#[test]
fn a_name_two_devices_answer_to_is_never_targeted() {
    let h = House::parse(
        "- names: Couch\n  domain: light\n  state: 'off'\n  brightness: 40\n  areas: \
         Living\n- names: Couch\n  domain: media_player\n  state: 'off'\n  areas: Living\n- \
         names: Reading lamp\n  domain: light\n  state: 'off'\n  brightness: 90\n  areas: \
         Living\n",
    );
    let couch = h.get("Couch").unwrap();
    assert!(couch.safe_to_target(), "a lamp is safe in itself");
    assert!(!h.addressable(couch), "but the server cannot be asked for it");
    assert!(!h.targetable(couch));

    // Every requirement routes around it, including the one that asks by
    // name and the one that stages a whole area.
    for req in [
        Requirement::Device { domain: "light".into() },
        Requirement::AdjustableDevice { domain: "light".into() },
        Requirement::NamedArea { area: "Living".into(), domain: "light".into() },
    ] {
        let t = req.resolve(&h).unwrap();
        assert_eq!(t.device.name, "Reading lamp", "{req:?} picked an uncommandable device");
        assert!(!t.group_names().contains(&"Couch"), "{req:?} staged an uncommandable device");
    }
    let err = Requirement::NamedDevice { name: "Couch".into() }.resolve(&h).unwrap_err();
    assert!(err.0.contains("Couch"));
}

/// A house whose only dimmable lamp happens to be off still yields a
/// target: the level cannot be read until the lamp is lit, so the
/// requirement must be allowed to nominate a candidate and let the run
/// find out. A device that does report one now is still preferred.
#[test]
fn a_level_that_only_appears_when_lit_does_not_lose_the_case() {
    let dark = House::parse(
        "- names: Ceiling\n  domain: light\n  state: 'off'\n  areas: Hall\n- names: Desk\n  \
         domain: light\n  state: 'off'\n  areas: Hall\n",
    );
    let req = Requirement::AdjustableDevice { domain: "light".into() };
    assert_eq!(req.resolve(&dark).unwrap().device.name, "Ceiling");

    let lit = House::parse(
        "- names: Ceiling\n  domain: light\n  state: 'off'\n  areas: Hall\n- names: Desk\n  \
         domain: light\n  state: 'on'\n  brightness: 128\n  areas: Hall\n",
    );
    assert_eq!(req.resolve(&lit).unwrap().device.name, "Desk", "a real level wins");

    let none = House::parse("- names: Hall temp\n  domain: sensor\n  state: '20'\n");
    assert!(req.resolve(&none).is_err());
}

/// A device the house listed but then refused to act on is dropped from
/// consideration, aliases and all, so the same fixture re-resolves onto a
/// device that works rather than being lost.
#[test]
fn a_refused_device_is_taken_out_of_consideration() {
    let h = House::parse(
        "- names: Couch, Canapea\n  domain: light\n  state: 'off'\n  brightness: 40\n  areas: \
         Living\n- names: Reading lamp\n  domain: light\n  state: 'off'\n  brightness: 90\n  \
         areas: Living\n",
    );
    let req = Requirement::Device { domain: "light".into() };
    assert_eq!(req.resolve(&h).unwrap().device.name, "Couch");

    let refused = vec!["couch".to_string()];
    let usable = h.without(&refused);
    assert_eq!(usable.entities.len(), 1, "the alias row is the same device, also out");
    assert_eq!(req.resolve(&usable).unwrap().device.name, "Reading lamp");
    assert_eq!(h.without(&Vec::new()).entities.len(), 2);
}

/// The bystander is found without anyone naming it: the office has a lamp
/// and an air conditioner, which is exactly the domain-less area command.
#[test]
fn finds_a_room_with_a_bystander() {
    let h = House::parse(DUMP);
    let t = Requirement::AreaWithBystander { domain: "light".into() }.resolve(&h).unwrap();
    assert_eq!(t.area.as_deref(), Some("Office"));
    assert_eq!(t.device.name, "Ceiling lamp");
    assert_eq!(t.bystander.unwrap().name, "Office AC");
}

/// The hallway has a lamp and a cover, but the cover is a garage door and
/// is excluded, so the hallway must not be chosen as the bystander area.
#[test]
fn an_excluded_device_cannot_serve_as_the_bystander() {
    let dump = "\
- names: Hall lamp
  domain: light
  areas: Hallway
- names: Garage door
  domain: cover
  areas: Hallway
";
    let h = House::parse(dump);
    assert!(Requirement::AreaWithBystander { domain: "light".into() }.resolve(&h).is_err());
}

/// Two runs must choose the same device or nothing is comparable.
#[test]
fn selection_is_deterministic() {
    let h = House::parse(DUMP);
    let req = Requirement::Device { domain: "light".into() };
    let a = req.resolve(&h).unwrap();
    let b = House::parse(DUMP);
    let b = req.resolve(&b).unwrap();
    assert_eq!(a.device.name, b.device.name);
}

/// Straight from a real house, and the reason `name_suggests_domain`
/// exists. "Basement lights" is a `switch`, so by domain alone it looked
/// like a fine bystander for "turn on the lights in the Basement" — but
/// asserting it must **not** move would fail a model for doing what the
/// user plainly meant. The area must be rejected instead.
#[test]
fn a_switch_named_lights_is_not_a_bystander_for_a_light_command() {
    let dump = "\
- names: Basement lights
  domain: switch
  areas: Basement
- names: Dark room lights
  domain: light
  areas: Basement
";
    let h = House::parse(dump);
    assert!(Requirement::AreaWithBystander { domain: "light".into() }.resolve(&h).is_err());
}

/// The exclusion must not be so eager that ordinary areas stop resolving:
/// an air conditioner is a perfectly fair bystander for a light command.
#[test]
fn an_unrelated_device_is_still_a_valid_bystander() {
    let h = House::parse(DUMP);
    let t = Requirement::AreaWithBystander { domain: "light".into() }.resolve(&h).unwrap();
    assert_eq!(t.bystander.unwrap().name, "Office AC");
}

/// `ac` has to be matched as a word. As a substring it hits "Terrace"
/// and "Rack", which would quietly delete valid bystanders.
#[test]
fn domain_words_match_whole_words_only() {
    assert!(name_suggests_domain("Office AC", "climate"));
    assert!(name_suggests_domain("Air conditioner", "climate"));
    assert!(!name_suggests_domain("Terrace socket", "climate"));
    assert!(!name_suggests_domain("Rack fan power", "climate"));
    assert!(name_suggests_domain("Basement lights", "light"));
    assert!(!name_suggests_domain("Delight sensor", "light"));
}

/// A house without the thing a fixture needs says so, rather than failing.
#[test]
fn an_unsatisfiable_requirement_explains_itself() {
    let h = House::parse("- names: Hall lamp\n  domain: light\n  areas: Hallway\n");
    let err = Requirement::Device { domain: "media_player".into() }.resolve(&h).unwrap_err();
    assert!(err.to_text().contains("media_player"));
}

/// A block with no domain line is dropped rather than guessed at.
#[test]
fn a_block_without_a_domain_is_dropped() {
    let h = House::parse("- names: Mystery\n  areas: Yard\n");
    assert!(h.entities.is_empty());
}

/// Aliases share a line and must be split, or a Romanian area name in an
/// English house is never found.
#[test]
fn area_aliases_are_split() {
    let h = House::parse("- names: Lamp\n  domain: light\n  areas: Kitchen, bucătărie\n");
    assert_eq!(h.areas(), vec!["Kitchen", "bucătărie"]);
}

/// The same convention on `names:`, which was read as one long name.
///
/// A real speaker in the user's house is recorded as `Office display, Boxa
/// birou` — one device carrying an English alias and a Romanian one. Taking
/// the line verbatim made `name` a string Home Assistant refuses outright,
/// so a fixture naming the Romanian alias staged and scored fine but could
/// not be put back afterwards.
#[test]
fn device_aliases_are_split_and_only_the_first_is_sent() {
    let h = House::parse(
        "- names: Office display, Boxa birou\n  domain: media_player\n  state: 'off'\n",
    );
    let e = h.entities.first().expect("one entity, not two");
    assert_eq!(h.entities.len(), 1, "an alias list is one device");
    assert_eq!(e.name, "Office display", "the sendable name leads");
    assert_eq!(e.aliases, vec!["Boxa birou"]);
}

/// Either name finds the device, and what comes back can be commanded.
#[test]
fn a_device_is_found_by_any_of_its_names() {
    let h = House::parse(
        "- names: Office display, Boxa birou\n  domain: media_player\n  state: 'off'\n",
    );
    for asked in ["Office display", "Boxa birou", "boxa  birou", "birou boxa"] {
        let e = h.find_by_name(asked).unwrap_or_else(|| panic!("`{asked}` should resolve"));
        assert_eq!(e.name, "Office display", "`{asked}` must come back sendable");
    }
    // And the exact lookup the restore pass uses agrees, or a case that
    // named the alias is re-found as nothing and silently left alone.
    assert_eq!(h.get("Boxa birou").map(|e| e.name.as_str()), Some("Office display"));
}

/// A safety check reads every name, not just the first: a door recorded
/// with a second-language alias is still a door.
#[test]
fn a_garage_named_in_an_alias_is_still_never_targeted() {
    let h = House::parse("- names: Big door, Poarta garaj\n  domain: cover\n  state: closed\n");
    assert!(!h.entities[0].safe_to_target());
}

/// The trap that would have left a house subtly wrong after every run.
///
/// The dump reports brightness raw, 0–255, while `HassLightSet` takes a
/// percentage — so reading `128` and writing it back unconverted would
/// leave a half-lit lamp at full, and `255` would be refused outright.
/// Confirmed against a real lamp and the real tool schema, not assumed.
#[test]
fn brightness_is_read_as_a_percentage_not_a_raw_byte() {
    let h = House::parse("- names: Lamp\n  domain: light\n  state: 'on'\n  brightness: 128\n");
    assert_eq!(h.get("Lamp").unwrap().level(), Some(Level::BrightnessPct(50)));

    let full = House::parse("- names: L\n  domain: light\n  state: 'on'\n  brightness: 255\n");
    assert_eq!(full.get("L").unwrap().level(), Some(Level::BrightnessPct(100)));
}

/// Volume runs the other way: the dump reports a 0.0–1.0 fraction and the
/// tool wants 0–100, so the same care is needed in the opposite direction.
#[test]
fn volume_is_read_as_a_percentage_not_a_fraction() {
    let h = House::parse(
        "- names: Speaker\n  domain: media_player\n  state: playing\n  volume_level: 0.35\n",
    );
    assert_eq!(h.get("Speaker").unwrap().level(), Some(Level::VolumePct(35)));
}

/// A cover already reports a percentage, and a thermostat reports degrees
/// in its own units. Neither must be rescaled.
#[test]
fn position_and_temperature_pass_through_unscaled() {
    let h = House::parse(
        "- names: Blind\n  domain: cover\n  state: open\n  current_position: 40\n- names: AC\n  \
         domain: climate\n  state: 'on'\n  temperature: 21.5\n",
    );
    assert_eq!(h.get("Blind").unwrap().level(), Some(Level::PositionPct(40)));
    assert_eq!(h.get("AC").unwrap().level(), Some(degrees("21.5")));
}

/// A lamp reports its brightness rounded, so a level written as 50% reads
/// back as 127 rather than 128. Without a tolerance every run would end by
/// nudging every device it looked at, forever, and never settle.
#[test]
fn a_rounding_difference_is_not_worth_restoring() {
    assert!(!Level::BrightnessPct(50).differs_from(Level::BrightnessPct(51)));
    assert!(Level::BrightnessPct(50).differs_from(Level::BrightnessPct(90)));
    assert!(!degrees("21.5").differs_from(degrees("21.52")));
    assert!(degrees("21.5").differs_from(degrees("23.0")));
}

/// A device that reports no level at all must not be mistaken for one at
/// zero — restoring "brightness 0" would switch a lamp off.
#[test]
fn a_missing_level_is_absent_not_zero() {
    let h = House::parse("- names: Plain\n  domain: light\n  state: 'on'\n");
    assert_eq!(h.get("Plain").unwrap().level(), None);
}

/// A lamp whose integration is down accepts every command and does
/// nothing. Aiming a fixture at one measures the outage: six cases of one
/// run scored `failed` this way while a hub was offline.
#[test]
fn an_unavailable_device_is_never_targeted() {
    let h = House::parse(
        "- names: Dead lamp\n  domain: light\n  state: unavailable\n  areas: Hall\n- names: \
         Live lamp\n  domain: light\n  state: 'off'\n  areas: Hall\n",
    );
    assert!(!h.get("Dead lamp").unwrap().is_available());
    assert!(!h.targetable(h.get("Dead lamp").unwrap()));
    let t = Requirement::Device { domain: "light".into() }.resolve(&h).unwrap();
    assert_eq!(t.device.name, "Live lamp");
}

/// `unknown` means nobody has reported yet, not that the device is beyond
/// reach — excluding it would shrink the pool on a healthy house.
#[test]
fn an_unreported_state_is_still_targetable() {
    let h = House::parse("- names: Lamp\n  domain: light\n  state: unknown\n");
    assert!(h.get("Lamp").unwrap().is_available());
}

/// A house with forty unreachable lights that reports "no light in this
/// home" sends the reader hunting for a bug in the fixture. The hub is
/// where the problem is, so that is what the skip says.
#[test]
fn an_outage_is_reported_as_an_outage() {
    let h = House::parse("- names: Lamp\n  domain: light\n  state: unavailable\n");
    let err = Requirement::Device { domain: "light".into() }.resolve(&h).unwrap_err();
    assert!(err.to_text().contains("unavailable"), "{}", err.to_text());
}

/// An area command is only exercised by an area that holds more than one
/// device: with a single lamp, "all of them arrived" and "the one arrived"
/// are the same sentence.
#[test]
fn an_area_of_several_takes_the_whole_group() {
    let h = House::parse(
        "- names: Ceiling\n  domain: light\n  state: 'off'\n  areas: Kitchen\n- names: \
         Counter\n  domain: light\n  state: 'off'\n  areas: Kitchen\n- names: Hall lamp\n  \
         domain: light\n  state: 'off'\n  areas: Hall\n",
    );
    let t = Requirement::AreaWithSeveral { domain: "light".into(), at_least: 2 }
        .resolve(&h)
        .unwrap();
    assert_eq!(t.area.as_deref(), Some("Kitchen"));
    assert_eq!(t.group_names(), vec!["Ceiling", "Counter"]);
    assert!(t.is_group());

    let alone = House::parse("- names: Hall lamp\n  domain: light\n  areas: Hall\n");
    assert!(Requirement::AreaWithSeveral { domain: "light".into(), at_least: 2 }
        .resolve(&alone)
        .is_err());
}

/// The refusal case resolves to a target with nothing in it, so nothing is
/// staged, scored or put back — the whole assertion is that the home did
/// not move.
#[test]
fn a_name_nobody_answers_to_resolves_to_an_empty_target() {
    let h = House::parse("- names: Hall lamp\n  domain: light\n  areas: Hall\n");
    let t = Requirement::NoSuchDevice { name: "pizza oven".into() }.resolve(&h).unwrap();
    assert_eq!(t.device.name, "pizza oven");
    assert!(t.group.is_empty());

    // A house that turns out to own the name skips instead: obeying is the
    // right answer there, and scoring it wrong would measure the house.
    let has_one = House::parse("- names: Pizza oven\n  domain: switch\n  areas: Kitchen\n");
    assert!(Requirement::NoSuchDevice { name: "pizza oven".into() }.resolve(&has_one).is_err());
}

#[test]
fn a_dump_reads_the_same_in_any_order() {
    let a = "- names: B\n  domain: light\n- names: A\n  domain: light\n";
    let b = "- names: A\n  domain: light\n- names: B\n  domain: light\n";
    let names = |text: &str| -> Vec<String> {
        House::parse(text).entities.iter().map(|e| e.name.clone()).collect()
    };
    assert_eq!(names(a), vec!["A", "B"]);
    assert_eq!(names(a), names(b));
    assert_eq!(names(&format!("{a}{a}")), vec!["A", "B"], "a block told twice is one device");
}

#[test]
fn a_dump_inside_json_is_unwrapped() {
    let dump = "- names: Lamp\n  domain: light\n  state: 'on'\n";
    let wrapped = serde_json::Value::from_iter([("result", dump)]).to_string();
    assert_eq!(House::parse(&wrapped).entities.len(), 1);
    assert_eq!(House::parse("not a dump at all").entities.len(), 0);
}

#[test]
fn a_percentage_is_rounded_to_the_nearest() {
    let level = |brightness: &str| {
        House::parse(&format!("- names: L\n  domain: light\n  brightness: {brightness}\n"))
            .get("L")
            .unwrap()
            .level()
    };
    assert_eq!(level("0"), Some(Level::BrightnessPct(0)));
    assert_eq!(level("1"), Some(Level::BrightnessPct(0)));
    assert_eq!(level("2"), Some(Level::BrightnessPct(1)));
    assert_eq!(level("127"), Some(Level::BrightnessPct(50)));
    assert_eq!(level("300"), Some(Level::BrightnessPct(100)), "held between none and all");
    assert_eq!(level("-5"), Some(Level::BrightnessPct(0)));
    assert_eq!(level("1e2"), Some(Level::BrightnessPct(39)));
    assert_eq!(level("bright"), None);
}

#[test]
fn a_temperature_differs_past_a_twentieth_of_a_degree() {
    assert!(!degrees("21.5").differs_from(degrees("21.55")));
    assert!(degrees("21.5").differs_from(degrees("21.551")));
    assert!(degrees("-1").differs_from(degrees("1")));
    assert!(degrees("20").differs_from(Level::VolumePct(20)), "of different kinds");
}

#[test]
fn an_unsafe_domain_is_never_targeted() {
    let h = House::parse(
        "- names: Alarm\n  domain: alarm_control_panel\n- names: Blind\n  domain: cover\n",
    );
    assert!(!h.get("Alarm").unwrap().safe_to_target());
    assert!(h.get("Blind").unwrap().safe_to_target());
}

#[test]
fn the_areas_of_a_house_are_listed_once_and_in_order() {
    let h = House::parse(
        "- names: A\n  domain: light\n  areas: Office\n- names: B\n  domain: light\n  areas: \
         Attic, Office\n",
    );
    assert_eq!(h.areas(), vec!["Attic", "Office"]);
    let names: Vec<&str> = h.in_area("Office").iter().map(|e| e.name.as_str()).collect();
    assert_eq!(names, vec!["A", "B"]);
    assert_eq!(h.in_area("Cellar").len(), 0);
}

#[test]
fn a_named_area_is_found_however_it_is_written() {
    let h = House::parse(
        "- names: A\n  domain: light\n  areas: Living room\n- names: B\n  domain: light\n  \
         areas: Living room\n",
    );
    let t = Requirement::NamedArea { area: "living-room".into(), domain: "light".into() }
        .resolve(&h)
        .unwrap();
    assert_eq!(t.area.as_deref(), Some("Living room"));
    assert_eq!(t.group_names(), vec!["A", "B"]);
    let err = Requirement::NamedArea { area: "Cellar".into(), domain: "light".into() }
        .resolve(&h)
        .unwrap_err();
    assert!(err.to_text().contains("Cellar"), "{}", err.to_text());
}

#[test]
fn a_copy_says_the_same() {
    let h = House::parse(DUMP);
    let copy = h.copy();
    assert_eq!(format!("{:?}", copy.entities), format!("{:?}", h.entities));
}

fn seen(h: &House) -> Vec<(String, String, Option<String>)> {
    h.entities.iter().map(|e| (e.name.clone(), e.domain.clone(), e.state.clone())).collect()
}

/// A dump wrapped under `result` reads as the bare dump, whatever it holds.
#[test]
fn a_wrapped_dump_reads_as_the_bare_one() {
    for dump in [DUMP, "", "- names: A \"quoted\" \\ lamp\u{1}\tă\n  domain: light\n"] {
        let wrapped =
            Json::Object(vec![("result".to_string(), Json::Text(dump.to_string()))]).to_text();
        assert_eq!(seen(&House::parse(&wrapped)), seen(&House::parse(dump)));
        assert_eq!(inner_dump(&wrapped), dump);
    }
}

#[test]
fn the_order_of_a_dump_is_no_matter() {
    let one = "- names: B\n  domain: light\n- names: A\n  domain: fan\n";
    let other = "- names: A\n  domain: fan\n- names: B\n  domain: light\n";
    assert_eq!(seen(&House::parse(one)), seen(&House::parse(other)));
    assert_eq!(seen(&House::parse(one))[0].0, "A");
}

/// What is infinite is apart from everything but itself, and fills a percentage.
#[test]
fn an_infinite_reading_is_no_large_number() {
    assert!(degrees("inf").differs_from(degrees("1e30")));
    assert!(degrees("-inf").differs_from(degrees("inf")));
    assert!(!degrees("inf").differs_from(degrees("infinity")));
    assert!(!degrees("inf").differs_from(degrees("nan")));
    let volume = |v: &str| {
        House::parse(&format!("- names: S\n  domain: media_player\n  volume_level: {v}\n"))
            .get("S")
            .unwrap()
            .level()
    };
    assert_eq!(volume("inf"), Some(Level::VolumePct(100)));
    assert_eq!(volume("-inf"), Some(Level::VolumePct(0)));
}

/// Dumps of the same blocks are one house, in any order and with any repeated.
#[test]
fn blocks_may_come_in_any_order_and_more_than_once() {
    let blocks = [
        "- names: B\n  domain: light\n  state: 'on'\n",
        "  - names: A, Alias\n    domain: fan\n",
        "- names: Nameless of domain\n",
    ];
    let one = [blocks[0], blocks[1], blocks[2]].concat();
    let other = [blocks[2], blocks[1], blocks[0], blocks[1]].concat();
    assert_eq!(seen(&House::parse(&one)), seen(&House::parse(&other)));
    assert_eq!(House::parse(&one).entities.len(), 2);
}
