use fono::bench_actions::fixture::{Case, Class};
use fono::bench_actions::house::{House, Level};
use fono::bench_actions::requirement::{Requirement, Target};
use fono::bench_actions::staging::{
    parting, restore, restore_baseline, restores_after, set_level, set_state, staging, tally,
    Attempt, Command,
};
use fono::decimal::Amount;
use fono::value::Json;

fn shown(commands: &[Command]) -> Vec<String> {
    commands.iter().map(|c| format!("{} {}", c.tool, c.args.to_text())).collect()
}

fn lamp(state: &str, brightness: &str) -> House {
    House::parse(&format!(
        "- names: Lamp\n  domain: light\n  state: '{state}'\n  brightness: {brightness}\n"
    ))
}

fn case(precondition: Option<&str>) -> Case {
    Case {
        id: "c".into(),
        class: Class::PlainCommand,
        requires: Requirement::Device { domain: "light".into() },
        utterances: Vec::new(),
        precondition: precondition.map(str::to_string),
        expect_device: None,
        expect_level: None,
        expect_bystander_unchanged: false,
        expect_tool: None,
        expect_args: None,
        forbid_args: Vec::new(),
        expect_no_change: false,
        retry_allowed: true,
    }
}

fn target(h: &House) -> Target {
    Requirement::Device { domain: "light".into() }.resolve(h).unwrap()
}

#[test]
fn a_device_is_switched_or_the_state_is_unknown() {
    let h = lamp("off", "0");
    let e = h.get("Lamp").unwrap();
    assert_eq!(
        shown(&[set_state(e, "on").unwrap(), set_state(e, "off").unwrap()]),
        vec![r#"HassTurnOn {"name":"Lamp"}"#, r#"HassTurnOff {"name":"Lamp"}"#]
    );
    assert_eq!(
        set_state(e, "purple").unwrap_err(),
        "do not know how to put a light into `purple`"
    );
}

#[test]
fn every_level_has_its_own_tool_and_unit() {
    let h = lamp("on", "0");
    let e = h.get("Lamp").unwrap();
    let warm = |t: &str| Level::TargetTemperature(Amount::read(t).unwrap());
    assert_eq!(
        shown(&[
            set_level(e, Level::BrightnessPct(50)),
            set_level(e, Level::VolumePct(35)),
            set_level(e, Level::PositionPct(0)),
            set_level(e, warm("21.5")),
            set_level(e, warm("-7")),
            set_level(e, warm("nan")),
            set_level(e, warm("inf")),
            set_level(e, warm("-Infinity")),
        ]),
        vec![
            r#"HassLightSet {"brightness":50,"name":"Lamp"}"#,
            r#"HassSetVolume {"name":"Lamp","volume_level":35}"#,
            r#"HassSetPosition {"name":"Lamp","position":0}"#,
            r#"HassClimateSetTemperature {"name":"Lamp","temperature":21.5}"#,
            r#"HassClimateSetTemperature {"name":"Lamp","temperature":-7.0}"#,
            r#"HassClimateSetTemperature {"name":"Lamp","temperature":null}"#,
            r#"HassClimateSetTemperature {"name":"Lamp","temperature":null}"#,
            r#"HassClimateSetTemperature {"name":"Lamp","temperature":null}"#,
        ]
    );
}

#[test]
fn every_member_of_a_group_is_staged() {
    let h = House::parse(
        "- names: One\n  domain: light\n  areas: Hall\n- names: Two\n  domain: light\n  areas: \
         Hall\n",
    );
    let t = Requirement::NamedArea { area: "Hall".into(), domain: "light".into() }
        .resolve(&h)
        .unwrap();
    assert_eq!(
        shown(&staging(&case(Some("off")), &t).unwrap()),
        vec![r#"HassTurnOff {"name":"One"}"#, r#"HassTurnOff {"name":"Two"}"#]
    );
    assert!(staging(&case(None), &t).unwrap().is_empty());
    assert_eq!(
        staging(&case(Some("open")), &t).unwrap_err(),
        "could not stage One before `c`: do not know how to put a light into `open`"
    );
    let nobody = Requirement::NoSuchDevice { name: "oven".into() }.resolve(&h).unwrap();
    assert!(staging(&case(Some("open")), &nobody).unwrap().is_empty(), "nothing to stage");
}

#[test]
fn a_case_that_moves_nothing_is_not_put_back() {
    assert!(!restores_after(&case(None)));
    assert!(restores_after(&case(Some("on"))));
    let mut c = case(None);
    c.expect_level = Some(10);
    assert!(restores_after(&c));
    c.expect_level = None;
    c.expect_device = Some("on".into());
    assert!(restores_after(&c));
}

#[test]
fn a_lamp_is_switched_before_it_is_dimmed() {
    let before = lamp("on", "128");
    let t = target(&before);
    assert_eq!(
        shown(&restore(&t, &before, &Some(lamp("on", "255")))),
        vec![r#"HassTurnOn {"name":"Lamp"}"#, r#"HassLightSet {"brightness":50,"name":"Lamp"}"#]
    );
    assert_eq!(
        shown(&restore(&t, &before, &Some(lamp("off", "127")))),
        vec![r#"HassTurnOn {"name":"Lamp"}"#],
        "a level that is already there is not written"
    );
    assert_eq!(shown(&restore(&t, &before, &None)).len(), 2, "without a reading it is");
}

#[test]
fn a_dark_lamp_is_not_dimmed() {
    let before = lamp("off", "128");
    assert_eq!(
        shown(&restore(&target(&before), &before, &Some(lamp("on", "255")))),
        vec![r#"HassTurnOff {"name":"Lamp"}"#]
    );
}

fn planned(before: &str, now: &str) -> Vec<String> {
    let plan = restore_baseline(&House::parse(before), &House::parse(now));
    plan.iter()
        .map(|r| format!("{}: {}", r.name, shown(&r.commands).join(", ")))
        .collect()
}

#[test]
fn the_home_is_put_back_but_for_what_may_not_be_touched() {
    let home = |lock: &str, lamp: &str, fan: &str| {
        format!(
            "- names: Door\n  domain: lock\n  state: '{lock}'\n- names: Lamp\n  domain: light\n  \
             state: '{lamp}'\n- names: Fan\n  domain: switch\n  state: '{fan}'\n- names: Heat\n  \
             domain: sensor\n  state: '{lamp}'\n"
        )
    };
    assert!(planned(&home("locked", "on", "off"), &home("locked", "on", "off")).is_empty());
    assert_eq!(
        planned(&home("locked", "on", "off"), &home("unlocked", "off", "on")),
        vec![
            r#"Fan: HassTurnOff {"name":"Fan"}"#.to_string(),
            r#"Lamp: HassTurnOn {"name":"Lamp"}"#.to_string(),
        ],
        "neither the lock nor the sensor"
    );
    assert!(
        planned(&home("locked", "unavailable", "off"), &home("locked", "on", "unavailable"))
            .is_empty(),
        "what was out of reach, or is now, is left alone"
    );
}

#[test]
fn a_cover_is_put_back_by_its_position() {
    let cover = |state: &str, at: u32| {
        format!("- names: Blind\n  domain: cover\n  state: {state}\n  current_position: {at}\n")
    };
    assert_eq!(
        planned(&cover("open", 40), &cover("closed", 0)),
        vec![r#"Blind: HassSetPosition {"name":"Blind","position":40}"#.to_string()]
    );
}

fn attempt(name: &str, failures: &[Option<&str>]) -> Attempt {
    Attempt {
        name: name.into(),
        failures: failures.iter().map(|f| f.map(str::to_string)).collect(),
    }
}

#[test]
fn every_refusal_is_told_and_none_hides_the_rest() {
    assert_eq!(tally(&Vec::new()), Ok(0));
    assert_eq!(
        tally(&vec![attempt("a", &[None, None]), attempt("b", &[None]), attempt("c", &[])]),
        Ok(2)
    );
    assert_eq!(
        tally(&vec![attempt("a", &[None, Some("x")]), attempt("b", &[Some("y")])]),
        Err("2 device(s) would not go back: a: x; b: y".to_string())
    );
}

#[test]
fn a_run_ends_by_saying_how_it_left_the_home() {
    assert_eq!(parting(&Ok(0)), "\n  home left as it was found.");
    assert_eq!(parting(&Ok(3)), "\n  put 3 device(s) back the way they were.");
    let warned = parting(&Err("1 device(s) would not go back: a: x".into()));
    assert!(
        warned.starts_with("\n  WARNING: could not fully put the home back: 1 device(s)"),
        "{warned}"
    );
    assert!(warned.ends_with("before trusting the next run."), "{warned}");
}

#[test]
fn a_command_carries_json_that_reads_back() {
    let h = House::parse("- names: The \"big\" lamp\n  domain: light\n  state: 'on'\n");
    let c = set_state(&h.entities[0], "off").unwrap();
    assert_eq!(Json::parse(&c.args.to_text()), Some(c.args.copy()));
}
