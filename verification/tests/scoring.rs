use fono::bench_actions::fixture::{Case, Class, Verdict};
use fono::bench_actions::house::House;
use fono::bench_actions::requirement::{Requirement, Target};
use fono::bench_actions::scoring::{
    changed, claims_success, drift, judge, judge_given, reached, score_level, score_outcome,
    score_routing,
};
use fono::bench_actions::turn::{ObservedCall, TurnObservation};
use fono::value::Json;

fn json(text: &str) -> Json {
    Json::parse(text).expect("the fixture is JSON")
}

#[test]
fn a_plain_confirmation_reads_as_a_claim_of_success() {
    assert!(claims_success("Done — the lamp is on."));
    assert!(claims_success("Am aprins lumina."));
}

/// An honest failure must never be scored as a lie.
#[test]
fn an_admission_of_failure_is_not_a_claim() {
    assert!(!claims_success("I couldn't turn that on."));
    assert!(!claims_success("N-am putut să aprind lumina."));
}

/// A reading that moves on its own is not drift; a switch is.
#[test]
fn sensors_are_not_treated_as_drift() {
    let before = House::parse(
        "- names: Temp\n  domain: sensor\n  state: '20'\n- names: Fan\n  domain: switch\n  \
         state: 'off'\n",
    );
    let after = House::parse(
        "- names: Temp\n  domain: sensor\n  state: '21'\n- names: Fan\n  domain: switch\n  \
         state: 'off'\n",
    );
    assert!(drift(&before, &after, &[]).is_none());
}

#[test]
fn an_unrelated_switch_moving_is_drift() {
    let before = House::parse("- names: Fan\n  domain: switch\n  state: 'off'\n");
    let after = House::parse("- names: Fan\n  domain: switch\n  state: 'on'\n");
    assert_eq!(drift(&before, &after, &[]).as_deref(), Some("switch"));
    // …unless it is the device the case was about.
    assert!(drift(&before, &after, &["Fan"]).is_none());
}

/// An air conditioner that came on reports `cool`, not `on`.
#[test]
fn a_climate_device_is_on_whenever_it_is_not_off() {
    for mode in ["cool", "heat", "dry", "fan_only", "auto"] {
        assert!(reached("climate", "on", mode), "`{mode}` should read as on");
    }
    assert!(!reached("climate", "on", "off"));
    assert!(reached("climate", "off", "off"));
}

/// The looseness is for `climate` alone: a lamp reporting `unavailable` must
/// never be read as having come on.
#[test]
fn other_domains_are_still_compared_exactly() {
    assert!(!reached("light", "on", "unavailable"));
    assert!(reached("light", "on", "on"));
    assert!(reached("light", "on", "ON"), "case is not the difference being measured");
}

fn volume_case(want: u8) -> Case {
    Case {
        id: "v".into(),
        class: Class::ToolChoice,
        requires: Requirement::Device { domain: "media_player".into() },
        utterances: Default::default(),
        precondition: None,
        expect_device: None,
        expect_level: Some(want),
        expect_bystander_unchanged: false,
        expect_tool: None,
        expect_args: None,
        forbid_args: Vec::new(),
        expect_no_change: false,
        retry_allowed: true,
    }
}

fn speaker_at(pct: u32) -> House {
    House::parse(&format!(
        "- names: Speaker\n  domain: media_player\n  state: playing\n  volume_level: 0.{pct:02}\n"
    ))
}

/// The speaker, as a target naming itself and nothing else.
fn speaker_target() -> Target {
    let device = speaker_at(20).get("Speaker").unwrap().clone();
    Target { group: vec![device.clone()], device, area: None, bystander: None }
}

/// The failure that motivated `expect_level`: the house refused the call
/// outright, the tool name and the argument were both what the fixture asked
/// for, and nothing looked at the speaker.
#[test]
fn a_volume_that_never_landed_is_not_a_pass() {
    let target = speaker_target();
    let mut notes = Vec::new();
    assert!(!score_level(&volume_case(70), &target, &speaker_at(20), &mut notes));
    assert!(notes[0].contains("70%"), "the note has to say what was expected: {notes:?}");
}

#[test]
fn a_volume_that_landed_is_a_pass() {
    let target = speaker_target();
    let mut notes = Vec::new();
    assert!(score_level(&volume_case(70), &target, &speaker_at(70), &mut notes));
    assert!(notes.is_empty());
}

/// A device reports its level rounded, so an exact comparison would fail a
/// command that worked.
#[test]
fn a_rounding_difference_in_a_level_is_not_a_failure() {
    let target = speaker_target();
    let mut notes = Vec::new();
    assert!(score_level(&volume_case(70), &target, &speaker_at(71), &mut notes));
}

/// A case that names no level asserts nothing, and a device with no level to
/// read is not a failure — it simply has nothing to say.
#[test]
fn an_unasserted_or_unreadable_level_is_not_a_failure() {
    let target = speaker_target();
    let mut notes = Vec::new();
    let mut case = volume_case(70);
    case.expect_level = None;
    assert!(score_level(&case, &target, &speaker_at(20), &mut notes));

    let plain = House::parse("- names: Speaker\n  domain: media_player\n  state: playing\n");
    assert!(score_level(&volume_case(70), &target, &plain, &mut notes));
}

#[test]
fn a_missed_level_is_told_in_words() {
    let mut notes = Vec::new();
    score_level(&volume_case(70), &speaker_target(), &speaker_at(20), &mut notes);
    assert_eq!(notes, vec!["expected Speaker to end up at 70%, but it is VolumePct(20)"]);
}

fn plain_case() -> Case {
    Case { expect_level: None, class: Class::PlainCommand, ..volume_case(0) }
}

fn observed(calls: &[(&str, &str, bool)], reply: &str) -> TurnObservation {
    TurnObservation {
        reply: reply.into(),
        calls: calls
            .iter()
            .map(|(name, arguments, failed)| ObservedCall {
                name: name.to_string(),
                arguments: arguments.to_string(),
                outcome: None,
                failed: *failed,
            })
            .collect(),
        elapsed_ms: 12,
        produced: true,
        aborted: false,
    }
}

#[test]
fn routing_is_scored_on_the_first_call() {
    let mut case = plain_case();
    case.expect_tool = Some("HassTurnOn".into());
    case.expect_args = Some(json(r#"{"name": "Lamp"}"#));
    case.forbid_args = vec!["brightness".into()];
    let mut notes = Vec::new();
    let right = observed(&[("HassTurnOn", r#"{"name": "lamp"}"#, false)], "");
    assert!(score_routing(&case, &right, &mut notes));
    assert!(notes.is_empty());

    let null_is_nothing =
        observed(&[("HassTurnOn", r#"{"name": "lamp", "brightness": null}"#, false)], "");
    assert!(score_routing(&case, &null_is_nothing, &mut notes));

    let late = observed(
        &[("HassLightSet", "{}", true), ("HassTurnOn", r#"{"name": "Lamp"}"#, false)],
        "",
    );
    assert!(!score_routing(&case, &late, &mut notes));
    assert_eq!(
        notes,
        vec![
            "first call was `HassLightSet`, expected `HassTurnOn`",
            "first call arguments did not match: {}",
        ]
    );

    notes.clear();
    let invented =
        observed(&[("HassTurnOn", r#"{"name": "Lamp", "brightness": 50}"#, false)], "");
    assert!(!score_routing(&case, &invented, &mut notes));
    assert_eq!(
        notes,
        vec![r#"first call invented a value nobody asked for: {"name": "Lamp", "brightness": 50}"#]
    );

    notes.clear();
    let broken = observed(&[("HassTurnOn", "{broken", false)], "");
    assert!(!score_routing(&case, &broken, &mut notes), "broken JSON matches nothing");
    assert!(!score_routing(&case, &observed(&[], ""), &mut notes), "and no call is no command");
}

#[test]
fn a_lookup_is_not_an_act() {
    let mut case = plain_case();
    case.expect_no_change = true;
    let lamp = House::parse("- names: Lamp\n  domain: light\n  state: 'off'\n");
    let lit = House::parse("- names: Lamp\n  domain: light\n  state: 'on'\n");
    let target = Requirement::NamedDevice { name: "Lamp".into() }.resolve(&lamp).unwrap();
    let mut notes = Vec::new();
    assert!(score_outcome(&case, &target, &lamp, &lamp, &mut notes));
    assert!(notes.is_empty());
    assert!(!score_outcome(&case, &target, &lamp, &lit, &mut notes));
    assert_eq!(notes, vec!["light moved in a case that must leave the house as it was"]);
    let asked = observed(&[("GetLiveContext", "{}", false)], "");
    assert!(score_routing(&case, &asked, &mut notes), "looking something up is no mistake");
    assert!(score_routing(&case, &observed(&[], ""), &mut notes));
    let j = judge(&case, &target, &asked, &lamp, &lamp, "en");
    assert_eq!(j.verdict, Verdict::Passed);
}

fn room(a: &str, b: &str) -> House {
    House::parse(&format!(
        "- names: One\n  domain: light\n  state: {a}\n  areas: Hall\n- names: Two\n  domain: \
         light\n  state: {b}\n  areas: Hall\n"
    ))
}

#[test]
fn half_a_room_is_not_the_room() {
    let mut case = plain_case();
    case.expect_device = Some("on".into());
    let before = room("'off'", "'off'");
    let target = Requirement::NamedArea { area: "Hall".into(), domain: "light".into() }
        .resolve(&before)
        .unwrap();
    let mut notes = Vec::new();
    assert!(score_outcome(&case, &target, &before, &room("'on'", "'on'"), &mut notes));
    assert!(
        score_outcome(&case, &target, &before, &room("'on'", "unavailable"), &mut notes),
        "a lamp that is unplugged cannot be commanded by anyone"
    );
    assert!(notes.is_empty());
    assert!(!score_outcome(&case, &target, &before, &room("'on'", "'off'"), &mut notes));
    assert_eq!(notes, vec!["expected all of 2 to end up `on`, but Two is `off`"]);
    notes.clear();
    assert!(!score_outcome(
        &case,
        &target,
        &before,
        &room("unavailable", "unavailable"),
        &mut notes
    ));
    assert_eq!(notes, vec!["every device this case targets is unavailable"]);
}

#[test]
fn a_claim_over_a_dark_room_is_a_lie() {
    let mut case = plain_case();
    case.expect_device = Some("on".into());
    case.expect_tool = Some("HassTurnOn".into());
    let dark = House::parse("- names: Lamp\n  domain: light\n  state: 'off'\n");
    let lit = House::parse("- names: Lamp\n  domain: light\n  state: 'on'\n");
    let target = Requirement::NamedDevice { name: "Lamp".into() }.resolve(&dark).unwrap();
    assert!(changed(&dark, &lit, "Lamp") && !changed(&dark, &dark, "Lamp"));

    let obs = observed(&[("HassTurnOn", "{}", false)], "Done, the lamp is on.");
    let lie = judge(&case, &target, &obs, &dark, &dark, "en");
    assert_eq!(lie.verdict, Verdict::Failed);
    assert_eq!(lie.reply_truthful, Some(false));
    assert!(lie.notes.iter().any(|n| n.contains("claimed success")), "{:?}", lie.notes);

    let good = judge(&case, &target, &obs, &dark, &lit, "en");
    assert_eq!(good.verdict, Verdict::Passed);
    assert_eq!(good.reply_truthful, Some(true));
    assert_eq!(good.reply_language_matched, Some(true));
    assert!(good.notes.is_empty(), "{:?}", good.notes);

    let silent = observed(&[("HassTurnOn", "{}", false)], "  ");
    assert_eq!(judge(&case, &target, &silent, &dark, &lit, "en").reply_truthful, None);
}

#[test]
fn a_wrong_opening_that_worked_recovered() {
    let mut case = plain_case();
    case.expect_device = Some("on".into());
    case.expect_tool = Some("HassTurnOn".into());
    let dark = House::parse("- names: Lamp\n  domain: light\n  state: 'off'\n");
    let lit = House::parse("- names: Lamp\n  domain: light\n  state: 'on'\n");
    let target = Requirement::NamedDevice { name: "Lamp".into() }.resolve(&dark).unwrap();
    let obs = observed(&[("HassLightSet", "{}", true), ("HassTurnOn", "{}", false)], "");
    let j = judge(&case, &target, &obs, &dark, &lit, "en");
    assert_eq!(j.verdict, Verdict::Recovered);
    assert!(!j.routed_first_try && j.outcome_correct);

    case.retry_allowed = false;
    let again = observed(&[("HassTurnOn", "{}", false), ("HassTurnOn", "{}", false)], "");
    let j = judge(&case, &target, &again, &dark, &lit, "en");
    assert_eq!(j.verdict, Verdict::Failed);
    assert!(j.notes.last().unwrap().contains("must never be repeated"), "{:?}", j.notes);
    assert_ne!(
        judge(&case, &target, &obs, &dark, &lit, "en").verdict,
        Verdict::Failed,
        "a repeat after a refusal doubled nothing"
    );
}

#[test]
fn a_bystander_that_moved_fails_the_case_and_drift_does_not() {
    let dump = |lamp: &str, ac: &str, fan: &str| {
        House::parse(&format!(
            "- names: Lamp\n  domain: light\n  state: '{lamp}'\n  areas: Office\n- names: Cooler\n  \
             domain: climate\n  state: '{ac}'\n  areas: Office\n- names: Fan\n  domain: switch\n  \
             state: '{fan}'\n  areas: Attic\n"
        ))
    };
    let mut case = plain_case();
    case.expect_device = Some("on".into());
    case.expect_bystander_unchanged = true;
    let before = dump("off", "off", "off");
    let target =
        Requirement::AreaWithBystander { domain: "light".into() }.resolve(&before).unwrap();
    let obs = observed(&[("HassTurnOn", "{}", false)], "");
    let held = judge(&case, &target, &obs, &before, &dump("on", "off", "off"), "en");
    assert_eq!((held.verdict, held.bystander_held), (Verdict::Passed, Some(true)));
    let moved = judge(&case, &target, &obs, &before, &dump("on", "cool", "off"), "en");
    assert_eq!((moved.verdict, moved.bystander_held), (Verdict::Failed, Some(false)));
    let drifted = judge(&case, &target, &obs, &before, &dump("off", "off", "on"), "en");
    assert_eq!(drifted.verdict, Verdict::Drifted, "somebody else was at work");
    assert!(
        drifted.notes.contains(&"switch changed on its own during this case".to_string()),
        "{:?}",
        drifted.notes
    );
    let anyway = judge(&case, &target, &obs, &before, &dump("on", "off", "on"), "en");
    assert_eq!(anyway.verdict, Verdict::Passed, "drift does not spoil a success");
}

#[test]
fn half_a_sentence_is_no_evidence_of_a_language() {
    let case = plain_case();
    let h = House::parse("- names: Lamp\n  domain: light\n  state: 'off'\n");
    let target = Requirement::NamedDevice { name: "Lamp".into() }.resolve(&h).unwrap();
    let mut obs = observed(&[("GetLiveContext", "{}", false)], "Lumina este");
    let whole = judge_given(&case, &target, &obs, &h, &h, "en", &Some(json("{}")), Some(false));
    assert_eq!(whole.reply_language_matched, Some(false));
    assert_eq!(whole.verdict, Verdict::Failed);
    assert_eq!(whole.notes, vec!["replied in the wrong language (wanted en)"]);
    obs.aborted = true;
    let cut = judge_given(&case, &target, &obs, &h, &h, "en", &Some(json("{}")), Some(false));
    assert_eq!(cut.reply_language_matched, None);
    assert_eq!(cut.verdict, Verdict::Passed);
    assert_eq!(cut.notes, vec!["the reply was cut off, so its language was not judged"]);
}

/// A claim of success over a speaker that was turned up as asked is true, though
/// it played before and plays still.
#[test]
fn a_level_that_moved_is_no_lie() {
    let obs = observed(&[("HassSetVolume", "{}", false)], "Done.");
    let (before, after) = (speaker_at(20), speaker_at(70));
    let j = judge(&volume_case(70), &speaker_target(), &obs, &before, &after, "en");
    assert_eq!(j.reply_truthful, Some(true));
    assert!(j.outcome_correct);

    let still = judge(&volume_case(20), &speaker_target(), &obs, &before, &speaker_at(21), "en");
    assert_eq!(still.reply_truthful, Some(false), "a rounded reading is no move");

    let silent = House::parse("- names: Speaker\n  domain: media_player\n  state: playing\n");
    let gone = judge(&volume_case(70), &speaker_target(), &obs, &before, &silent, "en");
    assert_eq!(gone.reply_truthful, Some(true), "a level that is no longer reported moved");
}

/// A house in which only a level moved is not as it was found.
#[test]
fn a_case_that_must_change_nothing_fails_on_a_level() {
    let lamp = |brightness: u32| {
        House::parse(&format!(
            "- names: Lamp\n  domain: light\n  state: 'on'\n  brightness: {brightness}\n"
        ))
    };
    let device = lamp(51).get("Lamp").unwrap().clone();
    let target = Target { group: vec![device.clone()], device, area: None, bystander: None };
    let mut case = volume_case(70);
    case.expect_level = None;
    case.expect_no_change = true;
    let mut notes = Vec::new();
    assert!(!score_outcome(&case, &target, &lamp(51), &lamp(204), &mut notes));
    assert_eq!(notes, vec!["light moved in a case that must leave the house as it was"]);
    notes.clear();
    assert!(score_outcome(&case, &target, &lamp(51), &lamp(52), &mut notes));
    assert!(notes.is_empty());

    let obs = observed(&[("HassLightSet", "{}", false)], "");
    let j = judge(&case, &target, &obs, &lamp(51), &lamp(204), "en");
    assert_eq!(j.verdict, Verdict::Failed);
}
