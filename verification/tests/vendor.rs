use fono::actions::call::ToolCall;
use fono::actions::vendor::{
    for_catalogue, for_result, judge_states, Admission, Family, HomeAssistant, Target, Unknown,
    Vendor, Verdict,
};


/// Payload shapes copied from a real house, with the device names changed.
const SWITCHED_A_LAMP: &str = r#"{"speech": {}, "response_type": "action_done", "data": {"success": [{"name": "Hall", "type": "area"}, {"name": "Hall lamp", "type": "entity"}], "failed": []}}"#;
const TOUCHED_NOTHING: &str =
    r#"{"response_type": "action_done", "data": {"success": [], "failed": []}}"#;
/// A real office: the climate came on, the light did not.
const HALF_DONE_ROOM: &str = r#"{"speech": {}, "response_type": "action_done", "data": {"success": [{"name": "Office", "type": "area"}, {"name": "Office air conditioner", "type": "entity"}], "failed": [{"name": "Office TV Light", "type": "entity"}]}}"#;

fn call(name: &str) -> ToolCall {
    ToolCall { id: "1".into(), name: name.into(), arguments: "{}".into() }
}

#[test]
fn a_server_we_do_not_know_claims_nothing() {
    let v = for_result(r#"{"status":"queued","id":7}"#);
    assert_eq!(v.id(), "unknown");
    assert_eq!(v.admission(SWITCHED_A_LAMP), None, "no opinion, not a verdict");
    assert!(!v.checks("HassTurnOn"), "no point paying for a read we cannot interpret");
    assert_eq!(v.confirms(&call("HassTurnOn"), SWITCHED_A_LAMP, ""), None);
    // Prose, or nothing at all, is nobody's payload.
    assert_eq!(for_result("Done.").id(), "unknown");
    assert_eq!(for_result("").id(), "unknown");
}

/// Recognition comes from the answer itself, not from a name the server
/// gave us earlier. An installation that predates this check therefore
/// keeps working without having to reconnect first — otherwise it would
/// silently lose its failure detection, which is the exact bug this whole
/// module exists to prevent.
#[test]
fn the_house_is_recognised_by_its_answer() {
    assert_eq!(for_result(SWITCHED_A_LAMP).id(), "home-assistant");
    assert_eq!(for_result(TOUCHED_NOTHING).id(), "home-assistant");
}

/// The first payload is the one that caused a complaint: it *worked* — a
/// lamp came on — yet its trailing `"failed": []` made keyword matching
/// log it as a failure.
#[test]
fn a_working_command_and_an_empty_one_are_told_apart() {
    let ha = HomeAssistant;
    assert_eq!(ha.admission(SWITCHED_A_LAMP), Some(Admission::Worked));
    assert_eq!(ha.admission(TOUCHED_NOTHING), Some(Admission::NothingWorked));
    assert_eq!(
        ha.admission(r#"{"data": {"success": [], "failed": [{"name": "x"}]}}"#),
        Some(Admission::NothingWorked)
    );
    // Nothing recognisable in it, so no verdict either way.
    assert_eq!(ha.admission("Done."), None);
    assert_eq!(ha.admission(r#"{"speech": {"plain": {"speech": "ok"}}}"#), None);
}

/// A per-device history needs the names out of the *reply*, not the
/// arguments: the half-done office command named a room, and both device
/// names it actually reached appear nowhere else. The room itself is not a
/// device and must not collect a history of its own.
#[test]
fn each_thing_the_house_touched_is_named_separately() {
    let ha = HomeAssistant;
    assert_eq!(
        ha.targets(HALF_DONE_ROOM),
        vec![
            Target { name: "Office air conditioner".into(), landed: true },
            Target { name: "Office TV Light".into(), landed: false },
        ],
        "the area is skipped, and the one that failed is kept with its verdict"
    );
    assert_eq!(ha.targets(TOUCHED_NOTHING), vec![], "nothing was reached");
    // A server we do not know says nothing rather than guessing, so no
    // device anywhere gets a run recorded against it.
    assert_eq!(for_result(r#"{"ok":true}"#).targets(HALF_DONE_ROOM), vec![]);
    assert_eq!(ha.targets("Done."), vec![]);
}

/// The office payload that started this: asked for the light, the house
/// switched on the air conditioning and failed on the lamp. Reporting that
/// as "did not work" is as wrong as reporting it as done, and the names of
/// the devices that were missed are the part the reply needs.
#[test]
fn a_half_done_command_is_neither_a_success_nor_a_failure() {
    let ha = HomeAssistant;
    let Some(Admission::PartlyWorked { failed }) = ha.admission(HALF_DONE_ROOM) else {
        panic!("a room with successes and failures worked in part");
    };
    assert_eq!(failed, vec!["Office TV Light".to_string()]);
}

/// The room itself always comes back as a success, so counting it as a
/// device would report a command that matched nothing as half-done.
#[test]
fn a_room_on_its_own_is_not_a_device_that_was_switched() {
    let ha = HomeAssistant;
    let only_the_area = r#"{"response_type": "action_done", "data": {"success": [{"name": "Hall", "type": "area"}], "failed": []}}"#;
    assert_eq!(ha.admission(only_the_area), Some(Admission::NothingWorked));
}

/// A switch-on that partly failed may be asked for again — the lamps that
/// obeyed are already in the state asked for, so a repeat cannot double
/// anything. A relative change may not, because twice is twice as much.
#[test]
fn only_a_command_naming_an_end_state_may_be_asked_for_twice() {
    let ha = HomeAssistant;
    assert!(ha.repeatable("HassTurnOn"), "being on twice is being on");
    assert!(ha.repeatable("HassTurnOff"));
    assert!(!ha.repeatable("HassLightSet"), "a brightness step must not be doubled");
    assert!(!ha.repeatable("HassClimateSetTemperature"));
    // A server we do not recognise gets no second attempt: it is the safe
    // direction to be wrong in.
    assert!(!Unknown.repeatable("HassTurnOn"));
}

/// The point of the whole rung: the server said it switched a lamp, and
/// the house is asked whether that is true.
#[test]
fn the_house_can_agree_or_disagree_with_the_server() {
    let ha = HomeAssistant;
    let lit = "- names: Hall lamp\n  domain: light\n  state: 'on'\n  areas: Hall\n";
    let dark = "- names: Hall lamp\n  domain: light\n  state: 'off'\n  areas: Hall\n";

    assert_eq!(
        ha.confirms(&call("HassTurnOn"), SWITCHED_A_LAMP, lit),
        Some(Verdict::Confirmed)
    );
    assert_eq!(
        ha.confirms(&call("HassTurnOn"), SWITCHED_A_LAMP, dark),
        Some(Verdict::Contradicted),
        "the server said it switched a lamp that is still off"
    );
    assert_eq!(
        ha.confirms(&call("HassTurnOff"), SWITCHED_A_LAMP, dark),
        Some(Verdict::Confirmed)
    );
}

/// Sensor readings drift on their own — two readings of one real house
/// three seconds apart differed by two tenths of a degree with nothing
/// happening. Looking only at what the server claimed to touch, and only
/// at whether it is in the asked-for state, makes that irrelevant.
#[test]
fn a_drifting_sensor_cannot_fake_a_successful_switch() {
    let ha = HomeAssistant;
    let house = "- names: Soil temperature\n  domain: sensor\n  state: '25.5'\n\
                 - names: Hall lamp\n  domain: light\n  state: 'off'\n";
    assert_eq!(
        ha.confirms(&call("HassTurnOn"), SWITCHED_A_LAMP, house),
        Some(Verdict::Contradicted),
        "the lamp is off; a sensor moving elsewhere is not evidence"
    );
}

/// Three ways to have no opinion, none of which may be reported as a
/// failure: a tool whose intent we cannot infer, a result claiming
/// nothing, and a device the reading does not mention.
#[test]
fn what_cannot_be_judged_is_left_alone() {
    let ha = HomeAssistant;
    let lit = "- names: Hall lamp\n  domain: light\n  state: 'on'\n";
    assert!(!ha.checks("HassLightSet"), "brightness intent is not guessed at");
    assert_eq!(ha.confirms(&call("HassLightSet"), SWITCHED_A_LAMP, lit), None);
    assert_eq!(ha.confirms(&call("HassTurnOn"), TOUCHED_NOTHING, lit), None);
    assert_eq!(
        ha.confirms(&call("HassTurnOn"), SWITCHED_A_LAMP, "- names: Other\n  state: 'on'\n"),
        None,
        "a device the house did not mention is missing evidence, not failure"
    );
    assert!(ha.checks("HassTurnOn") && ha.checks("HassTurnOff"));
}

/// A device can be listed as switched and be offline, which a real kitchen
/// demonstrated on the first attempt. It has no state to disagree with, so
/// it must not drag a working command down with it.
#[test]
fn a_device_that_is_offline_does_not_condemn_the_rest() {
    let ha = HomeAssistant;
    let house = "- names: Hall lamp\n  domain: light\n  state: 'on'\n\
                 - names: Broken lamp\n  domain: light\n  state: 'unavailable'\n";
    let claimed = r#"{"response_type": "action_done", "data": {"success": [{"name": "Hall lamp", "type": "entity"}, {"name": "Broken lamp", "type": "entity"}], "failed": []}}"#;
    assert_eq!(
        ha.confirms(&call("HassTurnOn"), claimed, house),
        Some(Verdict::Confirmed),
        "one lamp is on and the other cannot say; that is not a contradiction"
    );
}

/// The house sends its state as an escaped JSON string, not as loose text.
/// Failing to read through that wrapper would find no device anywhere,
/// which looks exactly like "no evidence" — so the check would turn itself
/// off and nobody would notice.
#[test]
fn the_reading_is_understood_however_the_house_wraps_it() {
    let ha = HomeAssistant;
    let dump = "Live Context:\n- names: Hall lamp\n  domain: light\n  state: 'on'\n";
    let wrapped = serde_json::Value::from_iter([("result", dump)]).to_string();
    assert_eq!(
        ha.confirms(&call("HassTurnOn"), SWITCHED_A_LAMP, &wrapped),
        Some(Verdict::Confirmed)
    );
    assert_eq!(
        ha.confirms(&call("HassTurnOn"), SWITCHED_A_LAMP, dump),
        Some(Verdict::Confirmed),
        "and plain text still works"
    );
}

#[test]
fn a_family_answers_as_its_software_does() {
    let ha = for_result(SWITCHED_A_LAMP);
    assert_eq!(ha, Family::HomeAssistant);
    assert_eq!(ha.admission(TOUCHED_NOTHING), Some(Admission::NothingWorked));
    assert!(ha.repeatable("HassTurnOn"));
    assert_eq!(ha.slot_fields().place, Some("area"));
    let other = for_result("Done.");
    assert_eq!(other, Family::Unknown);
    assert_eq!(other.admission(SWITCHED_A_LAMP), None);
    assert_eq!(other.slot_fields().place, None);
    assert!(other.readings("- names: Hall lamp\n  state: 'on'\n", &vec!["Hall lamp".into()])
        .is_empty());
}

#[test]
fn a_house_is_recognised_by_its_catalogue() {
    assert_eq!(for_catalogue(&vec!["HassTurnOn", "HassTurnOff"]).id(), "home-assistant");
    assert_eq!(for_catalogue(&vec!["search", "fetch"]).id(), "unknown");
    assert_eq!(for_catalogue(&vec![]).id(), "unknown");
}

#[test]
fn only_what_was_asked_about_is_read_back() {
    let house = "- names: Hall lamp\n  domain: light\n  state: 'on'\n\
                 - names: Desk\n  domain: light\n  state: 'off'\n";
    assert_eq!(
        HomeAssistant.readings(house, &vec!["Hall lamp".to_string()]),
        vec![("Hall lamp".to_string(), "on".to_string())]
    );
}

#[test]
fn states_agree_only_where_all_that_can_say_do() {
    let state = |n: &str, s: &str| (n.to_string(), s.to_string());
    assert_eq!(judge_states("on", &vec![]), None);
    assert_eq!(judge_states("on", &vec![state("a", "on")]), Some(Verdict::Confirmed));
    assert_eq!(
        judge_states("on", &vec![state("a", "on"), state("b", "off")]),
        Some(Verdict::Contradicted)
    );
}

/// A device that failed is no success for want of a name.
#[test]
fn a_failed_device_without_a_name_still_failed() {
    let ha = HomeAssistant;
    let unnamed = r#"{"data":{"success":[{"name":"A","type":"entity"}],"failed":[{"type":"entity"}]}}"#;
    assert_eq!(ha.admission(unnamed), Some(Admission::PartlyWorked { failed: vec![] }));
    let half = r#"{"data":{"success":[{"name":"A"}],"failed":[{"type":"entity"},{"name":"B"}]}}"#;
    assert_eq!(ha.admission(half), Some(Admission::PartlyWorked { failed: vec!["B".into()] }));
    let room = r#"{"data":{"success":[{"name":"A"}],"failed":[{"name":"Hall","type":"area"}]}}"#;
    assert_eq!(ha.admission(room), Some(Admission::Worked), "an area is no device");
}
