use fono::actions::hint::{hint_arm, written_hint, HintArm, MAX_LISTED_DEVICES};

fn names(list: &[&str]) -> Vec<String> {
    list.iter().map(|s| s.to_string()).collect()
}

/// The hint a user gets of some areas and no devices.
fn area_hint(areas: &[&str]) -> Option<String> {
    written_hint(&names(areas), &Some(Vec::new()), HintArm::Full)
}

#[test]
fn the_area_hint_says_which_tool_to_use_and_not_to_invent_values() {
    let hint = area_hint(&["Office"]).expect("names present means a hint");
    let lower = hint.to_lowercase();
    assert!(lower.contains("simplest tool"), "{hint}");
    assert!(lower.contains("on/off tool"), "{hint}");
    assert!(lower.contains("never invent a value"), "{hint}");
}

#[test]
fn the_area_hint_warns_against_searching_by_room_for_a_named_device() {
    let hint = area_hint(&["Office", "Yard"]).expect("names present means a hint");
    assert!(hint.contains("Office"), "{hint}");
    let lower = hint.to_lowercase();
    assert!(lower.contains("never translate"), "{hint}");
    assert!(lower.contains("do not narrow the search to an area"), "{hint}");
}

#[test]
fn the_area_hint_asks_for_a_domain_when_the_user_named_a_kind_of_device() {
    let hint = area_hint(&["Office"]).expect("names present means a hint");
    let lower = hint.to_lowercase();
    assert!(lower.contains("domain"), "{hint}");
    assert!(hint.contains("[\"light\"]"), "the worked example must survive: {hint}");
    assert!(lower.contains("domain is required"), "advice was not enough: {hint}");

    let domain_at = lower.find("the domain is required").expect("the obligation");
    let one_call_at = lower.find("one call for an area").expect("the economy");
    assert!(
        domain_at < one_call_at,
        "the obligation must come before the one-call economy, or the economy reads as licence \
         to omit the domain: {hint}"
    );
}

#[test]
fn device_names_are_stated_exactly_when_there_are_few_enough() {
    let hint = written_hint(
        &names(&["Yard"]),
        &Some(names(&["Office outdoor light", "Hall lamp"])),
        HintArm::Full,
    )
    .expect("hint");
    assert!(hint.contains("Office outdoor light"), "{hint}");
    assert!(hint.to_lowercase().contains("only exactly"), "{hint}");
}

/// A truncated list is worse than none: the model would read it as the whole
/// house and tell the user a real device does not exist.
#[test]
fn too_many_devices_are_left_out_rather_than_cut_short() {
    let many: Vec<String> =
        (0..=MAX_LISTED_DEVICES).map(|i| format!("Device number {i}")).collect();
    let hint = written_hint(&names(&["Yard"]), &Some(many.clone()), HintArm::Full)
        .expect("areas still give a hint");
    assert!(hint.contains("Yard"), "the area half must survive: {hint}");
    assert!(!hint.contains("Device number"), "a partial list must not be stated: {hint}");
    let just = many[..MAX_LISTED_DEVICES].to_vec();
    let hint = written_hint(&names(&["Yard"]), &Some(just), HintArm::Full).expect("hint");
    assert!(hint.contains("Device number 199"), "{hint}");
}

#[test]
fn each_arm_writes_what_it_claims() {
    let areas = names(&["Office", "Master bedroom"]);
    let devices = Some(names(&["Office outdoor light", "Bedroom blind"]));
    let full = written_hint(&areas, &devices, HintArm::Full).expect("hint");
    let lean = written_hint(&areas, &devices, HintArm::Lean).expect("hint");
    let no_rules = written_hint(&areas, &devices, HintArm::NoRules).expect("hint");
    let no_devices = written_hint(&areas, &devices, HintArm::NoDevices).expect("hint");

    // Every arm still names the areas — that half is not under test.
    for h in [&full, &lean, &no_rules, &no_devices] {
        assert!(h.contains("Master bedroom"), "{h}");
    }

    // `lean` drops rules 1 and 4 and keeps the rest, numbering unchanged so the
    // wording cannot drift between arms.
    assert!(full.contains("1. Never translate"), "{full}");
    assert!(!lean.contains("Never translate"), "{lean}");
    assert!(!lean.contains("do not narrow the search to an area"), "{lean}");
    assert!(lean.contains("2. Whenever the user says which kind"), "{lean}");
    assert!(lean.contains("5. Use the simplest tool"), "{lean}");

    // `no-rules` and `no-devices` each drop one whole half.
    assert!(!no_rules.contains("Rules for acting"), "{no_rules}");
    assert!(no_rules.contains("Office outdoor light"), "{no_rules}");
    assert!(no_devices.contains("Rules for acting"), "{no_devices}");
    assert!(!no_devices.contains("Office outdoor light"), "{no_devices}");

    // And the default arm is the longest, so an accidental default change would
    // show up here rather than in a run.
    assert!(
        full.len() > lean.len() && full.len() > no_rules.len() && full.len() > no_devices.len()
    );
}

/// No rooms means no sentence: an empty list would spend tokens telling the model
/// to choose from nothing.
#[test]
fn no_areas_means_no_hint() {
    assert!(area_hint(&[]).is_none());
}

#[test]
fn an_arm_is_asked_for_by_name_and_anything_else_is_everything() {
    assert_eq!(hint_arm("lean"), HintArm::Lean);
    assert_eq!(hint_arm("no-rules"), HintArm::NoRules);
    assert_eq!(hint_arm("no-devices"), HintArm::NoDevices);
    assert_eq!(hint_arm("full"), HintArm::Full);
    assert_eq!(hint_arm("Lean"), HintArm::Full);
    assert_eq!(hint_arm(""), HintArm::Full);
}
