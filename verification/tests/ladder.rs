use fono::actions::arguments::HouseFacts;
use fono::actions::call::{RunOutcome, ToolCall};
use fono::actions::ladder::{
    after_look, after_reply, begin, brief, claimed, clip, confirm, find_tool, state_of_the_house,
    weigh, Begun, Next, Ran, Reply, Runnable, VerifyClass, RETRY_INVITATION, RETRY_THE_REST,
};
use fono::actions::vendor::{Target, Verdict};
use fono::value::Json;

const SWITCHED_A_LAMP: &str = r#"{"speech": {}, "response_type": "action_done", "data": {"success": [{"name": "Hall", "type": "area"}, {"name": "Hall lamp", "type": "entity"}], "failed": []}}"#;
const TOUCHED_NOTHING: &str =
    r#"{"response_type": "action_done", "data": {"success": [], "failed": []}}"#;
const HALF_DONE_ROOM: &str = r#"{"speech": {}, "response_type": "action_done", "data": {"success": [{"name": "Office", "type": "area"}, {"name": "Office air conditioner", "type": "entity"}], "failed": [{"name": "Office TV Light", "type": "entity"}]}}"#;

fn runnable(verify: VerifyClass) -> Runnable {
    Runnable {
        verify,
        readback: Some("GetLiveContext".into()),
        schema: Json::parse("{}").unwrap(),
        source: "home".into(),
    }
}

fn tools(verify: VerifyClass) -> Vec<(String, Runnable)> {
    vec![("HassTurnOn".to_string(), runnable(verify))]
}

fn call(name: &str) -> ToolCall {
    ToolCall { id: "1".into(), name: name.into(), arguments: "{}".into() }
}

fn not_begun(name: &str) -> Ran {
    match begin(&tools(VerifyClass::PostCondition), &HouseFacts::none(), &call(name)) {
        Begun::Done(ran) => ran,
        Begun::Send { .. } => panic!("nothing is there to send to"),
    }
}

fn done(next: Next) -> Ran {
    match next {
        Next::Done(ran) => ran,
        Next::Look { readback } => panic!("nothing to look up, yet {readback} was asked for"),
    }
}

/// A name the catalogue does not know must be reported, not silently dropped —
/// otherwise the model waits for a result that never comes.
#[test]
fn an_unknown_tool_is_reported() {
    let ran = not_begun("Nope");
    assert!(ran.out.failed, "an unknown tool is not a success");
    assert!(ran.out.summary.contains("no tool called Nope"), "{}", ran.out.summary);
    assert_eq!(ran.how, RunOutcome::Failed);
}

/// A server we cannot reach must say so in words the user can act on, rather
/// than the turn failing or, worse, claiming success.
#[test]
fn an_unreachable_server_is_reported_not_claimed_done() {
    let tools = tools(VerifyClass::PostCondition);
    let sent = match begin(&tools, &HouseFacts::none(), &call("HassTurnOn")) {
        Begun::Send { sent, .. } => sent,
        Begun::Done(_) => panic!("the tool is known"),
    };
    let ran = done(after_reply(
        find_tool(&tools, "HassTurnOn").unwrap(),
        &call("HassTurnOn"),
        &sent,
        &Reply::Unreached("connection refused".into()),
    ));
    assert!(ran.out.failed, "unreachable must not be logged as a success");
    assert!(ran.out.summary.starts_with("HassTurnOn could not be run"), "{}", ran.out.summary);
    assert!(!ran.out.summary.to_lowercase().contains("done"), "{}", ran.out.summary);
    // And it must be written down as a failure, not as "sent" — nothing was
    // sent, and a page saying otherwise would be worse than silent.
    assert_eq!(ran.how, RunOutcome::Failed);
}

/// A call that never left changed nothing, so the model is invited to correct it
/// inside the same turn.
#[test]
fn a_failure_that_changed_nothing_invites_one_correction() {
    let ran = not_begun("Nope");
    assert!(ran.out.failed);
    assert!(ran.out.retryable, "an unknown tool moved nothing, so a second go is free");
    assert!(ran.out.summary.contains("call the tool once more"), "{}", ran.out.summary);
}

/// Long server output is trimmed, but visibly, and with enough room that a real
/// result's trailing failure list survives.
#[test]
fn long_output_is_trimmed_visibly() {
    assert_eq!(brief("  "), "Done.");
    let out = brief(&"x".repeat(50_000));
    assert!(out.ends_with('…'), "truncation must be visible: {}", &out[out.len() - 20..]);
    assert!(out.chars().count() < 2100);
}

#[test]
fn a_short_output_is_kept_whole() {
    assert_eq!(brief("  ok \n"), "ok");
    assert_eq!(brief(&"ă".repeat(2000)), "ă".repeat(2000));
    assert_eq!(brief(&"ă".repeat(2001)).chars().count(), 2001);
    assert_eq!(clip("abcdef", 3), "abc…");
    assert_eq!(clip("abc", 3), "abc");
}

fn reply(verify: VerifyClass, tool: &str, answer: &str) -> Next {
    after_reply(&runnable(verify), &call(tool), "{}", &Reply::Answered(answer.into()))
}

#[test]
fn a_reply_that_claims_a_device_is_looked_up() {
    match reply(VerifyClass::PostCondition, "HassTurnOn", SWITCHED_A_LAMP) {
        Next::Look { readback } => assert_eq!(readback, "GetLiveContext"),
        Next::Done(_) => panic!("the house can be asked"),
    }
}

#[test]
fn a_server_that_objected_changed_nothing() {
    let ran = done(after_reply(
        &runnable(VerifyClass::PostCondition),
        &call("HassTurnOn"),
        "{}",
        &Reply::Objected("no such area".into()),
    ));
    assert!(ran.out.failed && ran.out.retryable);
    assert!(ran.out.summary.contains("no such area"), "{}", ran.out.summary);
    assert!(ran.out.summary.ends_with(RETRY_INVITATION), "{}", ran.out.summary);
    assert_eq!(ran.how, RunOutcome::Failed);
}

#[test]
fn a_reply_that_touched_nothing_failed() {
    let ran = done(reply(VerifyClass::PostCondition, "HassTurnOn", TOUCHED_NOTHING));
    assert!(ran.out.failed && ran.out.retryable);
    assert_eq!(ran.how, RunOutcome::Failed);
    assert!(ran.out.summary.contains(RETRY_THE_REST), "{}", ran.out.summary);
}

#[test]
fn a_half_done_command_may_be_repeated_only_where_it_names_an_end_state() {
    let ran = done(reply(VerifyClass::PostCondition, "HassTurnOn", HALF_DONE_ROOM));
    assert!(ran.out.failed && ran.out.retryable);
    assert!(ran.out.summary.contains("Office TV Light"), "{}", ran.out.summary);
    let ran = done(reply(VerifyClass::PostCondition, "HassLightSet", HALF_DONE_ROOM));
    assert!(ran.out.failed && !ran.out.retryable, "a second attempt could double it");
}

#[test]
fn a_tool_nobody_can_check_is_only_sent() {
    let ran = done(reply(VerifyClass::Unobserved, "search", "three results"));
    assert!(!ran.out.failed);
    assert_eq!(ran.how, RunOutcome::Sent);
    assert_eq!(ran.out.summary, "search was sent. three results");
}

#[test]
fn the_house_has_the_last_word() {
    let lit = "- names: Hall lamp\n  domain: light\n  state: 'on'\n";
    let dark = "- names: Hall lamp\n  domain: light\n  state: 'off'\n";
    let ran = after_look(&call("HassTurnOn"), "{}", SWITCHED_A_LAMP, Some(lit));
    assert!(!ran.out.failed);
    assert_eq!(ran.how, RunOutcome::Confirmed);
    assert_eq!(ran.targets, vec![Target { name: "Hall lamp".into(), landed: true }]);
    let ran = after_look(&call("HassTurnOn"), "{}", SWITCHED_A_LAMP, Some(dark));
    assert!(ran.out.failed, "{}", ran.out.summary);
    assert_eq!(ran.how, RunOutcome::Failed);
    let ran = after_look(&call("HassTurnOn"), "{}", SWITCHED_A_LAMP, None);
    assert!(!ran.out.failed, "a house that cannot be read contradicts nobody");
    assert_ne!(ran.how, RunOutcome::Confirmed);
    let looked = confirm(&call("HassTurnOn"), SWITCHED_A_LAMP, Some(lit));
    assert_eq!(looked.verdict, Some(Verdict::Confirmed));
    assert_eq!(looked.readings, vec![("Hall lamp".to_string(), "on".to_string())]);
}

#[test]
fn what_the_house_reads_is_said_in_one_sentence() {
    assert_eq!(state_of_the_house(&vec![]), "");
    assert_eq!(
        state_of_the_house(&vec![
            ("Lamp".to_string(), "on".to_string()),
            ("Fan".to_string(), "off".to_string()),
        ]),
        " Reading the home back afterwards: Lamp is on, Fan is off. Tell the user what the home \
         actually says, not what was asked for."
    );
}

#[test]
fn only_what_landed_is_looked_up() {
    let targets = vec![
        Target { name: "a".into(), landed: true },
        Target { name: "b".into(), landed: false },
    ];
    assert_eq!(claimed(&targets), vec!["a"]);
    let next = weigh(
        &runnable(VerifyClass::PostCondition),
        "HassTurnOn",
        "{}",
        "Done.",
        false,
        &None,
        &vec![],
    );
    assert!(!done(next).out.failed);
}

#[test]
fn the_last_tool_of_a_name_is_taken() {
    let mut two = tools(VerifyClass::PostCondition);
    two.push(("HassTurnOn".to_string(), runnable(VerifyClass::Other)));
    assert_eq!(find_tool(&two, "HassTurnOn").map(|t| t.verify), Some(VerifyClass::Other));
    assert!(find_tool(&two, "Nope").is_none());
}

/// Where the server does not name what it missed, the sentence names nothing, and
/// still claims no success.
#[test]
fn an_unnamed_failure_is_told_without_names() {
    let unnamed = r#"{"response_type": "action_done", "data": {"success": [{"name": "A", "type": "entity"}], "failed": [{"type": "entity"}]}}"#;
    let ran = done(reply(VerifyClass::PostCondition, "HassTurnOn", unnamed));
    assert!(ran.out.failed);
    assert_eq!(
        ran.out.summary,
        format!(
            "HassTurnOn worked for some devices but not for all of them. Tell the user that some \
             did not respond, and do not claim the whole request succeeded. {RETRY_THE_REST}"
        )
    );
}
