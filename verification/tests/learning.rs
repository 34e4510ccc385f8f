use fono::actions::call::{RunOutcome, ToolOutcome};
use fono::actions::ladder::Ran;
use fono::actions::learning::{
    note, replay, replay_call, run_again, Acted, Learning, Replayed, Said, Shortcut, ToolEvent,
};
use fono::actions::vendor::Target;

fn ran(sent: &str, devices: &[&str]) -> Ran {
    Ran {
        out: ToolOutcome::worked("Done.".into()),
        how: RunOutcome::Accepted,
        targets: devices
            .iter()
            .map(|n| Target { name: (*n).to_string(), landed: true })
            .collect(),
        sent: sent.to_string(),
    }
}

/// What a turn would have written down.
fn remembered(learning: &Learning, said: &str) -> Option<Said> {
    learning.finished(said, "en").and_then(|c| c.remember)
}

#[test]
fn a_turn_that_did_one_thing_is_written_down() {
    let mut learning = Learning::new("catalogue.sqlite".to_string());
    let sent = r#"{"name":"Office outdoor light"}"#;
    note(&mut learning, "home", "HassTurnOn", &ran(sent, &["Office outdoor light"]), 0, 7, &None);
    let row = remembered(&learning, "turn on the office light").expect("exactly one phrase");
    assert_eq!(row.phrase, "turn on the office light");
    assert_eq!(row.tool, "HassTurnOn");
    assert_eq!(row.args, sent, "a replay has to send what was sent, not what was said");
    assert_eq!(row.source, "home");
    assert_eq!(row.devices, vec!["Office outdoor light"]);
    assert!(row.ok);
    assert_eq!(row.ms, 7);
}

/// A turn that ran two commands did two things, and replaying one of them would
/// do half of what was asked. Both simply stay slow.
#[test]
fn a_turn_that_did_two_things_is_not_written_down() {
    let mut learning = Learning::new("catalogue.sqlite".to_string());
    for dev in ["Office outdoor light", "Bedroom blind"] {
        let sent = format!(r#"{{"name":"{dev}"}}"#);
        note(&mut learning, "home", "HassTurnOn", &ran(&sent, &[dev]), 0, 7, &None);
    }
    assert!(remembered(&learning, "get the office ready").is_none());
}

/// Warming a prompt is not a turn: nobody spoke, so there is nothing to learn
/// from.
#[test]
fn a_path_that_is_not_a_turn_learns_nothing() {
    let mut learning = Learning::none();
    note(
        &mut learning,
        "home",
        "HassTurnOn",
        &ran(r#"{"name":"Office outdoor light"}"#, &["Office outdoor light"]),
        0,
        7,
        &None,
    );
    assert!(learning.finished("turn on the office light", "en").is_none());
    assert!(learning.db().is_none());
}

#[test]
fn the_journal_says_what_happened() {
    let mut learning = Learning::new("db".to_string());
    let entry = note(
        &mut learning,
        "home",
        "HassTurnOn",
        &ran("{}", &["Lamp"]),
        1_500,
        u128::MAX,
        &Some("Alex".to_string()),
    );
    assert_eq!((entry.source.as_str(), entry.tool.as_str()), ("home", "HassTurnOn"));
    assert_eq!(entry.how, RunOutcome::Accepted);
    assert_eq!(entry.think_ms, 1_500);
    assert_eq!(entry.ms, i64::MAX, "a time too long to store is held at the longest");
    assert_eq!(entry.speaker.as_deref(), Some("Alex"));
    assert_eq!(entry.devices, vec![Target { name: "Lamp".into(), landed: true }]);
}

#[test]
fn what_was_touched_is_told_even_where_nothing_is_remembered() {
    let mut learning = Learning::new("db".to_string());
    let acted = |tool: &str, device: &str| Acted {
        source: "home".into(),
        tool: tool.into(),
        args: "{}".into(),
        devices: vec![device.to_string()],
        ok: true,
        ms: 1,
    };
    learning.add(acted("a", "Lamp"));
    learning.add(acted("b", "Fan"));
    let closing = learning.finished("do both", "en").expect("a turn");
    assert_eq!(closing.db, "db");
    assert_eq!(closing.touched, vec!["Lamp", "Fan"]);
    assert!(closing.remember.is_none());
}

/// A phrase that has earned the fast path.
fn earned() -> Shortcut {
    Shortcut {
        lang: "en".into(),
        source: "home".into(),
        tool: "HassTurnOn".into(),
        args: r#"{"name":"Office outdoor light"}"#.into(),
    }
}

/// The fast path has to be invisible from the outside: the same events a model
/// turn puts on the stream, and the command sent exactly as it was sent before.
#[test]
fn a_replayed_phrase_produces_the_events_a_model_turn_would() {
    let call = replay_call(&earned());
    assert_eq!(
        (call.name.as_str(), call.arguments.as_str()),
        ("HassTurnOn", r#"{"name":"Office outdoor light"}"#)
    );
    let events = run_again(&call, &ToolOutcome::worked("Done.".into()), 5)
        .expect("a working replay ends the turn");
    let [called, result] = events.as_slice() else { panic!("a call and its result") };
    match &called.tool_event {
        Some(ToolEvent::Called(c)) => assert_eq!(c.name, "HassTurnOn"),
        other => panic!("{other:?}"),
    }
    match &result.tool_event {
        Some(ToolEvent::Result { failed, .. }) => assert!(!failed),
        other => panic!("{other:?}"),
    }
    assert!(
        events.iter().all(|d| d.text.is_empty()),
        "nothing is spoken: the model is not there to word it in the right language"
    );
}

/// A replay that failed hands the turn to the model, and the phrase is slow again
/// at once.
#[test]
fn a_replay_that_did_not_work_hands_the_turn_to_the_model() {
    let out = ToolOutcome {
        summary: "HassTurnOn could not be run".into(),
        failed: true,
        retryable: true,
    };
    let call = replay_call(&earned());
    assert_eq!(run_again(&call, &out, 42).err(), Some(42), "a failed replay is not an answer");
    match replay("turn on the office light", &earned(), &out, 42) {
        Replayed::Slow(said) => {
            assert_eq!(said.phrase, "turn on the office light");
            assert!(!said.ok);
            assert_eq!(said.ms, 42);
            assert_eq!(said.args, earned().args);
        }
        Replayed::Turn(_) => panic!("a failed replay is not an answer"),
    }
    match replay("turn on the office light", &earned(), &ToolOutcome::worked("ok".into()), 1) {
        Replayed::Turn(events) => assert_eq!(events.len(), 2),
        Replayed::Slow(_) => panic!("it worked"),
    }
}
