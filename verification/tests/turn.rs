use fono::bench_actions::turn::{turn_request, ObservedCall, TurnObservation};

fn turn(calls: &[bool]) -> TurnObservation {
    TurnObservation {
        reply: String::new(),
        calls: calls
            .iter()
            .map(|failed| ObservedCall {
                name: "HassClimateSetTemperature".into(),
                arguments: "{}".into(),
                outcome: Some("…".into()),
                failed: *failed,
            })
            .collect(),
        elapsed_ms: 0,
        produced: true,
        aborted: false,
    }
}

/// Only a repeat that could double something counts. Asked to make a room two
/// degrees warmer, a model whose first attempt the house refused tried again and
/// moved nothing twice — charging it four degrees for that would punish the
/// recovery the ladder exists to provide.
#[test]
fn a_repeat_after_a_refusal_cannot_double_anything() {
    assert!(!turn(&[true, true]).doubled(), "neither attempt moved anything");
    assert!(!turn(&[true]).doubled(), "one call is not a repeat");
    assert!(!turn(&[]).doubled());
    assert!(turn(&[false, false]).doubled(), "the first one landed, so the second doubled it");
    assert!(!turn(&[true, false]).doubled(), "only the last one landed");
}

#[test]
fn what_is_doubled_stays_doubled() {
    assert!(turn(&[false, true]).doubled());
    assert!(turn(&[false, true, true]).doubled());
    assert!(turn(&[true, false, true]).doubled());
}

#[test]
fn the_first_call_is_the_opening_move() {
    assert!(turn(&[]).first_call().is_none());
    let two = turn(&[true, false]);
    assert!(two.first_call().is_some_and(|c| c.failed));
}

#[test]
fn an_utterance_is_said_with_a_history_of_its_own() {
    let r = turn_request(5, 8, "  Be brief.\n", &Some("ro".to_string()), "aprinde lumina");
    assert_eq!(r.window_secs, 300);
    assert_eq!(r.max_turns, 8);
    assert_eq!(r.instructions, "Be brief.");
    assert_eq!(r.language.as_deref(), Some("ro"));
    assert_eq!(r.pre_transcribed, "aprinde lumina");
    assert_eq!(turn_request(0, 8, "", &None, "x").window_secs, 60, "at least a minute");
}
