use fono::bench_actions::fixture::{CaseReport, Class, Verdict};
use fono::bench_actions::summary::{group_by, group_by_keys, summarise, Rate};

fn rep(verdict: Verdict, first: bool, ms: u64) -> CaseReport {
    CaseReport {
        id: "x".into(),
        class: Class::PlainCommand,
        language: "en".into(),
        verdict,
        routed_first_try: first,
        outcome_correct: verdict != Verdict::Failed,
        bystander_held: None,
        reply_truthful: None,
        reply_language_matched: None,
        calls: 1,
        elapsed_ms: ms,
        skipped_because: None,
    }
}

/// A rate as a fraction, nothing of nothing being none.
fn fraction(r: Rate) -> f32 {
    if r.whole == 0 {
        0.0
    } else {
        r.part as f32 / r.whole as f32
    }
}

/// The two rates must differ when the ladder did work — that difference is the
/// number the whole harness exists to produce.
#[test]
fn recovery_shows_up_as_a_gap_between_the_two_rates() {
    let s = summarise(&vec![
        rep(Verdict::Passed, true, 10),
        rep(Verdict::Recovered, false, 20),
        rep(Verdict::Failed, false, 30),
    ]);
    assert!((fraction(s.first_try_rate) - 1.0 / 3.0).abs() < 1e-6);
    assert!((fraction(s.final_rate) - 2.0 / 3.0).abs() < 1e-6);
}

/// Routing is its own number; the two success rates must nest.
#[test]
fn a_well_routed_failure_does_not_beat_the_final_rate() {
    let s = summarise(&vec![rep(Verdict::Failed, true, 10)]);
    assert!((fraction(s.routing_rate) - 1.0).abs() < 1e-6, "routing stands on its own");
    assert!((fraction(s.first_try_rate) - 0.0).abs() < 1e-6);
    assert!((fraction(s.final_rate) - 0.0).abs() < 1e-6);
    assert!(fraction(s.first_try_rate) <= fraction(s.final_rate));
}

/// A house that lacks the device must not drag the score down.
#[test]
fn skips_are_excluded_from_every_rate() {
    let s = summarise(&vec![rep(Verdict::Passed, true, 10), rep(Verdict::Skipped, false, 0)]);
    assert_eq!(s.n, 1);
    assert_eq!(s.skipped, 1);
    assert!((fraction(s.final_rate) - 1.0).abs() < 1e-6);
}

#[test]
fn an_empty_run_does_not_divide_by_zero() {
    let s = summarise(&Vec::new());
    assert_eq!(s.n, 0);
    assert!((fraction(s.final_rate) - 0.0).abs() < 1e-6);
}

#[test]
fn every_case_is_counted_once() {
    let s = summarise(&vec![
        rep(Verdict::Passed, true, 1),
        rep(Verdict::Drifted, true, 1),
        rep(Verdict::Recovered, false, 1),
        rep(Verdict::Failed, false, 1),
        rep(Verdict::Skipped, true, 1),
    ]);
    assert_eq!((s.n, s.passed, s.recovered, s.failed, s.drifted, s.skipped), (4, 1, 1, 1, 1, 1));
    assert_eq!(s.routing_rate, Rate { part: 2, whole: 4 }, "a skip routed nothing");
    assert_eq!(s.final_rate, Rate { part: 2, whole: 4 });
    assert_eq!(s.first_try_rate, Rate { part: 1, whole: 4 });
}

#[test]
fn a_percentile_is_a_time_some_case_took() {
    let times = [50u64, 10, 40, 20, 30, 60, 100, 70, 90, 80];
    let reports: Vec<CaseReport> =
        times.iter().map(|ms| rep(Verdict::Passed, true, *ms)).collect();
    let s = summarise(&reports);
    assert_eq!(s.p50_ms, 50);
    assert_eq!(s.p95_ms, 90);
    let one = summarise(&vec![rep(Verdict::Passed, true, 7)]);
    assert_eq!((one.p50_ms, one.p95_ms), (7, 7));
    let none = summarise(&vec![rep(Verdict::Skipped, true, 7)]);
    assert_eq!((none.p50_ms, none.p95_ms), (0, 0), "a skip took no time");
}

#[test]
fn groups_come_in_the_order_of_their_keys() {
    let report = |lang: &str, verdict: Verdict| CaseReport {
        language: lang.into(),
        ..rep(verdict, true, 5)
    };
    let reports = vec![
        report("ro", Verdict::Failed),
        report("en", Verdict::Passed),
        report("ro", Verdict::Passed),
        report("en", Verdict::Skipped),
    ];
    let by_lang = group_by(&reports, |r: &CaseReport| r.language.clone());
    let keys: Vec<&str> = by_lang.iter().map(|g| g.0.as_str()).collect();
    assert_eq!(keys, vec!["en", "ro"]);
    assert_eq!((by_lang[0].1.n, by_lang[0].1.passed, by_lang[0].1.skipped), (1, 1, 1));
    assert_eq!((by_lang[1].1.n, by_lang[1].1.passed, by_lang[1].1.failed), (2, 1, 1));
    let all = group_by_keys(&reports, &vec!["k".to_string(); 4]);
    assert_eq!(all.len(), 1);
    assert_eq!(all[0].1, summarise(&reports));
    assert!(group_by(&Vec::new(), |r: &CaseReport| r.language.clone()).is_empty());
}
