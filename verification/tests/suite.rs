use fono::bench_actions::fixture::{
    Case, CaseReport, Class, Manifest, Verdict,
};
use fono::bench_actions::house::House;
use fono::bench_actions::requirement::Requirement;
use fono::bench_actions::runner::{CaseDetail, RunOutcome};
use fono::bench_actions::suite::{
    consider, default_fixtures, endpoint_for, print_summary, refuse_backend, show_house, squash,
    Args, FileStep, Models, Start,
};

/// The whole point of committed fixtures: the same fixture has to find the
/// server whatever the user called it.
#[test]
fn server_names_match_however_they_are_written() {
    for name in ["HomeAssistant", "Home Assistant", "home-assistant", "home_assistant"] {
        assert_eq!(squash(name), squash("Home Assistant"), "{name}");
    }
}

#[test]
fn different_servers_still_differ() {
    assert_ne!(squash("Home Assistant"), squash("Notes"));
}

#[test]
fn squashing_keeps_letters_and_digits_of_any_script() {
    assert_eq!(squash("Țară-2 Café!"), "țară2café");
    assert_eq!(squash(" -_."), "");
}

fn names(list: &[&str]) -> Vec<String> {
    list.iter().map(|s| s.to_string()).collect()
}

#[test]
fn the_first_server_meant_is_taken() {
    let servers = names(&["Notes", "home-assistant", "HomeAssistant"]);
    assert_eq!(endpoint_for(&servers, "Home Assistant"), Some(1));
    assert_eq!(endpoint_for(&servers, "Calendar"), None);
    assert_eq!(endpoint_for(&Vec::new(), "Notes"), None);
}

fn args() -> Args {
    Args {
        fixtures: Vec::new(),
        languages: names(&["en", "ro"]),
        repeats: 3,
        dry_run: true,
        quiet_hours: false,
        only: Some("room".into()),
        backend: None,
        model: None,
        grammar: None,
        show_house: false,
        trace: false,
        out: None,
    }
}

#[test]
fn the_options_are_those_asked_for() {
    let o = args().options();
    assert_eq!(o.languages, names(&["en", "ro"]));
    assert_eq!(o.repeats, 3);
    assert!(o.dry_run && !o.quiet_hours);
    assert_eq!(o.only.as_deref(), Some("room"));
}

#[test]
fn a_run_without_servers_is_refused() {
    assert!(matches!(args().start(true, &Vec::new()), Start::Refused(_)));
    match args().start(false, &names(&["home"])) {
        Start::Refused(why) => assert!(why.contains("nothing to command"), "{why}"),
        other => panic!("{other:?}"),
    }
    assert!(matches!(args().start(true, &names(&["home"])), Start::Suite));
    let listing = Args { show_house: true, ..args() };
    assert!(matches!(listing.start(true, &names(&["home"])), Start::ShowHouse));
}

#[test]
fn a_backend_that_cannot_act_is_refused() {
    assert_eq!(refuse_backend("openai", true), None);
    let why = refuse_backend("llama", false).expect("refused");
    assert!(why.starts_with("the llama assistant cannot invoke tools"), "{why}");
}

#[test]
fn local_fixtures_follow_the_committed_ones() {
    assert_eq!(
        default_fixtures(&names(&["a", "b"]), &names(&["c"])),
        Ok(names(&["a", "b", "c"]))
    );
    assert_eq!(default_fixtures(&names(&["a"]), &Vec::new()), Ok(names(&["a"])));
    assert_eq!(
        default_fixtures(&Vec::new(), &Vec::new()),
        Err("no fixtures found in tests/fixtures/bench_actions".to_string())
    );
}

fn case(id: &str) -> Case {
    Case {
        id: id.into(),
        class: Class::PlainCommand,
        requires: Requirement::Device { domain: "light".into() },
        utterances: Vec::new(),
        precondition: None,
        expect_device: None,
        expect_level: None,
        expect_bystander_unchanged: false,
        expect_tool: None,
        expect_args: None,
        forbid_args: Vec::new(),
        expect_no_change: false,
        retry_allowed: true,
    }
}

#[test]
fn a_file_is_run_where_its_server_is_known() {
    let m = Manifest {
        suite_version: 1,
        server: "Home Assistant".into(),
        cases: vec![case("room_one"), case("plain_two"), case("room_three")],
    };
    match consider("f.toml", &m, &names(&["Notes", "homeassistant"]), &Some("room".into())) {
        FileStep::Run { server, heading } => {
            assert_eq!(server, 1);
            assert_eq!(heading, "\nf.toml — 2 cases");
        }
        other => panic!("{other:?}"),
    }
    match consider("f.toml", &m, &names(&["homeassistant"]), &Some("nope".into())) {
        FileStep::Skip(line) => assert_eq!(line, "\nf.toml — no case matches --only"),
        other => panic!("{other:?}"),
    }
    match consider("f.toml", &m, &names(&["Notes", "Mail"]), &None) {
        FileStep::Skip(line) => assert_eq!(
            line,
            "\nf.toml — skipped: no `Home Assistant` server configured (available: Notes, Mail)"
        ),
        other => panic!("{other:?}"),
    }
    match consider("f.toml", &m, &Vec::new(), &None) {
        FileStep::Skip(line) => assert!(line.ends_with("(available: none)"), "{line}"),
        other => panic!("{other:?}"),
    }
}

#[test]
fn every_entity_is_listed_by_area_and_strays_last() {
    let h = House::parse(
        "- names: Lamp, Lampa\n  domain: light\n  state: 'on'\n  brightness: 10\n  areas: Hall\n\
         - names: Front door\n  domain: lock\n  state: locked\n  areas: Hall\n\
         - names: Stray\n  domain: switch\n",
    );
    assert_eq!(
        show_house("home", &h),
        vec![
            "\nhome — 3 entities".to_string(),
            "\n  Hall".to_string(),
            format!("    {:<40} {:<14} {}  [never targeted]", "Front door", "lock", "locked"),
            format!("    {:<40} {:<14} {}  dimmable  (also Lampa)", "Lamp", "light", "on"),
            "\n  (no area)".to_string(),
            format!("    {:<40} {:<14} {}", "Stray", "switch", "-"),
        ]
    );
}

#[test]
fn a_model_is_set_where_the_backend_reads_it() {
    let mut m = Models { is_local: true, local: "a".into(), cloud: "b".into() };
    m.set_model("c");
    assert_eq!((m.local.as_str(), m.cloud.as_str()), ("c", "b"));
    assert_eq!(m.model_name(), "c");
    m.is_local = false;
    m.set_model("d");
    assert_eq!((m.local.as_str(), m.cloud.as_str()), ("c", "d"));
    assert_eq!(m.model_name(), "d");
}

fn rep(id: &str, lang: &str, class: Class, verdict: Verdict, routed: bool, ms: u64) -> CaseReport {
    CaseReport {
        id: id.into(),
        class,
        language: lang.into(),
        verdict,
        routed_first_try: routed,
        outcome_correct: true,
        bystander_held: None,
        reply_truthful: None,
        reply_language_matched: None,
        calls: 1,
        elapsed_ms: ms,
        skipped_because: None,
    }
}

#[test]
fn the_numbers_are_told_as_a_story() {
    let out = RunOutcome {
        safe: vec![
            rep("a", "ro", Class::RoomCommand, Verdict::Failed, true, 30),
            rep("b", "en", Class::PlainCommand, Verdict::Passed, true, 10),
            rep("c", "en", Class::PlainCommand, Verdict::Recovered, false, 20),
            rep("d", "en", Class::PlainCommand, Verdict::Skipped, false, 0),
        ],
        detail: vec![
            CaseDetail {
                id: "a".into(),
                language: "ro".into(),
                said: "aprinde".into(),
                device: "Lamp".into(),
                group: names(&["Lamp"]),
                area: None,
                bystander: None,
                reply: String::new(),
                calls: Vec::new(),
                notes: names(&["nothing moved"]),
            },
            CaseDetail {
                id: "b".into(),
                language: "en".into(),
                said: "on".into(),
                device: "Lamp".into(),
                group: names(&["Lamp"]),
                area: None,
                bystander: None,
                reply: String::new(),
                calls: Vec::new(),
                notes: Vec::new(),
            },
        ],
    };
    assert_eq!(
        print_summary(&out),
        names(&[
            "\n  ran 3   skipped 1",
            "  routed right       67%",
            "  worked first try   33%",
            "  worked in the end  67%   (+1 recovered)",
            "  failed 1   drifted 0",
            "  median 20 ms   slowest tenth 20 ms",
            "\n  by language",
            "    en   routed 50%   final 100%   median 10 ms",
            "    ro   routed 100%   final 0%   median 30 ms",
            "\n  where it went wrong",
            "    RoomCommand   1 of 1",
            "\n  a [ro]",
            "    said: aprinde",
            "    - nothing moved",
            "\n  1 case(s) failed.",
        ])
    );
}

#[test]
fn an_empty_run_is_told_without_dividing() {
    let out = RunOutcome { safe: Vec::new(), detail: Vec::new() };
    let lines = print_summary(&out);
    assert_eq!(lines.len(), 6);
    assert_eq!(lines[3], "  worked in the end  0%   (+0 recovered)");
}
