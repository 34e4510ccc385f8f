use fono::bench_actions::fixture::{Case, Class, Manifest, Verdict};
use fono::bench_actions::house::House;
use fono::bench_actions::requirement::Requirement;
use fono::bench_actions::runner::{
    count_selected, detail, ending, plan, report, restore_failed, selects, skipped, RunOptions,
    RunOutcome, Step,
};
use fono::bench_actions::scoring::judge;
use fono::bench_actions::turn::{ObservedCall, TurnObservation};

fn case(id: &str, requires: Requirement, utterances: &[(&str, &str)]) -> Case {
    Case {
        id: id.into(),
        class: Class::RoomCommand,
        requires,
        utterances: utterances.iter().map(|(l, u)| (l.to_string(), u.to_string())).collect(),
        precondition: None,
        expect_device: Some("on".into()),
        expect_level: None,
        expect_bystander_unchanged: false,
        expect_tool: None,
        expect_args: None,
        forbid_args: Vec::new(),
        expect_no_change: false,
        retry_allowed: true,
    }
}

fn manifest() -> Manifest {
    Manifest {
        suite_version: 1,
        server: "home".into(),
        cases: vec![
            case(
                "room_command",
                Requirement::AreaWithBystander { domain: "light".into() },
                &[("en", "turn on the lights in {area}"), ("ro", "aprinde în {area}")],
            ),
            case(
                "plain_command",
                Requirement::Device { domain: "light".into() },
                &[("en", "turn on the {device}")],
            ),
            case(
                "media_command",
                Requirement::Device { domain: "media_player".into() },
                &[("en", "play")],
            ),
        ],
    }
}

fn options(dry_run: bool, only: Option<&str>) -> RunOptions {
    RunOptions {
        languages: vec!["en".into(), "ro".into()],
        repeats: 0,
        dry_run,
        quiet_hours: false,
        only: only.map(str::to_string),
    }
}

fn house() -> House {
    House::parse(
        "- names: Lamp\n  domain: light\n  state: 'off'\n  areas: Office\n- names: Cooler\n  \
         domain: climate\n  state: 'off'\n  areas: Office\n",
    )
}

fn shown(steps: &[Step]) -> Vec<String> {
    steps
        .iter()
        .map(|s| match s {
            Step::Say(line) => format!("say {line}"),
            Step::Skip(r) => format!(
                "skip {} {} {}",
                r.id,
                r.language,
                r.skipped_because.as_deref().unwrap_or("?")
            ),
            Step::Turn { case, target, said, language, times } => {
                format!("turn {case} {} {language} {times} {said}", target.device.name)
            }
        })
        .collect()
}

#[test]
fn every_case_is_run_or_skipped_in_every_language() {
    let steps = plan(&manifest(), &options(false, None), &house()).unwrap();
    let seen = shown(&steps);
    assert_eq!(seen.len(), 6);
    assert_eq!(
        seen[..4].to_vec(),
        vec![
            "turn 0 Lamp en 1 turn on the lights in Office",
            "turn 0 Lamp ro 1 aprinde în Office",
            "turn 1 Lamp en 1 turn on the Lamp",
            "skip plain_command ro no utterance written in this language",
        ]
    );
    assert!(seen[4].starts_with("skip media_command en "), "{}", seen[4]);
    assert!(seen[5].starts_with("skip media_command ro "), "{}", seen[5]);
}

#[test]
fn a_dry_run_touches_nothing() {
    let steps = plan(&manifest(), &options(true, None), &house()).unwrap();
    assert!(!steps.iter().any(|s| matches!(s, Step::Turn { .. })));
    let seen = shown(&steps);
    assert_eq!(
        seen[0],
        format!(
            "say   {:<34} en  \"turn on the lights in Office\"\n      device: Lamp   must not move: \
             Cooler",
            "room_command"
        )
    );
    let media = seen.iter().find(|s| s.contains("media_command")).unwrap();
    assert!(media.starts_with(&format!("say   {:<34} skipped — ", "media_command")), "{media}");
}

#[test]
fn a_dry_run_names_every_device_of_a_group() {
    let h = House::parse(
        "- names: A\n  domain: light\n  areas: Hall\n- names: B\n  domain: light\n  areas: Hall\n",
    );
    let m = Manifest {
        suite_version: 1,
        server: "home".into(),
        cases: vec![case(
            "group",
            Requirement::NamedArea { area: "Hall".into(), domain: "light".into() },
            &[("en", "go")],
        )],
    };
    let seen = shown(&plan(&m, &options(true, None), &h).unwrap());
    assert_eq!(
        seen[0],
        format!("say   {:<34} en  \"go\"\n      2 devices: A, B", "group")
    );
}

#[test]
fn only_what_is_asked_for_is_planned() {
    let m = manifest();
    let steps = plan(&m, &options(false, Some("plain")), &house()).unwrap();
    assert_eq!(shown(&steps).len(), 2);
    assert_eq!(count_selected(&m.cases, &Some("command".into())), 3);
    assert_eq!(count_selected(&m.cases, &Some("plain".into())), 1);
    assert_eq!(count_selected(&m.cases, &None), 3);
    assert!(!selects(&m.cases[0], &Some("plain".into())));
}

#[test]
fn each_thing_is_said_as_often_as_asked() {
    let mut o = options(false, Some("plain"));
    o.repeats = 4;
    match &plan(&manifest(), &o, &house()).unwrap()[0] {
        Step::Turn { times, .. } => assert_eq!(*times, 4),
        other => panic!("{other:?}"),
    }
}

#[test]
fn an_empty_house_is_refused() {
    let why = plan(&manifest(), &options(false, None), &House::parse("")).unwrap_err();
    assert!(why.starts_with("the server described no devices"), "{why}");
}

#[test]
fn a_skip_scores_nothing_and_says_why() {
    let r = skipped(&manifest().cases[0], "ro", "no such thing");
    assert_eq!(r.verdict, Verdict::Skipped);
    assert_eq!((r.id.as_str(), r.language.as_str()), ("room_command", "ro"));
    assert_eq!(r.skipped_because.as_deref(), Some("no such thing"));
    assert_eq!(r.class, Class::RoomCommand);
    assert!(!r.routed_first_try && !r.outcome_correct);
}

#[test]
fn the_shareable_half_names_nothing_and_the_private_half_everything() {
    let before = house();
    let after = House::parse(
        "- names: Lamp\n  domain: light\n  state: 'on'\n  areas: Office\n- names: Cooler\n  \
         domain: climate\n  state: 'off'\n  areas: Office\n",
    );
    let c = &manifest().cases[0];
    let target = c.requires.resolve(&before).unwrap();
    let obs = TurnObservation {
        reply: "Done, the Lamp is on.".into(),
        calls: vec![ObservedCall {
            name: "HassTurnOn".into(),
            arguments: r#"{"name": "Lamp"}"#.into(),
            outcome: Some("ok".into()),
            failed: false,
        }],
        elapsed_ms: 321,
        produced: true,
        aborted: false,
    };
    let j = judge(c, &target, &obs, &before, &after, "en");
    let safe = report(c, "en", &obs, &j);
    assert_eq!(safe.verdict, Verdict::Passed);
    assert_eq!((safe.calls, safe.elapsed_ms), (1, 321));
    let printed = format!("{safe:?}");
    assert!(!printed.contains("Lamp") && !printed.contains("Office"), "{printed}");
    let d = detail(c, &target, "turn on the lights in Office", "en", &obs, &j);
    assert_eq!(d.device, "Lamp");
    assert_eq!(d.group, vec!["Lamp"]);
    assert_eq!(d.area.as_deref(), Some("Office"));
    assert_eq!(d.bystander.as_deref(), Some("Cooler"));
    assert_eq!(d.said, "turn on the lights in Office");
    assert_eq!(d.reply, "Done, the Lamp is on.");
    assert_eq!(d.calls[0].name, "HassTurnOn");
    assert_eq!(d.calls[0].arguments, r#"{"name": "Lamp"}"#);
    assert_eq!(d.calls[0].outcome.as_deref(), Some("ok"));
    assert!(d.notes.is_empty());
    let why = restore_failed(c, &target, "no route");
    assert!(
        why.starts_with("could not put Lamp back the way it was after `room_command`: no route. "),
        "{why}"
    );
}

/// The home is put back whether or not a step failed, and never on a dry run.
#[test]
fn a_run_is_put_back_however_it_went() {
    let none = || RunOutcome { safe: Vec::new(), detail: Vec::new() };
    let good = ending(&options(false, None), none(), Ok::<(), String>(()));
    assert!(good.put_back);
    assert!(good.result.is_ok());
    let bad = ending(&options(false, None), none(), Err::<(), String>("refused".into()));
    assert!(bad.put_back);
    assert_eq!(bad.result.err().as_deref(), Some("refused"));
    let dry = ending(&options(true, None), none(), Err::<(), String>("refused".into()));
    assert!(!dry.put_back);
    assert!(dry.result.is_err());
}
