use fono::actions::arguments::ANY_KIND;
use fono::actions::catalogue::{
    build, for_backend, page_extras, phrases, rails, rails_facts, target_in, uses_by_tool,
    ActionTools, Configured, HomeNames, Page, Phrase, ServerRails, ToolRow, ToolUse,
    USES_PER_TOOL,
};
use fono::actions::hint::{written_hint, HintArm};
use fono::actions::ladder::VerifyClass;
use fono::value::Json;

fn json(text: &str) -> Json {
    Json::parse(text).expect("the fixture is JSON")
}

fn names(list: &[&str]) -> Vec<String> {
    list.iter().map(|s| s.to_string()).collect()
}

fn row(source: &str, name: &str) -> ToolRow {
    ToolRow {
        source: source.into(),
        name: name.into(),
        description: String::new(),
        schema: json(
            r#"{"type": "object", "properties": {
                "area": {"type": "string"},
                "name": {"type": "string"},
                "domain": {"type": "array", "items": {"type": "string"}}
            }}"#,
        ),
        verify: VerifyClass::Unobserved,
        readback: None,
    }
}

/// A small house: two areas, two kinds of device, and the one tool the traces
/// keep failing on.
fn a_small_home() -> (Vec<HomeNames>, Vec<ToolRow>) {
    (
        vec![HomeNames {
            source: "home".into(),
            places: Some(names(&["Office", "Master bedroom"])),
            devices: Some(names(&["Office outdoor light", "Bedroom blind"])),
            kinds: Some(names(&["light", "cover"])),
        }],
        vec![row("home", "HassTurnOn")],
    )
}

fn values<'a>(rails: &'a [ServerRails], field: &str) -> Vec<&'a str> {
    rails
        .iter()
        .flat_map(|r| &r.slots)
        .filter(|s| s.field == field)
        .flat_map(|s| s.values.iter().map(String::as_str))
        .collect()
}

/// The rails are built from what the house reported and nothing else.
#[test]
fn the_rails_are_built_from_what_the_home_reported() {
    let (homes, rows) = a_small_home();
    let g = rails(&rows, &homes);
    assert_eq!(g.len(), 1, "a home with areas and devices gives rails");
    assert_eq!(g[0].source, "home");
    assert_eq!(values(&g, "area"), vec!["Office", "Master bedroom"]);
    assert_eq!(values(&g, "name"), vec!["Office outdoor light", "Bedroom blind"]);
    let kinds = values(&g, "domain");
    assert!(kinds.contains(&"light") && kinds.contains(&"cover"), "{kinds:?}");
    assert!(kinds.contains(&ANY_KIND), "the escape hatch must be there: {kinds:?}");
}

/// The switch is the whole point of shipping this off by default: it has to be
/// possible to run the same home with and without the rails and compare.
#[test]
fn the_switch_decides_whether_the_rails_exist_at_all() {
    let (homes, rows) = a_small_home();
    let with = Some(true).filter(|on| *on).map(|_| rails(&rows, &homes));
    let without = Some(false).filter(|on| *on).map(|_| rails(&rows, &homes));
    assert!(with.is_some_and(|g| !g.is_empty()), "on means rails");
    assert!(without.is_none(), "off means the model is exactly as free as before");
}

/// A house that said nothing about itself gives nothing to hold the model to.
#[test]
fn a_silent_home_leaves_the_model_free() {
    assert!(rails(&Vec::new(), &Vec::new()).is_empty());
    let silent = rails(&vec![row("home", "HassTurnOn")], &Vec::new());
    assert!(silent.iter().all(|r| r.slots.is_empty()), "{silent:?}");
}

#[test]
fn the_page_is_told_everything_the_prompt_was_told() {
    let (homes, rows) = a_small_home();
    let hint = written_hint(
        &names(&["Office", "Master bedroom"]),
        &Some(names(&["Office outdoor light", "Bedroom blind"])),
        HintArm::Full,
    );
    let mut page = Page {
        place_names: true,
        rails: rails_facts(&rows, &homes),
        places: names(&["Office", "Master bedroom"]),
        devices: json(r#"[{"name": "Office outdoor light"}, {"name": "Bedroom blind"}]"#),
        kinds: names(&["cover", "light"]),
        hint,
        catalogue_hash: "abc".into(),
        offered: 1,
        uses: uses_by_tool(&Vec::new()),
        history_kept: true,
        shortcuts: phrases(&Vec::new()),
    };
    let v = page_extras(&page);
    let text = |j: &Json, key: &str| {
        j.get(key).and_then(|x| x.as_text().map(str::to_string)).unwrap_or_default()
    };

    assert_eq!(v.get("offered"), Some(&json("1")), "the count must be the count in the prompt");
    assert!(text(&v, "hint").contains("Office"), "the sentences about this home must be shown");
    assert!(!text(&v, "catalogue_hash").is_empty());
    let house = v.get("house").expect("house");
    let places = house.get("places").and_then(Json::as_list).expect("areas");
    assert!(places.iter().any(|p| p.as_text() == Some("Office")), "{places:?}");
    let devices = house.get("devices").and_then(Json::as_list).expect("devices");
    assert!(devices.iter().any(|d| text(d, "name") == "Bedroom blind"), "{devices:?}");
    assert_eq!(text(&v, "any_kind"), ANY_KIND);
    // Which field carries an area is asked of the vendor, never assumed, and
    // filed under the server it was asked about.
    let home = v.get("rails").and_then(|r| r.get("home")).expect("rails of this home");
    assert_eq!(text(home, "place"), "area");
    assert_eq!(home.get("areas"), Some(&json("2")));
    assert_eq!(home.get("devices"), Some(&json("2")));

    // Switched off, the page must say so rather than show sentences the model
    // never received — a page that lies is worse than no page.
    page.place_names = false;
    assert_eq!(page_extras(&page).get("hint"), Some(&Json::Null));
}

/// The page must show what a tool was actually asked to do, grouped by tool and
/// capped, so one chatty tool cannot bury the rest.
#[test]
fn past_uses_are_grouped_per_tool_and_capped() {
    let use_of = |tool: &str, said: &str| ToolUse {
        tool: tool.into(),
        at: 0,
        args: r#"{"area":"Office"}"#.into(),
        said: Some(said.into()),
        speaker: Some("Bogdan".into()),
        result: Some("ok".into()),
        ok: Some(true),
    };
    let mut uses: Vec<ToolUse> = (0..9).map(|i| use_of("HassTurnOn", &format!("n{i}"))).collect();
    uses.push(use_of("HassTurnOff", "off please"));

    let v = uses_by_tool(&uses);
    let on = v.get("HassTurnOn").and_then(Json::as_list).expect("grouped under its tool");
    assert_eq!(on.len(), USES_PER_TOOL, "one busy tool must not fill the payload");
    assert_eq!(
        on[0].get("said").and_then(Json::as_text),
        Some("n0"),
        "newest first, as the query returned them"
    );
    assert_eq!(v.get("HassTurnOff").and_then(Json::as_list).map(Vec::len), Some(1));
    assert!(v.get("GetLiveContext").is_none(), "a tool with no uses gets no entry");
}

/// A backend that cannot invoke tools must not be handed them, because the
/// failure is silent.
#[test]
fn a_backend_that_cannot_act_is_told_so_instead_of_being_handed_tools() {
    let tools = || ActionTools {
        descriptors: vec![json(r#"{"type": "function"}"#)],
        tools: Vec::new(),
        hint: Some("Areas: Kitchen".into()),
        grammar: None,
    };
    let (kept, note) = for_backend(Some(tools()), true);
    assert!(kept.is_some(), "a backend that can act keeps its tools");
    assert_eq!(note.as_deref(), Some("Areas: Kitchen"), "and still gets the area names");

    let (kept, note) = for_backend(Some(tools()), false);
    assert!(kept.is_none(), "a backend that cannot act is not handed tools");
    let note = note.expect("and is told why");
    assert!(note.contains("cannot control"), "{note}");
    // The area list is pointless here and would only cost tokens.
    assert!(!note.contains("Kitchen"), "{note}");

    // No tools configured at all stays silent: nothing to explain.
    assert_eq!(for_backend(None, false).1, None);
}

#[test]
fn only_tools_of_a_configured_server_are_offered() {
    let rows = vec![row("home", "HassTurnOn"), row("gone", "search"), row("home", "HassTurnOff")];
    let cfg = |enabled: bool, servers: &[&str], place_names: bool| Configured {
        enabled,
        servers: names(servers),
        place_names,
    };
    let places = Some(names(&["Office"]));
    let t = build(&cfg(true, &["home"], true), &rows, &places, &None, HintArm::Full)
        .expect("something is offered");
    assert_eq!(t.descriptors.len(), 2);
    let offered: Vec<&str> = t.tools.iter().map(|p| p.0.as_str()).collect();
    assert_eq!(offered, vec!["HassTurnOn", "HassTurnOff"]);
    assert_eq!(
        t.descriptors[0],
        json(&format!(
            r#"{{"type": "function", "function": {{"name": "HassTurnOn", "description": "", "parameters": {}}}}}"#,
            rows[0].schema.to_text()
        ))
    );
    assert!(t.hint.is_some_and(|h| h.contains("Office")));
    let t = build(&cfg(true, &["home"], false), &rows, &places, &None, HintArm::Full).unwrap();
    assert!(t.hint.is_none(), "names are told only where that is switched on");
    assert!(build(&cfg(false, &["home"], true), &rows, &places, &None, HintArm::Full).is_none());
    assert!(build(&cfg(true, &[], true), &rows, &places, &None, HintArm::Full).is_none());
    assert!(build(&cfg(true, &["other"], true), &rows, &places, &None, HintArm::Full).is_none());
}

#[test]
fn rails_are_kept_apart_by_server() {
    let (homes, mut rows) = a_small_home();
    rows.push(row("notes", "search"));
    let g = rails(&rows, &homes);
    let notes: Vec<&ServerRails> = g.iter().filter(|r| r.source == "notes").collect();
    assert!(notes.iter().all(|r| r.slots.is_empty()), "an unknown server is left free: {notes:?}");
    let facts = rails_facts(&rows, &homes);
    assert_eq!(facts.get("notes").and_then(|n| n.get("place")), Some(&Json::Null));
}

#[test]
fn a_phrase_is_shown_with_what_it_reaches() {
    assert_eq!(
        target_in("HassTurnOn", r#"{"name": "Hall lamp"}"#).as_deref(),
        Some("Hall lamp")
    );
    assert_eq!(target_in("search", r#"{"name": "Hall lamp"}"#), None);
    assert_eq!(target_in("HassTurnOn", "not json"), None);
    let shown = phrases(&vec![Phrase {
        phrase: "lamp on".into(),
        lang: "en".into(),
        source: "home".into(),
        tool: "HassTurnOn".into(),
        args: r#"{"name": "Hall lamp"}"#.into(),
        origin: "learned".into(),
        state: "fast".into(),
        runs: 2,
        clean: 2,
        last_run: None,
        last_ok: Some(true),
        last_ms: Some(2_400),
    }]);
    let list = shown.as_list().expect("a list");
    assert_eq!(list.len(), 1);
    assert_eq!(list[0].get("target").and_then(Json::as_text), Some("Hall lamp"));
    assert_eq!(list[0].get("last_ms"), Some(&json("2400")));
    assert_eq!(list[0].get("last_run"), Some(&Json::Null));
    assert_eq!(list[0].get("state").and_then(Json::as_text), Some("fast"));
}
