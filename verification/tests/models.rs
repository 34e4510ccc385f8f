use fono::models::{
    announce_pending_downloads, choose_voices, ensure_local_tts_route, ensure_models, ensure_step,
    eta_text, first_byte, local_tts_pending_mb, notice, pack_pending_mb, pending_downloads,
    remaining_secs, resolve_local_stt, resolve_local_tts_voices, sample, total_mb, voice_languages,
    voice_present, would_notify, Claim, DownloadNotices, EnsureOutcome, EnsureStep, LlmModel,
    LocalParts, Look, Part, Pending, Rate, Remaining, SttLookup, SttModel, Voice, VoiceFiles,
    RATE_SAMPLE_MS,
};

const SECOND: u64 = 1_000_000_000;

fn rate(bytes: u64, seconds: u64) -> Rate {
    Rate { bytes, nanos: seconds * SECOND }
}

fn seconds(n: u64) -> Remaining {
    Remaining { nanos: (n * SECOND) as u128, parts: 1 }
}

/// Would this download be announced, given the rate measured by the decision
/// point? `spent` is the total time elapsed when the verdict is reached.
fn would_notify_after(mb: u32, done: u64, measured: Rate, spent: u64) -> bool {
    would_notify(&remaining_secs(mb, done, measured), spent)
}

/// The common case: about a second of DNS/TLS, then the sample window.
fn announced(mb: u32, done: u64, measured: Rate) -> bool {
    would_notify_after(mb, done, measured, SECOND + RATE_SAMPLE_MS * 1_000_000)
}

#[test]
fn a_quick_download_is_not_worth_a_notification() {
    // A 30 MB voice on a 10 MB/s link: 30 MB in by the 3 s mark, so it is done
    // at ~3 s. Well inside the threshold — say nothing.
    assert!(!announced(30, 30_000_000, rate(10_000_000, 1)));
}

#[test]
fn a_slow_download_is_announced() {
    // A 700 MB LLM at 2 MB/s: ~5 minutes to go. Worth interrupting for.
    assert!(announced(700, 6_000_000, rate(2_000_000, 1)));
}

#[test]
fn a_download_just_over_the_threshold_is_announced() {
    // 1 s connecting + 3 s sampled + 12 s projected = 16 s, past the bar.
    assert!(announced(15, 3_000_000, rate(1_000_000, 1)));
}

/// A 292 MB model that genuinely finishes in ~11 s, whose first byte lands at
/// ~1.0 s and which has written 73.5 MB by the 4 s mark.
#[test]
fn connection_setup_is_not_averaged_into_the_rate() {
    let done = 73_500_000;
    let naive_rate = rate(done, 4);
    assert!(
        would_notify_after(292, done, naive_rate, 4 * SECOND),
        "averaging in the idle first second over-estimates and notifies needlessly"
    );

    let anchored_rate = rate(done, 3);
    assert!(
        !would_notify_after(292, done, anchored_rate, 4 * SECOND),
        "the true rate shows this finishes inside the threshold"
    );
}

#[test]
fn a_stalled_download_is_announced_even_without_an_estimate() {
    // Nothing moved: offline, or a mirror still handshaking. This is exactly
    // when a silent run looks like a hang, so speak up.
    assert!(announced(300, 0, rate(0, 1)));
}

#[test]
fn eta_reports_minutes_remaining_at_the_measured_rate() {
    assert_eq!(eta_text(seconds(294), rate(1_000_000, 1)), "about 5 min left (1.0 MB/s)");
}

#[test]
fn eta_says_less_than_a_minute_when_nearly_done() {
    assert_eq!(eta_text(seconds(2), rate(5_000_000, 1)), "less than a minute left (5.0 MB/s)");
}

#[test]
fn remaining_is_unknown_when_the_transfer_has_not_moved() {
    assert!(remaining_secs(300, 0, rate(0, 1)).is_none());
}

#[test]
fn the_time_left_is_what_is_left_over_the_rate() {
    assert_eq!(
        remaining_secs(2, 500_000, rate(250_000, 1)),
        Some(Remaining { nanos: 1_500_000 * SECOND as u128, parts: 250_000 })
    );
    assert_eq!(
        remaining_secs(1, 9_000_000, rate(1_000, 1)).map(|t| t.nanos),
        Some(0),
        "more in than expected leaves nothing"
    );
    assert!(remaining_secs(1, 0, rate(999, 1)).is_none(), "under a thousand bytes a second");
    assert!(remaining_secs(1, 0, rate(1_000, 1)).is_some());
}

#[test]
fn minutes_are_rounded_up_and_rates_to_the_nearest_tenth() {
    assert_eq!(eta_text(seconds(60), rate(5_240_000, 1)), "about 1 min left (5.2 MB/s)");
    assert_eq!(eta_text(seconds(61), rate(5_260_000, 1)), "about 2 min left (5.3 MB/s)");
    assert_eq!(eta_text(seconds(59), rate(49_999, 1)), "less than a minute left (0.0 MB/s)");
    assert_eq!(eta_text(seconds(59), rate(50_001, 1)), "less than a minute left (0.1 MB/s)");
    assert_eq!(eta_text(seconds(59), rate(150_000, 1)), "less than a minute left (0.2 MB/s)");
    assert_eq!(eta_text(seconds(59), rate(250_000, 1)), "less than a minute left (0.2 MB/s)");
}

#[test]
fn a_rate_is_measured_from_the_first_byte() {
    assert_eq!(
        sample(100, 150, 450, 3 * SECOND),
        (350, Rate { bytes: 300, nanos: 3 * SECOND })
    );
    assert_eq!(sample(5, 5, 5, 0), (0, Rate { bytes: 0, nanos: 1_000_000 }), "never over nothing");
    assert_eq!(sample(9, 9, 5, SECOND).0, 0, "a counter that went back counts nothing");
    assert_eq!(first_byte(10, 11, 0), Look::Moving(11));
    assert_eq!(first_byte(10, 10, 19_999), Look::Again);
    assert_eq!(first_byte(10, 10, 20_000), Look::GiveUp);
}

#[test]
fn a_notice_carries_the_time_left_where_it_is_known() {
    assert_eq!(
        notice("a model (700 MB)", 700, 4 * SECOND, &Some((6_000_000, rate(6_000_000, 3)))),
        Some("a model (700 MB) — about 6 min left (2.0 MB/s)".to_string())
    );
    assert_eq!(notice("b", 30, 4 * SECOND, &Some((30_000_000, rate(30_000_000, 3)))), None);
    assert_eq!(notice("c", 30, 20 * SECOND, &None), Some("c".to_string()));
}

#[test]
fn a_ready_is_owed_only_once_and_only_where_it_was_announced() {
    let mut n = DownloadNotices::new();
    assert_eq!(n.claim(), Claim::NotOwed);
    n.started();
    assert_eq!(n.claim(), Claim::Wait);
    n.started();
    n.decide(true);
    assert_eq!(n.claim(), Claim::Ready);
    assert!(n.take_download_notice());
    assert!(!n.take_download_notice());
    n.started();
    n.decide(false);
    assert_eq!(n.claim(), Claim::Ready);
    assert!(!n.take_download_notice(), "too quick to mention, so nothing is owed");
}

fn llm(name: &str, stem: &str, present: bool, mb: Option<u32>) -> Option<LlmModel> {
    Some(LlmModel { name: name.into(), stem: stem.into(), present, mb })
}

fn listed(pending: &[Pending]) -> Vec<(&str, u32)> {
    pending.iter().map(|p| (p.what.as_str(), p.mb)).collect()
}

#[test]
fn everything_missing_is_listed_and_a_shared_model_once() {
    let stt = Some(SttModel { name: "small".into(), missing: true, mb: Some(190) });
    let all = pending_downloads(
        &stt,
        &llm("gemma", "g", false, Some(800)),
        &llm("gemma-it", "g", false, Some(800)),
        Some(30),
    );
    assert_eq!(
        listed(&all),
        vec![
            ("speech model small", 190),
            ("cleanup model gemma", 800),
            ("text-to-speech voice", 30),
        ]
    );
    let two = pending_downloads(
        &None,
        &llm("a", "a", true, Some(1)),
        &llm("b", "b", false, None),
        None,
    );
    assert_eq!(listed(&two), vec![("assistant model b", 0)]);
    let none = pending_downloads(
        &Some(SttModel { name: "small".into(), missing: false, mb: None }),
        &llm("a", "a", true, None),
        &None,
        None,
    );
    assert!(none.is_empty(), "every start after the first is silent");
}

#[test]
fn what_is_announced_names_every_model_and_its_weight() {
    let pending = |what: &str, mb: u32| Pending { what: what.into(), mb };
    assert!(announce_pending_downloads(&Vec::new()).is_none());
    let one = announce_pending_downloads(&vec![pending("speech model small", 190)]).unwrap();
    assert_eq!(one.summary, "Fono — downloading a model");
    assert_eq!(one.body, "speech model small (190 MB)");
    let two = announce_pending_downloads(&vec![pending("a", 1), pending("b", 2)]).unwrap();
    assert_eq!(two.summary, "Fono — downloading 2 models");
    assert_eq!(two.body, "a, b (3 MB)");
    assert_eq!(two.total_mb, 3);
    let unknown = announce_pending_downloads(&vec![pending("a", 0)]).unwrap();
    assert_eq!(unknown.body, "a");
    assert_eq!(total_mb(&vec![pending("a", u32::MAX), pending("b", 1)]), None);
    assert_eq!(total_mb(&vec![pending("a", u32::MAX)]), Some(u32::MAX));
}

#[test]
fn a_speech_model_is_resolved_or_refused_with_a_reason() {
    assert_eq!(resolve_local_stt(SttLookup::Found(7), "auto"), Ok(Some(7)));
    assert_eq!(resolve_local_stt::<u8>(SttLookup::Unknown, "auto"), Ok(None));
    assert_eq!(
        resolve_local_stt::<u8>(SttLookup::Refused("tiny ships only q5_1".into()), "fp16"),
        Err("tiny ships only q5_1".to_string())
    );
    assert_eq!(
        resolve_local_stt::<u8>(SttLookup::BadQuantization, "q\"9"),
        Err(r#"invalid `[stt.local].quantization = "q\"9"` — expected `auto`, `fp16`, `q5_1`, or `q8_0`"#.to_string())
    );
}

#[test]
fn a_model_is_downloaded_only_where_it_is_known_and_missing() {
    assert_eq!(ensure_step(false, false), EnsureStep::Done(EnsureOutcome::Unknown));
    assert_eq!(ensure_step(false, true), EnsureStep::Done(EnsureOutcome::Unknown));
    assert_eq!(ensure_step(true, true), EnsureStep::Done(EnsureOutcome::AlreadyPresent));
    assert_eq!(ensure_step(true, false), EnsureStep::Download);
}

#[test]
fn only_local_parts_are_made_sure_of() {
    let mut c = LocalParts {
        stt_local: true,
        polish_local: true,
        assistant_enabled: true,
        assistant_local: true,
        tts_local: true,
    };
    assert_eq!(
        ensure_models(&c),
        vec![Part::Speech, Part::Cleanup, Part::Assistant, Part::Voice]
    );
    c.assistant_enabled = false;
    c.stt_local = false;
    assert_eq!(ensure_models(&c), vec![Part::Cleanup, Part::Voice]);
}

fn voice(name: &str, engine: &str) -> Voice {
    Voice {
        name: name.into(),
        engine: engine.into(),
        model_size: 20_000_000,
        config_size: Some(5_000),
        style_size: None,
    }
}

fn languages(list: &[&str]) -> Vec<String> {
    list.iter().map(|s| s.to_string()).collect()
}

fn chosen(r: Result<Vec<Voice>, String>) -> Result<Vec<String>, String> {
    r.map(|v| v.into_iter().map(|x| x.name).collect())
}

#[test]
fn an_explicit_voice_pins_one_unless_the_engine_says_otherwise() {
    let by_language = vec![Some(voice("en-a", "kokoro"))];
    let resolve = |name: &str, engine: Option<&str>, found: Option<Voice>| {
        chosen(resolve_local_tts_voices(
            name,
            &engine.map(str::to_string),
            &languages(&["en"]),
            &found,
            &by_language,
            &None,
        ))
    };
    let one = |n: &str| Ok(vec![n.to_string()]);
    assert_eq!(resolve("ro-x", None, Some(voice("ro-x", "piper"))), one("ro-x"));
    assert_eq!(resolve("ro-x", Some("piper"), Some(voice("ro-x", "piper"))), one("ro-x"));
    assert_eq!(resolve("ro-x", Some("kokoro"), Some(voice("ro-x", "piper"))), one("en-a"));
    assert_eq!(resolve("nope", Some("kokoro"), None), one("en-a"));
    assert_eq!(
        resolve("nope", None, None),
        Err(r#"[tts.local].voice = "nope" is not in the voice catalog"#.to_string())
    );
    assert_eq!(resolve("", None, None), one("en-a"));
}

#[test]
fn one_voice_is_chosen_per_language_and_none_twice() {
    let found = vec![
        Some(voice("a", "p")),
        None,
        Some(voice("b", "p")),
        Some(voice("a", "p")),
    ];
    let names: Vec<String> = choose_voices(&found).into_iter().map(|v| v.name).collect();
    assert_eq!(names, vec!["a", "b"]);
}

#[test]
fn an_engine_without_a_language_falls_back_to_its_first_voice() {
    let resolve = |engine: Option<&str>, first: Option<Voice>, langs: &[&str]| {
        chosen(resolve_local_tts_voices(
            "",
            &engine.map(str::to_string),
            &languages(langs),
            &None,
            &vec![None],
            &first,
        ))
    };
    assert_eq!(resolve(Some("k"), Some(voice("k1", "k")), &["ro"]), Ok(vec!["k1".to_string()]));
    let err = resolve(None, Some(voice("k1", "k")), &["ro"]).unwrap_err();
    assert!(err.contains("(e.g. \"ro\")"), "{err}");
    let err = resolve(Some("k"), None, &[]).unwrap_err();
    assert!(err.contains("(e.g. \"en\")"), "{err}");
    assert_eq!(voice_languages(&languages(&[])), vec!["en"]);
    assert_eq!(voice_languages(&languages(&["ro", "fr"])), vec!["ro", "fr"]);
}

fn files(model: bool, config: Option<bool>, style: Option<bool>) -> VoiceFiles {
    VoiceFiles { model, config, style }
}

#[test]
fn a_voice_is_present_when_all_its_files_are() {
    assert!(voice_present(&files(true, None, None)));
    assert!(voice_present(&files(true, Some(true), Some(true))));
    assert!(!voice_present(&files(false, Some(true), None)));
    assert!(!voice_present(&files(true, Some(false), None)));
    assert!(!voice_present(&files(true, None, Some(false))));
    let here = files(true, None, None);
    let gone = files(false, None, None);
    assert_eq!(ensure_local_tts_route(&vec![here, here]), EnsureOutcome::AlreadyPresent);
    assert_eq!(ensure_local_tts_route(&vec![here, gone]), EnsureOutcome::Downloaded);
    assert_eq!(ensure_local_tts_route(&Vec::new()), EnsureOutcome::AlreadyPresent);
}

#[test]
fn what_is_missing_is_weighed_in_megabytes() {
    let here = files(true, None, None);
    let gone = files(false, None, None);
    let two = vec![voice("a", "p"), voice("b", "p")];
    assert_eq!(local_tts_pending_mb(&two, &vec![here, here]), None);
    assert_eq!(local_tts_pending_mb(&two, &vec![gone, here]), Some(20));
    assert_eq!(local_tts_pending_mb(&two, &vec![gone, gone]), Some(40));
    let tiny = vec![Voice { model_size: 1, config_size: None, ..voice("t", "p") }];
    assert_eq!(local_tts_pending_mb(&tiny, &vec![gone]), Some(1), "at least one");
    assert_eq!(pack_pending_mb(false), Some(140));
    assert_eq!(pack_pending_mb(true), None);
}
