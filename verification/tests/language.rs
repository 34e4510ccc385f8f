use fono::bench_actions::language;
use fono::bench_actions::language::{by_marker, matches_given, CONFIDENT_BITS};


/// The case that matters: a two-word confirmation, far too short for any
/// statistical detector.
#[test]
fn judges_a_very_short_confirmation() {
    assert_eq!(language::matches("Gata.", "ro"), Some(true));
    assert_eq!(language::matches("Gata.", "en"), Some(false));
    assert_eq!(language::matches("Done.", "en"), Some(true));
}

/// The recorded failure: acted on correctly, answered in the wrong
/// language.
#[test]
fn catches_an_english_reply_to_a_romanian_command() {
    assert_eq!(language::matches("I've turned the light on.", "ro"), Some(false));
}

#[test]
fn recognises_french_and_spanish() {
    assert_eq!(language::matches("C'est fait.", "fr"), Some(true));
    assert_eq!(language::matches("Listo.", "es"), Some(true));
    assert_eq!(language::matches("Listo.", "fr"), Some(false));
}

/// A region suffix is not a different language.
#[test]
fn ignores_a_region_suffix() {
    assert_eq!(language::matches("Done.", "en-GB"), Some(true));
}

/// The important one. Anything unjudgeable must produce no score rather
/// than a guess, or the language column fills up with the detector's own
/// noise.
#[test]
fn says_nothing_when_it_cannot_tell() {
    assert_eq!(language::matches("", "en"), None);
    assert_eq!(language::matches("OK", "en"), None);
    assert_eq!(language::matches("42", "ro"), None);
}

/// A reply carrying markers from two languages is not evidence of either.
#[test]
fn a_mixed_reply_yields_no_verdict() {
    assert_eq!(language::matches("Gata, the light is on.", "ro"), None);
}

/// Longer text falls through to the detector, so unmarked sentences are
/// still judged.
#[test]
fn falls_back_to_detection_on_longer_text() {
    let long = "Zonele de acoperire pentru dispozitivele conectate au fost configurate \
                corespunzător de către administrator.";
    assert_eq!(language::matches(long, "ro"), Some(true));
}

/// A detector that is not confident is not believed, and a marker beats one that
/// is.
#[test]
fn a_guess_counts_only_when_it_is_confident() {
    let long = "abcdef ghijkl mnopqr stuvwx yzabcd";
    let guess = |code: &str, bits: u64| Some((code.to_string(), bits));
    assert_eq!(matches_given(long, "ro", &guess("ron", CONFIDENT_BITS)), Some(true));
    assert_eq!(matches_given(long, "en", &guess("ron", CONFIDENT_BITS)), Some(false));
    assert_eq!(matches_given(long, "ro", &guess("deu", CONFIDENT_BITS)), Some(false));
    assert_eq!(matches_given(long, "ro", &guess("ron", CONFIDENT_BITS - 1)), None);
    assert_eq!(matches_given(long, "ro", &guess("ron", f64::NAN.to_bits())), None);
    assert_eq!(matches_given(long, "ro", &guess("ron", (-1.0f64).to_bits())), None);
    assert_eq!(matches_given(long, "ro", &None), None);
    assert_eq!(CONFIDENT_BITS, 0.65f64.to_bits());
    assert_eq!(
        matches_given("Gata, acum totul merge bine.", "ro", &guess("eng", 1.0f64.to_bits())),
        Some(true),
        "a marker beats statistics"
    );
    assert_eq!(
        matches_given("abc def ghi jkl", "ro", &guess("ron", 1.0f64.to_bits())),
        None,
        "too short for statistics"
    );
}

#[test]
fn a_marker_is_a_whole_word() {
    assert_eq!(by_marker("Gata!"), Some("ro"));
    assert_eq!(by_marker("theatre"), None);
    assert_eq!(by_marker("J'ai allumé"), Some("fr"));
    assert_eq!(by_marker("THE lamp"), Some("en"));
    assert_eq!(by_marker("ya está"), Some("es"));
}

/// An unmarked English sentence is recognised by the detector and is not taken
/// for Romanian.
#[test]
fn the_detector_tells_languages_apart() {
    let long = "Coverage zones for connected devices were configured properly by our network \
                administrator yesterday evening.";
    assert_eq!(by_marker(long), None);
    assert_eq!(language::matches(long, "en"), Some(true));
    assert_eq!(language::matches(long, "ro"), Some(false));
    assert_eq!(language::matches(long, "ro_RO"), Some(false));
}
