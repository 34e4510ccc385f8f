//! Did the assistant answer in the language it was spoken to in?
//!
//! Worth scoring separately because it fails independently of everything else:
//! a model can pick the right device, move it, and describe the result in
//! English to someone who spoke Romanian.
//!
//! The hard part is that the replies are short — "Done.", "Gata." — and short
//! text is exactly where statistical language identification gives up. So this
//! answers in three tiers, and the important one is the third: **when it cannot
//! tell, it says so**, and the case is not scored on language at all.

use vstd::prelude::*;

use crate::text;
use crate::text::{cut, cut_filled, holds_any, join, lowercase, own, same, to_chars, trim, Kind};

verus! {

/// The language `whatlang` takes a text to be in, as its three-letter code, and
/// the bits of how sure it is.
pub uninterp spec fn detected(text: Seq<char>) -> Option<(Seq<char>, u64)>;

/// `whatlang::Detector::detect` with the default options, under the name
/// [`detected`]: the code of the language and the IEEE 754 bits of the
/// confidence, where any language is detected.
#[verifier::external_body]
fn detect(text: &str) -> (r: Option<(String, u64)>)
    ensures
        match r {
            Some(d) => detected(text@) == Some((d.0@, d.1)),
            None => detected(text@) is None,
        },
{
    match whatlang::Detector::new().detect(text) {
        Some(info) => Some((info.lang().code().to_string(), info.confidence().to_bits())),
        None => None,
    }
}

/// The bits of 0.65, the least confidence that is trusted.
pub const CONFIDENT_BITS: u64 = 0x3FE4_CCCC_CCCC_CCCD;

/// The bits of infinity. Between the bits of a positive number and these, bits
/// are in the order of the numbers they stand for; past them stand negative
/// numbers and what is no number.
pub const INFINITE_BITS: u64 = 0x7FF0_0000_0000_0000;

/// Whether the bits are those of a confidence that is trusted.
pub open spec fn is_confident(bits: u64) -> bool {
    CONFIDENT_BITS <= bits <= INFINITE_BITS
}

/// The tag for a detected language, for the four the suite speaks.
pub open spec fn tag_for(code: Seq<char>) -> Seq<char> {
    if code == "ron"@ {
        "ro"@
    } else if code == "fra"@ {
        "fr"@
    } else if code == "spa"@ {
        "es"@
    } else if code == "eng"@ {
        "en"@
    } else {
        "other"@
    }
}

/// The tag for a detected language.
fn code_for(code: &str) -> (r: &'static str)
    ensures
        r@ == tag_for(code@),
{
    if same(code, "ron") {
        "ro"
    } else if same(code, "fra") {
        "fr"
    } else if same(code, "spa") {
        "es"
    } else if same(code, "eng") {
        "en"
    } else {
        "other"
    }
}

/// A language tag without its region: `ro-RO` is Romanian.
pub open spec fn base_tag(tag: Seq<char>) -> Seq<char> {
    text::pieces(tag, Kind::Dash)[0]
}

proof fn lemma_some_piece(s: Seq<char>, k: Kind)
    ensures
        text::pieces(s, k).len() > 0,
{
}

fn base(tag: &str) -> (r: String)
    ensures
        r@ == base_tag(tag@),
{
    let parts = cut(tag, Kind::Dash);
    proof {
        lemma_some_piece(tag@, Kind::Dash);
        assert(text::texts(parts@)[0] == parts@[0]@);
    }
    parts[0].clone()
}

// ---------------------------------------------------------------------------
// Marker words
// ---------------------------------------------------------------------------

/// Words that belong to English alone among the languages of the suite. Each is
/// padded with blanks, so that it matches a whole word.
pub open spec fn english_markers() -> Seq<Seq<char>> {
    seq![
        " the "@,
        " i've "@,
        " i have "@,
        " turned "@,
        " switched "@,
        " is now "@,
        " sorry "@,
        " can't "@,
        " cannot "@,
        " done "@,
    ]
}

/// Words that belong to Romanian alone.
pub open spec fn romanian_markers() -> Seq<Seq<char>> {
    seq![
        " am "@,
        " este "@,
        " și "@,
        " să "@,
        " gata "@,
        " lumina "@,
        " aprins "@,
        " aprinsă "@,
        " stins "@,
        " stinsă "@,
        " oprit "@,
        " pornit "@,
        " acum "@,
    ]
}

/// Words that belong to French alone.
pub open spec fn french_markers() -> Seq<Seq<char>> {
    seq![
        " j'ai "@,
        " est "@,
        " allumé "@,
        " allumée "@,
        " éteint "@,
        " éteinte "@,
        " lumière "@,
        " c'est "@,
        " fait "@,
        " je "@,
        " maintenant "@,
        " désolé "@,
    ]
}

/// Words that belong to Spanish alone.
pub open spec fn spanish_markers() -> Seq<Seq<char>> {
    seq![
        " he "@,
        " está "@,
        " encendido "@,
        " encendida "@,
        " apagado "@,
        " apagada "@,
        " luz "@,
        " hecho "@,
        " listo "@,
        " ahora "@,
        " siento "@,
        " puedo "@,
    ]
}

/// A character that is part of a word as it is, and any other as a blank.
/// Apostrophes survive, because `j'ai` and `c'est` are two of the strongest
/// signals.
pub open spec fn flat_char(c: char) -> char {
    if text::is_alnum(c) || c == '\'' {
        c
    } else {
        ' '
    }
}

/// A reply as its words with one blank between them and one at either end, so
/// that punctuation never hides a marker and a marker never matches mid-word.
pub open spec fn flattened(s: Seq<char>) -> Seq<char> {
    let flat = text::lowered(s).map_values(|c: char| flat_char(c));
    " "@ + text::joined(text::filled_pieces(flat, Kind::Space), " "@) + " "@
}

/// The single language whose markers appear, or `None` when none or several do.
/// Several means the reply is mixed, or a marker is not as unique as it looked.
pub open spec fn marked_language(hay: Seq<char>) -> Option<Seq<char>> {
    let en = text::has_any(hay, english_markers());
    let ro = text::has_any(hay, romanian_markers());
    let fr = text::has_any(hay, french_markers());
    let es = text::has_any(hay, spanish_markers());
    if en && !ro && !fr && !es {
        Some("en"@)
    } else if ro && !en && !fr && !es {
        Some("ro"@)
    } else if fr && !en && !ro && !es {
        Some("fr"@)
    } else if es && !en && !ro && !fr {
        Some("es"@)
    } else {
        None
    }
}

fn flatten(s: &str) -> (r: String)
    ensures
        r@ == flattened(s@),
{
    let low = lowercase(s);
    let v = to_chars(&low);
    let ghost flat_all = text::lowered(s@).map_values(|c: char| flat_char(c));
    let mut flat = String::new();
    for i in 0..v.len()
        invariant
            v@ == text::lowered(s@),
            flat_all == text::lowered(s@).map_values(|c: char| flat_char(c)),
            flat@ == flat_all.take(i as int),
    {
        let c = v[i];
        let kept = crate::text::char_is_alnum(c) || c == '\'';
        flat.push(
            if kept {
                c
            } else {
                ' '
            },
        );
        assert(flat_all.take(i + 1) =~= flat_all.take(i as int).push(flat_all[i as int]));
    }
    assert(flat_all.take(flat_all.len() as int) == flat_all);
    let parts = cut_filled(&flat, Kind::Space);
    let mut out = own(" ");
    let inner = join(&parts, " ");
    out.append(&inner);
    out.append(" ");
    out
}

/// The single language whose markers appear in a reply.
pub fn by_marker(reply: &str) -> (r: Option<&'static str>)
    ensures
        text::opt_str(r) == marked_language(flattened(reply@)),
{
    let hay = flatten(reply);
    let english: Vec<&'static str> = vec![
        " the ",
        " i've ",
        " i have ",
        " turned ",
        " switched ",
        " is now ",
        " sorry ",
        " can't ",
        " cannot ",
        " done ",
    ];
    let romanian: Vec<&'static str> = vec![
        " am ",
        " este ",
        " și ",
        " să ",
        " gata ",
        " lumina ",
        " aprins ",
        " aprinsă ",
        " stins ",
        " stinsă ",
        " oprit ",
        " pornit ",
        " acum ",
    ];
    let french: Vec<&'static str> = vec![
        " j'ai ",
        " est ",
        " allumé ",
        " allumée ",
        " éteint ",
        " éteinte ",
        " lumière ",
        " c'est ",
        " fait ",
        " je ",
        " maintenant ",
        " désolé ",
    ];
    let spanish: Vec<&'static str> = vec![
        " he ",
        " está ",
        " encendido ",
        " encendida ",
        " apagado ",
        " apagada ",
        " luz ",
        " hecho ",
        " listo ",
        " ahora ",
        " siento ",
        " puedo ",
    ];
    assert(text::texts(english@) =~= english_markers());
    assert(text::texts(romanian@) =~= romanian_markers());
    assert(text::texts(french@) =~= french_markers());
    assert(text::texts(spanish@) =~= spanish_markers());
    let en = holds_any(&hay, &english);
    let ro = holds_any(&hay, &romanian);
    let fr = holds_any(&hay, &french);
    let es = holds_any(&hay, &spanish);
    if en && !ro && !fr && !es {
        Some("en")
    } else if ro && !en && !fr && !es {
        Some("ro")
    } else if fr && !en && !ro && !es {
        Some("fr")
    } else if es && !en && !ro && !fr {
        Some("es")
    } else {
        None
    }
}

// ---------------------------------------------------------------------------
// The three tiers
// ---------------------------------------------------------------------------

/// Whether there is enough text for statistics to be worth trusting.
pub open spec fn is_long_enough(s: Seq<char>) -> bool {
    text::filled_pieces(s, Kind::Space).len() >= 5 && s.len() >= 24
}

/// Whether a reply reads as a language, given what the detector makes of it, or
/// `None` when there is not enough to judge.
pub open spec fn judged(
    reply: Seq<char>,
    want: Seq<char>,
    guess: Option<(Seq<char>, u64)>,
) -> Option<bool> {
    let s = text::trimmed(reply);
    if s.len() == 0 {
        None
    } else {
        match marked_language(flattened(s)) {
            Some(seen) => Some(seen == base_tag(want)),
            None => match guess {
                Some((code, bits)) => if is_long_enough(s) && is_confident(bits) {
                    Some(tag_for(code) == base_tag(want))
                } else {
                    None
                },
                None => None,
            },
        }
    }
}

/// What an optional guess says.
pub open spec fn guess_says(g: Option<(String, u64)>) -> Option<(Seq<char>, u64)> {
    match g {
        Some(p) => Some((p.0@, p.1)),
        None => None,
    }
}

fn long_enough(s: &str) -> (r: bool)
    ensures
        r == is_long_enough(s@),
{
    let parts = cut_filled(s, Kind::Space);
    assert(text::texts(parts@).len() == parts@.len());
    parts.len() >= 5 && s.unicode_len() >= 24
}

/// Whether a reply reads as a language, given what a detector makes of it.
///
/// A marker word only one of the languages uses beats statistics outright on a
/// two-word confirmation, which is most of what a command reply is. Statistics
/// come second, and only with enough text and a confident guess. Otherwise there
/// is no opinion: better a missing number than a wrong one.
pub fn matches_given(reply: &str, want: &str, guess: &Option<(String, u64)>) -> (r: Option<bool>)
    ensures
        r == judged(reply@, want@, guess_says(*guess)),
{
    let s = trim(reply);
    if s.as_str().is_empty() {
        return None;
    }
    let tag = base(want);
    if let Some(seen) = by_marker(&s) {
        return Some(same(seen, &tag));
    }
    if !long_enough(&s) {
        return None;
    }
    match guess {
        Some(g) => if CONFIDENT_BITS <= g.1 && g.1 <= INFINITE_BITS {
            Some(same(code_for(&g.0), &tag))
        } else {
            None
        },
        None => None,
    }
}

/// Whether `reply` reads as `want`, or `None` when there is not enough to judge.
///
/// `want` is a language tag; a region suffix is ignored.
pub fn matches(reply: &str, want: &str) -> (r: Option<bool>)
    ensures
        r == judged(reply@, want@, detected(text::trimmed(reply@))),
{
    let s = trim(reply);
    let guess = detect(&s);
    matches_given(reply, want, &guess)
}

// ---------------------------------------------------------------------------
// Laws
// ---------------------------------------------------------------------------

/// What cannot be judged is not scored: an empty reply, and a short one without
/// a marker, yield no opinion whatever a detector says.
pub proof fn law_no_evidence_no_score(
    reply: Seq<char>,
    want: Seq<char>,
    guess: Option<(Seq<char>, u64)>,
)
    requires
        text::trimmed(reply).len() == 0 || (marked_language(flattened(text::trimmed(reply)))
            is None && !is_long_enough(text::trimmed(reply))),
    ensures
        judged(reply, want, guess) is None,
{
}

/// A region is not a different language: two tags with the same base are judged
/// alike.
pub proof fn law_a_region_makes_no_difference(
    reply: Seq<char>,
    a: Seq<char>,
    b: Seq<char>,
    guess: Option<(Seq<char>, u64)>,
)
    requires
        base_tag(a) == base_tag(b),
    ensures
        judged(reply, a, guess) == judged(reply, b, guess),
{
}

/// A reply with the markers of two languages is evidence of neither.
pub proof fn law_a_mixed_reply_is_no_evidence(hay: Seq<char>)
    requires
        ({
            let en = text::has_any(hay, english_markers());
            let ro = text::has_any(hay, romanian_markers());
            let fr = text::has_any(hay, french_markers());
            let es = text::has_any(hay, spanish_markers());
            (en && ro) || (en && fr) || (en && es) || (ro && fr) || (ro && es) || (fr && es)
        }),
    ensures
        marked_language(hay) is None,
{
}

/// A marker beats statistics: where one language is marked, what the detector
/// says changes nothing.
pub proof fn law_a_marker_beats_statistics(
    reply: Seq<char>,
    want: Seq<char>,
    a: Option<(Seq<char>, u64)>,
    b: Option<(Seq<char>, u64)>,
)
    requires
        marked_language(flattened(text::trimmed(reply))) is Some,
    ensures
        judged(reply, want, a) == judged(reply, want, b),
{
}

/// A guess is sure enough from sixty-five hundredths up, as the bits of the number
/// say: those of what is no number, and of anything below nought, lie above the
/// bits of infinity.
pub proof fn law_how_sure_a_guess_must_be(bits: u64)
    ensures
        is_confident(bits) <==> 0x3FE4_CCCC_CCCC_CCCD <= bits && bits <= 0x7FF0_0000_0000_0000,
{
}

/// The four languages that are told apart, by their codes; any other is another.
pub proof fn law_four_languages_are_told_apart(code: Seq<char>)
    ensures
        tag_for("ron"@) == "ro"@,
        tag_for("fra"@) == "fr"@,
        tag_for("spa"@) == "es"@,
        tag_for("eng"@) == "en"@,
        code != "ron"@ && code != "fra"@ && code != "spa"@ && code != "eng"@ ==> tag_for(code)
            == "other"@,
{
    reveal_strlit("ron");
    reveal_strlit("fra");
    reveal_strlit("spa");
    reveal_strlit("eng");
    assert("ron"@[0] == 'r' && "fra"@[0] == 'f' && "spa"@[0] == 's' && "eng"@[0] == 'e');
}

/// A language's tag is what stands before its region, whichever dash they are
/// joined by.
pub proof fn law_the_tag_stands_before_the_region(a: Seq<char>, dash: char, b: Seq<char>)
    requires
        forall|i: int| 0 <= i < a.len() ==> #[trigger] a[i] != '-' && a[i] != '_',
        dash == '-' || dash == '_',
    ensures
        base_tag(a) == a,
        base_tag(a + seq![dash] + b) == a,
{
    assert forall|i: int| 0 <= i < a.len() implies !text::of_kind(Kind::Dash, #[trigger] a[i]) by {
        assert(a[i] != '-' && a[i] != '_');
    }
    text::law_pieces_are_what_stands_between(a, dash, b, Kind::Dash);
}

/// A language is marked exactly where a reply holds a marker of it and none of
/// the other three.
pub proof fn law_one_language_alone_is_marked(hay: Seq<char>)
    ensures
        ({
            let en = text::has_any(hay, english_markers());
            let ro = text::has_any(hay, romanian_markers());
            let fr = text::has_any(hay, french_markers());
            let es = text::has_any(hay, spanish_markers());
            &&& en && !ro && !fr && !es ==> marked_language(hay) == Some("en"@)
            &&& ro && !en && !fr && !es ==> marked_language(hay) == Some("ro"@)
            &&& fr && !en && !ro && !es ==> marked_language(hay) == Some("fr"@)
            &&& es && !en && !ro && !fr ==> marked_language(hay) == Some("es"@)
            &&& !en && !ro && !fr && !es ==> marked_language(hay) is None
        }),
{
}

/// The words that mark each language.
pub proof fn law_the_markers_of_each_language()
    ensures
        english_markers() == seq![
            " the "@,
            " i've "@,
            " i have "@,
            " turned "@,
            " switched "@,
            " is now "@,
            " sorry "@,
            " can't "@,
            " cannot "@,
            " done "@,
        ],
        romanian_markers() == seq![
            " am "@,
            " este "@,
            " și "@,
            " să "@,
            " gata "@,
            " lumina "@,
            " aprins "@,
            " aprinsă "@,
            " stins "@,
            " stinsă "@,
            " oprit "@,
            " pornit "@,
            " acum "@,
        ],
        french_markers() == seq![
            " j'ai "@,
            " est "@,
            " allumé "@,
            " allumée "@,
            " éteint "@,
            " éteinte "@,
            " lumière "@,
            " c'est "@,
            " fait "@,
            " je "@,
            " maintenant "@,
            " désolé "@,
        ],
        spanish_markers() == seq![
            " he "@,
            " está "@,
            " encendido "@,
            " encendida "@,
            " apagado "@,
            " apagada "@,
            " luz "@,
            " hecho "@,
            " listo "@,
            " ahora "@,
            " siento "@,
            " puedo "@,
        ],
{
}

/// A character is kept where it is a letter, a digit or an apostrophe, and is a
/// blank otherwise; a flattened text is its words in small letters with one blank
/// between them and one at either end.
pub proof fn law_a_text_is_flattened_to_its_words(c: char, s: Seq<char>)
    ensures
        text::is_alnum(c) || c == '\'' ==> flat_char(c) == c,
        !text::is_alnum(c) && c != '\'' ==> flat_char(c) == ' ',
        ({
            let flat = text::lowered(s).map_values(|c: char| flat_char(c));
            flattened(s) == seq![' '] + text::joined(
                text::filled_pieces(flat, Kind::Space),
                seq![' '],
            ) + seq![' ']
        }),
{
    reveal_strlit(" ");
    assert(" "@ == seq![' ']);
}

/// What is long enough to guess at: five words and twenty-four characters.
pub proof fn law_what_is_long_enough(s: Seq<char>)
    ensures
        is_long_enough(s) <==> text::filled_pieces(s, Kind::Space).len() > 4 && s.len() > 23,
{
}

/// A reply is judged by its markers where it has one language's alone; otherwise
/// by a guess that is sure enough, of a reply that is long enough; and otherwise
/// not at all. It matches where the language seen is the one wanted, its region
/// aside.
pub proof fn law_how_a_reply_is_judged(
    reply: Seq<char>,
    want: Seq<char>,
    code: Seq<char>,
    bits: u64,
)
    requires
        text::trimmed(reply).len() > 0,
    ensures
        ({
            let s = text::trimmed(reply);
            let seen = marked_language(flattened(s));
            &&& seen is Some ==> judged(reply, want, Some((code, bits))) == Some(
                seen->0 == base_tag(want),
            )
            &&& seen is Some ==> judged(reply, want, None) == Some(seen->0 == base_tag(want))
            &&& seen is None && is_long_enough(s) && is_confident(bits) ==> judged(
                reply,
                want,
                Some((code, bits)),
            ) == Some(tag_for(code) == base_tag(want))
            &&& seen is None && (!is_long_enough(s) || !is_confident(bits)) ==> judged(
                reply,
                want,
                Some((code, bits)),
            ) is None
            &&& seen is None ==> judged(reply, want, None) is None
        }),
{
}

} // verus!
