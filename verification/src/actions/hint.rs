//! What the model is told about this home before it acts.
//!
//! Without it a model asks for `bucătărie` in a house whose areas are all named
//! in English, the house matches nothing, and nothing happens. Naming the areas
//! turns an open guess into a closed choice, which is a translation — the one
//! thing a model is reliably good at.
//!
//! The domain rule leads the economy of one call per area, and says *required*:
//! put second, or phrased as advice, it did not keep an area command from
//! opening the blinds.

use vstd::prelude::*;

use crate::text;
use crate::text::{count_text, join, own, same};

verus! {

/// How many device names may go in the prompt. Beyond a few hundred the list
/// would dominate it, and looking devices up is the better answer.
pub const MAX_LISTED_DEVICES: usize = 200;

/// Which parts of the hint to write, for measurement only.
#[derive(Debug, Clone, Copy, PartialEq, Eq, Structural)]
pub enum HintArm {
    /// Everything. What a user gets.
    Full,
    /// Every rule except the two the code already guarantees.
    Lean,
    /// The areas and the devices, and no rules at all.
    NoRules,
    /// The areas and the rules, and no device list.
    NoDevices,
}

/// The arm a setting asks for. Anything not understood asks for everything.
pub open spec fn arm_named(setting: Seq<char>) -> HintArm {
    if setting == "lean"@ {
        HintArm::Lean
    } else if setting == "no-rules"@ {
        HintArm::NoRules
    } else if setting == "no-devices"@ {
        HintArm::NoDevices
    } else {
        HintArm::Full
    }
}

/// The arm a setting asks for.
pub fn hint_arm(setting: &str) -> (r: HintArm)
    ensures
        r == arm_named(setting@),
{
    if same(setting, "lean") {
        HintArm::Lean
    } else if same(setting, "no-rules") {
        HintArm::NoRules
    } else if same(setting, "no-devices") {
        HintArm::NoDevices
    } else {
        HintArm::Full
    }
}

/// The rules, in the order they are numbered.
pub open spec fn rules_said() -> Seq<Seq<char>> {
    seq![
        "Never translate or invent an area or device name — pick the closest one listed."@,
        "Whenever the user says which kind of device they mean — the lights, the heating, the blinds — the domain is required, for example {\"area\": \"Master bedroom\", \"domain\": [\"light\"]}. Leave the domain out only when the user really meant everything in the area, because without it the command reaches every switchable device there and will open the blinds and start the air conditioning."@,
        "One call for an area, not one per device: an area plus a domain is a single call."@,
        "When the user names a device rather than an area, act on it by that name and do not narrow the search to an area: a device's name often mentions somewhere it is not."@,
        "Use the simplest tool that does what was asked. A tool that sets brightness, colour or temperature is only for when the user asked for that value; to switch something on or off, use the plain on/off tool."@,
        "Fill in only the arguments the user actually asked for. Never invent a value because the tool offers the field."@,
    ]
}

fn rules() -> (r: Vec<&'static str>)
    ensures
        text::texts(r@) == rules_said(),
{
    let v: Vec<&'static str> = vec![
        "Never translate or invent an area or device name — pick the closest one listed.",
        "Whenever the user says which kind of device they mean — the lights, the heating, the blinds — the domain is required, for example {\"area\": \"Master bedroom\", \"domain\": [\"light\"]}. Leave the domain out only when the user really meant everything in the area, because without it the command reaches every switchable device there and will open the blinds and start the air conditioning.",
        "One call for an area, not one per device: an area plus a domain is a single call.",
        "When the user names a device rather than an area, act on it by that name and do not narrow the search to an area: a device's name often mentions somewhere it is not.",
        "Use the simplest tool that does what was asked. A tool that sets brightness, colour or temperature is only for when the user asked for that value; to switch something on or off, use the plain on/off tool.",
        "Fill in only the arguments the user actually asked for. Never invent a value because the tool offers the field.",
    ];
    assert(text::texts(v@) =~= rules_said());
    v
}

/// Whether an arm states the rule at position `n`.
pub open spec fn states_rule(arm: HintArm, n: int) -> bool {
    arm != HintArm::NoRules && !(arm == HintArm::Lean && (n == 0 || n == 3))
}

/// The first `n` of the rules an arm states, each on a line of its own under
/// the number it has among all of them.
pub open spec fn rules_written(rules: Seq<Seq<char>>, arm: HintArm, n: nat) -> Seq<char>
    decreases n,
{
    if n == 0 {
        Seq::empty()
    } else {
        let before = rules_written(rules, arm, (n - 1) as nat);
        if states_rule(arm, n - 1) {
            before + "\n"@ + text::decimal(n) + ". "@ + rules[n - 1]
        } else {
            before
        }
    }
}

/// The sentence that names the areas.
pub open spec fn areas_sentence(places: Seq<Seq<char>>) -> Seq<char> {
    "Areas in this home, named exactly as they must be used: "@ + text::joined(places, ", "@)
        + "."@
}

/// The rules an arm states, under their heading.
pub open spec fn rules_part(arm: HintArm) -> Seq<char> {
    if arm == HintArm::NoRules {
        Seq::empty()
    } else {
        "\nRules for acting on this home:"@ + rules_written(rules_said(), arm, rules_said().len())
    }
}

/// The sentence that names the devices, where there are some and few enough to
/// state them all. A truncated list would be worse than none: the model would
/// conclude a real device does not exist.
pub open spec fn devices_part(devices: Option<Seq<Seq<char>>>, arm: HintArm) -> Seq<char> {
    match devices {
        Some(names) => if arm != HintArm::NoDevices && 0 < names.len() <= MAX_LISTED_DEVICES {
            "\nDevices in this home, named exactly as they must be used: "@ + text::joined(
                names,
                ", "@,
            )
                + ". Use one of these names verbatim — the home matches a name only exactly, so a shortened name or one with the words in a different order finds nothing."@
        } else {
            Seq::empty()
        },
        None => Seq::empty(),
    }
}

/// The hint an arm writes, where the home has areas to name.
pub open spec fn hint_said(
    places: Seq<Seq<char>>,
    devices: Option<Seq<Seq<char>>>,
    arm: HintArm,
) -> Option<Seq<char>> {
    if places.len() == 0 {
        None
    } else {
        Some(areas_sentence(places) + rules_part(arm) + devices_part(devices, arm))
    }
}

/// What an optional list of names says.
pub open spec fn opt_names(o: Option<Vec<String>>) -> Option<Seq<Seq<char>>> {
    match o {
        Some(v) => Some(text::texts(v@)),
        None => None,
    }
}

fn write_rules(arm: HintArm) -> (r: String)
    ensures
        r@ == rules_part(arm),
{
    if arm == HintArm::NoRules {
        let none = String::new();
        assert(none@ =~= Seq::empty());
        return none;
    }
    let all = rules();
    let ghost said = rules_said();
    let head = own("\nRules for acting on this home:");
    let ghost heading = head@;
    let mut out = head;
    assert(out@ =~= heading + rules_written(said, arm, 0));
    for i in 0..all.len()
        invariant
            said == text::texts(all@),
            arm != HintArm::NoRules,
            out@ == heading + rules_written(said, arm, i as nat),
    {
        assert(said[i as int] == all@[i as int]@);
        let ghost before = rules_written(said, arm, i as nat);
        if !(arm == HintArm::Lean && (i == 0 || i == 3)) {
            out.append("\n");
            let n = count_text(i + 1);
            out.append(&n);
            out.append(". ");
            out.append(all[i]);
            assert(out@ =~= heading + (before + "\n"@ + text::decimal((i + 1) as nat) + ". "@
                + said[i as int]));
        }
    }
    out
}

fn write_devices(devices: &Option<Vec<String>>, arm: HintArm) -> (r: String)
    ensures
        r@ == devices_part(opt_names(*devices), arm),
{
    if let Some(names) = devices {
        assert(text::texts(names@).len() == names@.len());
        if arm != HintArm::NoDevices && names.len() > 0 && names.len() <= MAX_LISTED_DEVICES {
            let mut out = own("\nDevices in this home, named exactly as they must be used: ");
            let list = join(names, ", ");
            out.append(&list);
            out.append(
                ". Use one of these names verbatim — the home matches a name only exactly, so a shortened name or one with the words in a different order finds nothing.",
            );
            return out;
        }
    }
    let none = String::new();
    assert(none@ =~= Seq::empty());
    none
}

/// The sentences the model is given about this home, or nothing when the home
/// reported no areas.
///
/// `devices` is absent where the catalogue could not be read.
pub fn written_hint(places: &Vec<String>, devices: &Option<Vec<String>>, arm: HintArm) -> (r: Option<
    String,
>)
    ensures
        text::opt_text(r) == hint_said(text::texts(places@), opt_names(*devices), arm),
{
    assert(text::texts(places@).len() == places@.len());
    if places.len() == 0 {
        return None;
    }
    let mut out = own("Areas in this home, named exactly as they must be used: ");
    let list = join(places, ", ");
    out.append(&list);
    out.append(".");
    let rules = write_rules(arm);
    out.append(&rules);
    let named = write_devices(devices, arm);
    out.append(&named);
    Some(out)
}

// ---------------------------------------------------------------------------
// Laws
// ---------------------------------------------------------------------------

/// Every arm names the areas first, and a home without areas gets no sentence
/// at all.
pub proof fn law_every_arm_names_the_areas(
    places: Seq<Seq<char>>,
    devices: Option<Seq<Seq<char>>>,
    arm: HintArm,
)
    ensures
        hint_said(places, devices, arm) is None <==> places.len() == 0,
        places.len() > 0 ==> text::begins_with(
            hint_said(places, devices, arm)->0,
            areas_sentence(places),
        ),
{
    if places.len() > 0 {
        let whole = hint_said(places, devices, arm)->0;
        let first = areas_sentence(places);
        assert(whole.subrange(0, first.len() as int) =~= first);
    }
}

/// A home with too many devices is described as one whose devices are not
/// known: no partial list is ever stated.
pub proof fn law_a_list_is_whole_or_absent(
    places: Seq<Seq<char>>,
    devices: Seq<Seq<char>>,
    arm: HintArm,
)
    requires
        devices.len() > MAX_LISTED_DEVICES,
    ensures
        hint_said(places, Some(devices), arm) == hint_said(places, None, arm),
{
}

/// Each arm leaves out what it says it leaves out, and the numbering of what it
/// keeps does not drift: the lean arm states rules two, three, five and six
/// under those numbers.
pub proof fn law_the_lean_arm_keeps_the_numbers()
    ensures
        rules_part(HintArm::Lean) == "\nRules for acting on this home:"@ + "\n"@ + text::decimal(2)
            + ". "@ + rules_said()[1] + "\n"@ + text::decimal(3) + ". "@ + rules_said()[2] + "\n"@
            + text::decimal(5) + ". "@ + rules_said()[4] + "\n"@ + text::decimal(6) + ". "@
            + rules_said()[5],
        rules_part(HintArm::NoRules).len() == 0,
        rules_part(HintArm::NoDevices) == rules_part(HintArm::Full),
        forall|d: Option<Seq<Seq<char>>>|
            (#[trigger] devices_part(d, HintArm::NoDevices)).len() == 0,
{
    reveal_with_fuel(rules_written, 7);
    let r = rules_said();
    assert(r.len() == 6);
    assert(rules_part(HintArm::Lean) =~= "\nRules for acting on this home:"@ + "\n"@
        + text::decimal(2) + ". "@ + r[1] + "\n"@ + text::decimal(3) + ". "@ + r[2] + "\n"@
        + text::decimal(5) + ". "@ + r[4] + "\n"@ + text::decimal(6) + ". "@ + r[5]);
    lemma_same_rules(6);
}

proof fn lemma_same_rules(n: nat)
    ensures
        rules_written(rules_said(), HintArm::NoDevices, n) == rules_written(
            rules_said(),
            HintArm::Full,
            n,
        ),
    decreases n,
{
    if n > 0 {
        lemma_same_rules((n - 1) as nat);
    }
}

/// A setting names its arm, and any other text names the full one.
pub proof fn law_a_setting_names_its_arm(s: Seq<char>)
    ensures
        arm_named("lean"@) == HintArm::Lean,
        arm_named("no-rules"@) == HintArm::NoRules,
        arm_named("no-devices"@) == HintArm::NoDevices,
        s != "lean"@ && s != "no-rules"@ && s != "no-devices"@ ==> arm_named(s) == HintArm::Full,
{
    reveal_strlit("lean");
    reveal_strlit("no-rules");
    reveal_strlit("no-devices");
    assert("lean"@.len() == 4 && "no-rules"@.len() == 8 && "no-devices"@.len() == 10);
}

/// Every rule an arm states is written out under its own number, and the full arm
/// and the one without devices state all of them.
pub proof fn law_a_stated_rule_is_written(arm: HintArm, i: int)
    requires
        0 <= i < rules_said().len(),
        arm == HintArm::Full || arm == HintArm::NoDevices || arm == HintArm::Lean && i != 0 && i
            != 3,
    ensures
        text::has_sub(
            rules_part(arm),
            "\n"@ + text::decimal((i + 1) as nat) + ". "@ + rules_said()[i],
        ),
{
    let rule = "\n"@ + text::decimal((i + 1) as nat) + ". "@ + rules_said()[i];
    lemma_rule_written(arm, i, rules_said().len());
    let body = rules_written(rules_said(), arm, rules_said().len());
    let at = choose|at: int| text::is_at(body, rule, at);
    let lead = "\nRules for acting on this home:"@;
    let whole = lead + body;
    assert(whole.subrange(lead.len() + at, lead.len() + at + rule.len()) == body.subrange(
        at,
        at + rule.len(),
    ));
    assert(text::is_at(whole, rule, lead.len() + at));
}

proof fn lemma_rule_written(arm: HintArm, i: int, n: nat)
    requires
        0 <= i < n <= rules_said().len(),
        states_rule(arm, i),
    ensures
        text::has_sub(
            rules_written(rules_said(), arm, n),
            "\n"@ + text::decimal((i + 1) as nat) + ". "@ + rules_said()[i],
        ),
    decreases n,
{
    let rule = "\n"@ + text::decimal((i + 1) as nat) + ". "@ + rules_said()[i];
    let all = rules_written(rules_said(), arm, n);
    let before = rules_written(rules_said(), arm, (n - 1) as nat);
    if i == n - 1 {
        assert(all == before + rule);
        assert(all.subrange(before.len() as int, (before.len() + rule.len()) as int) == rule);
        assert(text::is_at(all, rule, before.len() as int));
    } else {
        lemma_rule_written(arm, i, (n - 1) as nat);
        let at = choose|at: int| text::is_at(before, rule, at);
        assert(all.subrange(at, at + rule.len()) == before.subrange(at, at + rule.len()));
        assert(text::is_at(all, rule, at));
    }
}

/// The hint names every area, whatever the arm, and every device of a house with
/// two hundred at most, unless the arm leaves them out.
pub proof fn law_the_hint_names_what_is_there(
    places: Seq<Seq<char>>,
    devices: Seq<Seq<char>>,
    arm: HintArm,
)
    requires
        places.len() > 0,
    ensures
        hint_said(places, Some(devices), arm) is Some,
        text::has_sub(hint_said(places, Some(devices), arm)->0, text::joined(places, ", "@)),
        arm != HintArm::NoDevices && 0 < devices.len() <= 200 ==> text::has_sub(
            hint_said(places, Some(devices), arm)->0,
            text::joined(devices, ", "@),
        ),
        arm == HintArm::NoDevices || devices.len() == 0 || devices.len() > 200 ==> hint_said(
            places,
            Some(devices),
            arm,
        ) == hint_said(places, None, arm),
{
    let whole = hint_said(places, Some(devices), arm)->0;
    let names = text::joined(places, ", "@);
    let a = "Areas in this home, named exactly as they must be used: "@;
    assert(areas_sentence(places) == a + names + "."@);
    let rest = "."@ + rules_part(arm) + devices_part(Some(devices), arm);
    assert(whole == a + names + rest);
    text::law_what_a_text_holds(whole, names, a, rest);
    if arm != HintArm::NoDevices && 0 < devices.len() <= 200 {
        let d = text::joined(devices, ", "@);
        let lead = "\nDevices in this home, named exactly as they must be used: "@;
        let tail =
            ". Use one of these names verbatim — the home matches a name only exactly, so a shortened name or one with the words in a different order finds nothing."@;
        assert(devices_part(Some(devices), arm) == lead + d + tail);
        let front = areas_sentence(places) + rules_part(arm) + lead;
        assert(whole == front + d + tail);
        text::law_what_a_text_holds(whole, d, front, tail);
    }
}

/// The rules, in the order of their numbers.
pub proof fn law_the_rules_in_order()
    ensures
        rules_said().len() == 6,
        rules_said()[0]
            == "Never translate or invent an area or device name — pick the closest one listed."@,
        rules_said()[2]
            == "One call for an area, not one per device: an area plus a domain is a single call."@,
        rules_said()[3]
            == "When the user names a device rather than an area, act on it by that name and do not narrow the search to an area: a device's name often mentions somewhere it is not."@,
        rules_said()[4]
            == "Use the simplest tool that does what was asked. A tool that sets brightness, colour or temperature is only for when the user asked for that value; to switch something on or off, use the plain on/off tool."@,
        rules_said()[5]
            == "Fill in only the arguments the user actually asked for. Never invent a value because the tool offers the field."@,
        MAX_LISTED_DEVICES == 200,
{
}

/// Without rules a hint is the sentence on the areas and, where the devices are
/// listed, the one on them.
pub proof fn law_the_sentences_of_a_hint(places: Seq<Seq<char>>, devices: Seq<Seq<char>>)
    requires
        places.len() > 0,
        0 < devices.len() <= 200,
    ensures
        hint_said(places, None, HintArm::NoRules) == Some(
            "Areas in this home, named exactly as they must be used: "@ + text::joined(
                places,
                ", "@,
            ) + "."@,
        ),
        hint_said(places, Some(devices), HintArm::NoRules) == Some(
            "Areas in this home, named exactly as they must be used: "@ + text::joined(
                places,
                ", "@,
            ) + "."@ + ("\nDevices in this home, named exactly as they must be used: "@
                + text::joined(devices, ", "@)
                + ". Use one of these names verbatim — the home matches a name only exactly, so a shortened name or one with the words in a different order finds nothing."@),
        ),
        rules_said()[1]
            == "Whenever the user says which kind of device they mean — the lights, the heating, the blinds — the domain is required, for example {\"area\": \"Master bedroom\", \"domain\": [\"light\"]}. Leave the domain out only when the user really meant everything in the area, because without it the command reaches every switchable device there and will open the blinds and start the air conditioning."@,
{
    let none = Seq::<char>::empty();
    let a = areas_sentence(places);
    assert(a + none + none == a);
    assert(a + none == a);
}

} // verus!
