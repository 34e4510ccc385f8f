//! What a fixture asks for, and how an answer is scored.
//!
//! A fixture names no device. It states a requirement, an utterance with a slot
//! in it, and what must be true of the house afterwards — including what must
//! **not** have changed. The names are filled in from whatever house the suite
//! is pointed at, which is what makes fixtures safe to share.

use vstd::prelude::*;

use super::requirement::{Requirement, RequirementV};
use crate::json;
use crate::order;
use crate::text;
use crate::text::{copy_opt, eq_ignore_case, replace};
use crate::value;
use crate::value::{Json, JsonV};

verus! {

broadcast use crate::value::group_json_views;

/// A fixture file: a handful of cases sharing one server.
pub struct Manifest {
    /// Bumped whenever a fixture changes, so an old report is never held against
    /// a new suite.
    pub suite_version: u32,
    /// Which configured server these cases need, by the name the user gave it.
    pub server: String,
    pub cases: Vec<Case>,
}

/// One thing to say, in several languages, and what should follow.
pub struct Case {
    /// Stable identifier. Appears in the shareable report, so it must not
    /// describe the user's house.
    pub id: String,
    /// Which failure class this defends against.
    pub class: Class,
    /// What the house must provide for this case to mean anything.
    pub requires: Requirement,
    /// Utterances by language tag, in the order of the tags.
    pub utterances: Vec<(String, String)>,
    /// State the target must be driven into before the utterance, so the command
    /// has something to change.
    pub precondition: Option<String>,
    /// What the target's state must be afterwards.
    pub expect_device: Option<String>,
    /// What the target's *level* must be afterwards, as a percentage. Held
    /// against the house with a tolerance, because a device reports its level
    /// rounded.
    pub expect_level: Option<u8>,
    /// Whether the bystander's state must still be what it was.
    pub expect_bystander_unchanged: bool,
    /// The tool the model ought to reach for. Scored on the **first** call only.
    pub expect_tool: Option<String>,
    /// Arguments the first call must carry, as a subset.
    pub expect_args: Option<Json>,
    /// Arguments the first call must **not** carry.
    pub forbid_args: Vec<String>,
    /// Whether this request must leave the house exactly as it found it. Judged
    /// on the house, not on the tool call: answering *is the balcony light on?*
    /// takes a lookup.
    pub expect_no_change: bool,
    /// When false, a second call that could double an effect is itself a
    /// failure.
    pub retry_allowed: bool,
}

/// What a [`Case`] says.
#[verifier::ext_equal]
pub struct CaseV {
    pub id: Seq<char>,
    pub class: Class,
    pub requires: RequirementV,
    pub utterances: Seq<(Seq<char>, Seq<char>)>,
    pub precondition: Option<Seq<char>>,
    pub expect_device: Option<Seq<char>>,
    pub expect_level: Option<u8>,
    pub expect_bystander_unchanged: bool,
    pub expect_tool: Option<Seq<char>>,
    pub expect_args: Option<JsonV>,
    pub forbid_args: Seq<Seq<char>>,
    pub expect_no_change: bool,
    pub retry_allowed: bool,
}

impl View for Case {
    type V = CaseV;

    open spec fn view(&self) -> CaseV {
        CaseV {
            id: self.id@,
            class: self.class,
            requires: self.requires@,
            utterances: order::pair_texts(self.utterances@),
            precondition: text::opt_text(self.precondition),
            expect_device: text::opt_text(self.expect_device),
            expect_level: self.expect_level,
            expect_bystander_unchanged: self.expect_bystander_unchanged,
            expect_tool: text::opt_text(self.expect_tool),
            expect_args: match self.expect_args {
                Some(j) => Some(j@),
                None => None,
            },
            forbid_args: text::texts(self.forbid_args@),
            expect_no_change: self.expect_no_change,
            retry_allowed: self.retry_allowed,
        }
    }
}

/// The failure class a case defends against.
///
/// Six failures spread across six classes is a weak model, and six failures in
/// one class is a broken rung.
#[derive(Debug, Clone, Copy, PartialEq, Eq, PartialOrd, Ord, Structural)]
pub enum Class {
    /// The ordinary case: switch a named thing on or off.
    PlainCommand,
    /// A room command where the user said which kind of device they meant.
    RoomCommand,
    /// The wrong tool chosen among near-identical signatures.
    ToolChoice,
    /// A value nobody asked for, filled in because the field existed.
    InventedArgument,
    /// A device whose name mentions a room it is not in.
    MisleadingName,
    /// A command that must never be repeated.
    NonIdempotent,
    /// A request that must leave the house exactly as it found it.
    MustNotAct,
}

/// How one case came out.
#[derive(Debug, Clone, Copy, PartialEq, Eq, Structural)]
pub enum Verdict {
    /// Right tool, right arguments, first try, and the world agrees.
    Passed,
    /// Wrong first try, but the ladder recovered inside the same turn.
    Recovered,
    /// Still wrong when the turn ended.
    Failed,
    /// Something moved that this turn never touched.
    Drifted,
    /// The house has nothing this case could be run against.
    Skipped,
}

/// Everything scored about one case, keyed so it can be shared.
///
/// Nothing here names a device, an area, or repeats what was said.
#[derive(Debug, Clone)]
pub struct CaseReport {
    pub id: String,
    pub class: Class,
    pub language: String,
    pub verdict: Verdict,
    /// Did the model's **first** call have the right name and arguments?
    pub routed_first_try: bool,
    /// Did the world end up as asked, whatever it took to get there?
    pub outcome_correct: bool,
    /// Did the bystander stay put? `None` when the case has no bystander.
    pub bystander_held: Option<bool>,
    /// Did the reply describe what actually happened?
    pub reply_truthful: Option<bool>,
    /// Was the reply in the language the command was given in?
    pub reply_language_matched: Option<bool>,
    /// How many tool calls the model made.
    pub calls: usize,
    pub elapsed_ms: u64,
    /// Why the case was skipped, when it was.
    pub skipped_because: Option<String>,
}

/// What a [`CaseReport`] says.
#[verifier::ext_equal]
pub struct CaseReportV {
    pub id: Seq<char>,
    pub class: Class,
    pub language: Seq<char>,
    pub verdict: Verdict,
    pub routed_first_try: bool,
    pub outcome_correct: bool,
    pub bystander_held: Option<bool>,
    pub reply_truthful: Option<bool>,
    pub reply_language_matched: Option<bool>,
    pub calls: nat,
    pub elapsed_ms: u64,
    pub skipped_because: Option<Seq<char>>,
}

impl View for CaseReport {
    type V = CaseReportV;

    open spec fn view(&self) -> CaseReportV {
        CaseReportV {
            id: self.id@,
            class: self.class,
            language: self.language@,
            verdict: self.verdict,
            routed_first_try: self.routed_first_try,
            outcome_correct: self.outcome_correct,
            bystander_held: self.bystander_held,
            reply_truthful: self.reply_truthful,
            reply_language_matched: self.reply_language_matched,
            calls: self.calls as nat,
            elapsed_ms: self.elapsed_ms,
            skipped_because: text::opt_text(self.skipped_because),
        }
    }
}

impl CaseReport {
    /// A report of its own that says the same.
    pub fn copy(&self) -> (r: CaseReport)
        ensures
            r@ == self@,
    {
        CaseReport {
            id: self.id.clone(),
            class: self.class,
            language: self.language.clone(),
            verdict: self.verdict,
            routed_first_try: self.routed_first_try,
            outcome_correct: self.outcome_correct,
            bystander_held: self.bystander_held,
            reply_truthful: self.reply_truthful,
            reply_language_matched: self.reply_language_matched,
            calls: self.calls,
            elapsed_ms: self.elapsed_ms,
            skipped_because: copy_opt(&self.skipped_because),
        }
    }
}

impl Class {
    /// The name of a class, as the report groups by it.
    pub fn to_text(&self) -> (r: &'static str)
        ensures
            r@ == class_name(*self),
    {
        match self {
            Class::PlainCommand => "PlainCommand",
            Class::RoomCommand => "RoomCommand",
            Class::ToolChoice => "ToolChoice",
            Class::InventedArgument => "InventedArgument",
            Class::MisleadingName => "MisleadingName",
            Class::NonIdempotent => "NonIdempotent",
            Class::MustNotAct => "MustNotAct",
        }
    }
}

/// The name of a class.
pub open spec fn class_name(c: Class) -> Seq<char> {
    match c {
        Class::PlainCommand => "PlainCommand"@,
        Class::RoomCommand => "RoomCommand"@,
        Class::ToolChoice => "ToolChoice"@,
        Class::InventedArgument => "InventedArgument"@,
        Class::MisleadingName => "MisleadingName"@,
        Class::NonIdempotent => "NonIdempotent"@,
        Class::MustNotAct => "MustNotAct"@,
    }
}

// ---------------------------------------------------------------------------
// Arguments
// ---------------------------------------------------------------------------

/// Whether arguments carry everything a fixture asks for: an object by its
/// members, a list as a set, a text but for the case of its letters, and anything
/// else exactly.
///
/// Two lists are one set where each item of either finds a partner in the other:
/// a list that holds anything not asked for is another request, and how often an
/// item is written is no part of it.
pub open spec fn args_agree(want: JsonV, got: JsonV) -> bool
    decreases want, 0nat,
{
    match (want, got) {
        (JsonV::Object(w), JsonV::Object(_)) => members_agree(w, got),
        (JsonV::List(w), JsonV::List(g)) => items_agree(w, g),
        (JsonV::Text(w), JsonV::Text(g)) => text::same_but_case(w, g),
        _ => json::same_json(want, got),
    }
}

/// Whether an object carries every member asked for.
pub open spec fn members_agree(want: Seq<(Seq<char>, JsonV)>, got: JsonV) -> bool
    decreases want, 0nat,
{
    forall|i: int| 0 <= i < want.len() ==> member_agrees(#[trigger] want[i], got)
}

/// Whether two lists are one set: every item asked for is there, and every item
/// there is asked for.
pub open spec fn items_agree(want: Seq<JsonV>, got: Seq<JsonV>) -> bool
    decreases want, 1nat,
{
    &&& forall|i: int| 0 <= i < want.len() ==> is_met(#[trigger] want[i], got)
    &&& forall|j: int| 0 <= j < got.len() ==> is_asked_for(want, #[trigger] got[j])
}

/// Whether an object carries a member asked for.
pub open spec fn member_agrees(want: (Seq<char>, JsonV), got: JsonV) -> bool
    decreases want.1, 1nat,
{
    match json::field(got, want.0) {
        Some(g) => args_agree(want.1, g),
        None => false,
    }
}

/// Whether a list holds an item asked for.
pub open spec fn is_met(want: JsonV, got: Seq<JsonV>) -> bool
    decreases want, 1nat,
{
    exists|j: int| 0 <= j < got.len() && args_agree(want, #[trigger] got[j])
}

/// Whether an item is among those asked for.
pub open spec fn is_asked_for(want: Seq<JsonV>, got: JsonV) -> bool
    decreases want, 0nat,
{
    exists|i: int| 0 <= i < want.len() && args_agree(#[trigger] want[i], got)
}

/// Does the first call carry everything the fixture asked for?
///
/// A subset and not an equality: a model that passes an extra harmless field has
/// not made the mistake this is looking for. Arrays are taken as sets, because
/// `["light"]` in a different order is the same request — while
/// `["light", "switch"]` is not.
pub fn args_match(expected: &Json, actual: &Json) -> (r: bool)
    ensures
        r == args_agree(expected@, actual@),
    decreases expected, 0nat,
{
    match (expected, actual) {
        (Json::Object(want), Json::Object(_)) => {
            let ghost all = value::members(want@);
            for i in 0..want.len()
                invariant
                    expected == Json::Object(*want),
                    all == value::members(want@),
                    forall|k: int|
                        0 <= k < i ==> member_agrees(#[trigger] all[k], actual@),
            {
                assert(decreases_to!(*expected => expected->Object_0));
                assert(all[i as int] == (want@[i as int].0@, want@[i as int].1@));
                let found = match actual.get(&want[i].0) {
                    Some(g) => args_match(&want[i].1, g),
                    None => false,
                };
                if !found {
                    return false;
                }
            }
            true
        },
        (Json::List(want), Json::List(got)) => {
            let ghost all = value::items(want@);
            let ghost have = value::items(got@);
            for i in 0..want.len()
                invariant
                    expected == Json::List(*want),
                    all == value::items(want@),
                    have == value::items(got@),
                    actual == Json::List(*got),
                    forall|k: int|
                        0 <= k < i ==> is_met(#[trigger] all[k], have),
            {
                assert(decreases_to!(*expected => expected->List_0));
                assert(all[i as int] == want@[i as int]@);
                if !one_matches(&want[i], got) {
                    return false;
                }
            }
            for j in 0..got.len()
                invariant
                    expected == Json::List(*want),
                    all == value::items(want@),
                    have == value::items(got@),
                    actual == Json::List(*got),
                    forall|k: int|
                        0 <= k < j ==> is_asked_for(all, #[trigger] have[k]),
            {
                assert(decreases_to!(*expected => expected->List_0));
                assert(have[j as int] == got@[j as int]@);
                if !one_asked_for(want, &got[j]) {
                    return false;
                }
            }
            true
        },
        (Json::Text(want), Json::Text(got)) => eq_ignore_case(want, got),
        _ => expected.equals(actual),
    }
}

/// Whether one item of a list will do.
fn one_matches(want: &Json, got: &Vec<Json>) -> (r: bool)
    ensures
        r == is_met(want@, value::items(got@)),
    decreases want, 1nat,
{
    let ghost have = value::items(got@);
    for j in 0..got.len()
        invariant
            have == value::items(got@),
            forall|k: int| 0 <= k < j ==> !args_agree(want@, #[trigger] have[k]),
    {
        assert(have[j as int] == got@[j as int]@);
        if args_match(want, &got[j]) {
            return true;
        }
    }
    false
}

/// Whether one of the items asked for is this one.
fn one_asked_for(want: &Vec<Json>, got: &Json) -> (r: bool)
    ensures
        r == is_asked_for(value::items(want@), got@),
    decreases want, 1nat,
{
    let ghost all = value::items(want@);
    for i in 0..want.len()
        invariant
            all == value::items(want@),
            forall|k: int| 0 <= k < i ==> !args_agree(#[trigger] all[k], got@),
    {
        assert(all[i as int] == want@[i as int]@);
        if args_match(&want[i], got) {
            return true;
        }
    }
    false
}

// ---------------------------------------------------------------------------
// Utterances
// ---------------------------------------------------------------------------

/// An utterance with its slots filled in.
pub open spec fn rendered(
    template: Seq<char>,
    device: Seq<char>,
    area: Option<Seq<char>>,
) -> Seq<char> {
    text::replaced(
        text::replaced(template, "{device}"@, device),
        "{area}"@,
        match area {
            Some(a) => a,
            None => Seq::empty(),
        },
    )
}

/// Fill the device and area slots into an utterance template.
pub fn render(template: &str, device: &str, area: Option<&str>) -> (r: String)
    ensures
        r@ == rendered(template@, device@, text::opt_str(area)),
{
    proof {
        reveal_strlit("{device}");
        reveal_strlit("{area}");
        reveal_strlit("");
        assert(""@ =~= Seq::<char>::empty());
    }
    let named = replace(template, "{device}", device);
    match area {
        Some(a) => replace(&named, "{area}", a),
        None => replace(&named, "{area}", ""),
    }
}

// ---------------------------------------------------------------------------
// Laws
// ---------------------------------------------------------------------------

/// Whether no object in a value holds a key twice, as no object that was read
/// does.
pub open spec fn keys_told_apart(v: JsonV) -> bool
    decreases v, 0nat,
{
    match v {
        JsonV::Object(m) => members_told_apart(m),
        JsonV::List(a) => items_told_apart(a),
        _ => true,
    }
}

/// Whether no key stands twice among members, nor in any of their values.
pub open spec fn members_told_apart(m: Seq<(Seq<char>, JsonV)>) -> bool
    decreases m, 0nat,
{
    &&& forall|i: int, j: int| 0 <= i < j < m.len() ==> (#[trigger] m[i]).0 != (#[trigger] m[j]).0
    &&& forall|i: int| 0 <= i < m.len() ==> keys_told_apart((#[trigger] m[i]).1)
}

/// Whether no key stands twice in any item of a list.
pub open spec fn items_told_apart(a: Seq<JsonV>) -> bool
    decreases a, 0nat,
{
    forall|i: int| 0 <= i < a.len() ==> keys_told_apart(#[trigger] a[i])
}

/// Whether a value is another with nothing but members added to its objects, at
/// any depth.
pub open spec fn with_more(got: JsonV, more: JsonV) -> bool
    decreases got, 0nat,
{
    match (got, more) {
        (JsonV::Object(g), JsonV::Object(_)) => members_kept(g, more),
        (JsonV::List(g), JsonV::List(m)) => items_kept(g, m),
        _ => got == more,
    }
}

/// Whether an object holds every one of some members, with nothing but members
/// added inside.
pub open spec fn members_kept(got: Seq<(Seq<char>, JsonV)>, more: JsonV) -> bool
    decreases got, 0nat,
{
    forall|i: int|
        0 <= i < got.len() ==> (match json::field(more, (#[trigger] got[i]).0) {
            Some(m) => with_more(got[i].1, m),
            None => false,
        })
}

/// Whether two lists are the same but for members added inside their items.
pub open spec fn items_kept(got: Seq<JsonV>, more: Seq<JsonV>) -> bool
    decreases got, 0nat,
{
    got.len() == more.len() && forall|i: int|
        0 <= i < got.len() ==> with_more(#[trigger] got[i], more[i])
}

/// Arguments agree with themselves.
pub proof fn law_arguments_agree_with_themselves(v: JsonV)
    requires
        keys_told_apart(v),
    ensures
        args_agree(v, v),
    decreases v,
{
    match v {
        JsonV::Object(m) => {
            assert forall|i: int| 0 <= i < m.len() implies member_agrees(#[trigger] m[i], v) by {
                json::lemma_key_at(m, m[i].0, i);
                law_arguments_agree_with_themselves(m[i].1);
            }
        },
        JsonV::List(a) => {
            assert forall|i: int| 0 <= i < a.len() implies is_met(#[trigger] a[i], a)
                && is_asked_for(a, a[i]) by {
                law_arguments_agree_with_themselves(a[i]);
            }
        },
        _ => {},
    }
}

/// An extra argument never fails a call: arguments that carry everything asked
/// for still do with one more member, wherever it stands among the others.
pub proof fn law_extra_arguments_do_no_harm(
    want: Seq<(Seq<char>, JsonV)>,
    got: Seq<(Seq<char>, JsonV)>,
    at: int,
    extra: (Seq<char>, JsonV),
)
    requires
        args_agree(JsonV::Object(want), JsonV::Object(got)),
        json::field(JsonV::Object(got), extra.0) is None,
        0 <= at <= got.len(),
    ensures
        args_agree(JsonV::Object(want), JsonV::Object(got.insert(at, extra))),
{
    let more = got.insert(at, extra);
    assert forall|i: int| 0 <= i < want.len() implies member_agrees(
        #[trigger] want[i],
        JsonV::Object(more),
    ) by {
        let key = want[i].0;
        assert(member_agrees(want[i], JsonV::Object(got)));
        json::lemma_key_found(got, key);
        let k = json::key_at(got, key);
        let there = if k < at {
            k
        } else {
            k + 1
        };
        assert(more[there] == got[k]);
        assert forall|j: int| 0 <= j < there implies (#[trigger] more[j]).0 != key by {
            if j < at {
                assert(more[j] == got[j]);
            } else if j > at {
                assert(more[j] == got[j - 1]);
            }
        }
        json::lemma_key_at(more, key, there);
    }
}

/// Extra arguments do no harm at any depth either.
pub proof fn law_extra_arguments_do_no_harm_inside(want: JsonV, got: JsonV, more: JsonV)
    requires
        args_agree(want, got),
        with_more(got, more),
    ensures
        args_agree(want, more),
    decreases want,
{
    match (want, got, more) {
        (JsonV::Object(w), JsonV::Object(g), JsonV::Object(_)) => {
            assert forall|i: int| 0 <= i < w.len() implies member_agrees(#[trigger] w[i], more) by {
                assert(member_agrees(w[i], got));
                json::lemma_key_found(g, w[i].0);
                let k = json::key_at(g, w[i].0);
                assert(g[k].0 == w[i].0);
                law_extra_arguments_do_no_harm_inside(
                    w[i].1,
                    g[k].1,
                    json::field(more, g[k].0)->Some_0,
                );
            }
        },
        (JsonV::List(w), JsonV::List(g), JsonV::List(m)) => {
            assert forall|i: int| 0 <= i < w.len() implies is_met(#[trigger] w[i], m) by {
                assert(is_met(w[i], g));
                let j = choose|j: int| 0 <= j < g.len() && args_agree(w[i], #[trigger] g[j]);
                law_extra_arguments_do_no_harm_inside(w[i], g[j], m[j]);
            }
            assert forall|j: int| 0 <= j < m.len() implies is_asked_for(w, #[trigger] m[j]) by {
                assert(is_asked_for(w, g[j]));
                let i = choose|i: int| 0 <= i < w.len() && args_agree(#[trigger] w[i], g[j]);
                law_extra_arguments_do_no_harm_inside(w[i], g[j], m[j]);
            }
        },
        _ => {},
    }
}

/// A missing argument always fails a call: nothing agrees with a request one of
/// whose keys it lacks, wherever that key stands.
pub proof fn law_a_missing_argument_fails(
    want: Seq<(Seq<char>, JsonV)>,
    got: JsonV,
    at: int,
    missing: (Seq<char>, JsonV),
)
    requires
        json::field(got, missing.0) is None,
        got is Object,
        0 <= at <= want.len(),
    ensures
        !args_agree(JsonV::Object(want.insert(at, missing)), got),
{
    assert(want.insert(at, missing)[at] == missing);
}

/// A list that holds anything not asked for is another request, and so is one
/// that lacks anything asked for.
pub proof fn law_an_over_broad_list_is_another_request(
    want: Seq<JsonV>,
    got: Seq<JsonV>,
    k: int,
)
    requires
        (0 <= k < got.len() && !is_asked_for(want, got[k])) || (0 <= k < want.len() && !is_met(
            want[k],
            got,
        )),
    ensures
        !args_agree(JsonV::List(want), JsonV::List(got)),
{
}

/// Neither the order of a list nor how often an item is written is part of the
/// request: two lists of the same items agree.
pub proof fn law_lists_are_sets(want: Seq<JsonV>, got: Seq<JsonV>)
    requires
        want.to_set() == got.to_set(),
        keys_told_apart(JsonV::List(want)),
    ensures
        args_agree(JsonV::List(want), JsonV::List(got)),
{
    assert(items_told_apart(want));
    assert forall|i: int| 0 <= i < want.len() implies is_met(#[trigger] want[i], got) by {
        law_arguments_agree_with_themselves(want[i]);
        assert(want.to_set().contains(want[i]));
        let j = choose|j: int| 0 <= j < got.len() && got[j] == want[i];
        assert(args_agree(want[i], got[j]));
    }
    assert forall|j: int| 0 <= j < got.len() implies is_asked_for(want, #[trigger] got[j]) by {
        assert(got.to_set().contains(got[j]));
        let i = choose|i: int| 0 <= i < want.len() && want[i] == got[j];
        law_arguments_agree_with_themselves(want[i]);
        assert(args_agree(want[i], got[j]));
    }
}

/// What was asked for and what came agree, value by value: texts where they are
/// the same but for case; objects where each member that was asked for came and
/// agrees; and anything else, lists aside, where it is the same value.
pub proof fn law_what_agreeing_is(
    want: JsonV,
    got: JsonV,
    w: Seq<char>,
    g: Seq<char>,
    m: Seq<(Seq<char>, JsonV)>,
)
    ensures
        args_agree(JsonV::Text(w), JsonV::Text(g)) <==> text::same_but_case(w, g),
        got is Object ==> (args_agree(JsonV::Object(m), got) <==> forall|i: int|
            0 <= i < m.len() ==> json::field(got, (#[trigger] m[i]).0) is Some && args_agree(
                m[i].1,
                json::field(got, m[i].0)->0,
            )),
        !(want is Object && got is Object) && !(want is List && got is List) && !(want is Text
            && got is Text) ==> (args_agree(want, got) <==> json::same_json(want, got)),
{
    if got is Object {
        if args_agree(JsonV::Object(m), got) {
            assert forall|i: int| 0 <= i < m.len() implies json::field(got, (#[trigger] m[i]).0)
                is Some && args_agree(m[i].1, json::field(got, m[i].0)->0) by {
                assert(member_agrees(m[i], got));
            }
        }
        if forall|i: int|
            0 <= i < m.len() ==> json::field(got, (#[trigger] m[i]).0) is Some && args_agree(
                m[i].1,
                json::field(got, m[i].0)->0,
            ) {
            assert forall|i: int| 0 <= i < m.len() implies member_agrees(#[trigger] m[i], got) by {}
            assert(members_agree(m, got));
        }
    }
}

/// Where two lists agree, each item that was asked for came and each that came
/// was asked for.
pub proof fn law_agreeing_lists_hold_the_same(a: Seq<JsonV>, b: Seq<JsonV>, k: int)
    requires
        args_agree(JsonV::List(a), JsonV::List(b)),
    ensures
        0 <= k < a.len() ==> exists|j: int| 0 <= j < b.len() && args_agree(a[k], #[trigger] b[j]),
        0 <= k < b.len() ==> exists|i: int| 0 <= i < a.len() && args_agree(#[trigger] a[i], b[k]),
{
    assert(items_agree(a, b));
    if 0 <= k < a.len() {
        assert(is_met(a[k], b));
    }
    if 0 <= k < b.len() {
        assert(is_asked_for(a, b[k]));
    }
}

/// Two lists agree where a partner can be named in the other for each item of
/// either, wherever it stands and however often.
pub proof fn law_lists_agree_when_each_has_a_partner(
    a: Seq<JsonV>,
    b: Seq<JsonV>,
    there: spec_fn(int) -> int,
    back: spec_fn(int) -> int,
)
    requires
        forall|i: int|
            0 <= i < a.len() ==> 0 <= there(i) < b.len() && args_agree(
                #[trigger] a[i],
                b[there(i)],
            ),
        forall|j: int|
            0 <= j < b.len() ==> 0 <= back(j) < a.len() && args_agree(a[back(j)], #[trigger] b[j]),
    ensures
        args_agree(JsonV::List(a), JsonV::List(b)),
{
    assert forall|i: int| 0 <= i < a.len() implies is_met(#[trigger] a[i], b) by {
        assert(args_agree(a[i], b[there(i)]));
    }
    assert forall|j: int| 0 <= j < b.len() implies is_asked_for(a, #[trigger] b[j]) by {
        assert(args_agree(a[back(j)], b[j]));
    }
    assert(items_agree(a, b));
}

/// A phrase names the device and the room where it says to, and is otherwise as
/// it was written; without a room, nothing stands in its place.
pub proof fn law_a_phrase_names_device_and_room(
    pre: Seq<char>,
    mid: Seq<char>,
    post: Seq<char>,
    device: Seq<char>,
    area: Seq<char>,
)
    requires
        forall|i: int| 0 <= i < pre.len() ==> #[trigger] pre[i] != '{',
        forall|i: int| 0 <= i < mid.len() ==> #[trigger] mid[i] != '{',
        forall|i: int| 0 <= i < post.len() ==> #[trigger] post[i] != '{',
        forall|i: int| 0 <= i < device.len() ==> #[trigger] device[i] != '{',
    ensures
        rendered(pre, device, Some(area)) == pre,
        rendered(pre + "{device}"@ + mid + "{area}"@ + post, device, Some(area)) == pre + device
            + mid + area + post,
        rendered(pre + "{device}"@ + mid + "{area}"@ + post, device, None) == pre + device + mid
            + post,
{
    reveal_strlit("{device}");
    reveal_strlit("{area}");
    let d = "{device}"@;
    let a = "{area}"@;
    assert(d[0] == '{' && d[1] == 'd' && a[0] == '{' && a[1] == 'a');
    lemma_no_brace(pre, d);
    lemma_no_brace(pre, a);
    text::law_splitting_loses_nothing(pre, d);
    text::law_splitting_loses_nothing(pre, a);
    assert(text::joined(seq![pre], device) == pre);
    text::law_each_place_is_replaced(pre, d, device, 0);
    text::law_each_place_is_replaced(pre, a, area, 0);
    let whole = pre + d + mid + a + post;
    let tail = mid + a + post;
    lemma_first_brace(pre, d, tail);
    assert(whole == pre + d + tail);
    text::law_each_place_is_replaced(whole, d, device, pre.len() as int);
    assert(whole.skip((pre.len() + d.len()) as int) == tail);
    assert(whole.take(pre.len() as int) == pre);
    lemma_not_there(mid, a, post, d);
    text::law_each_place_is_replaced(tail, d, device, 0);
    let once = pre + device + tail;
    assert(text::replaced(whole, d, device) == once);
    let front = pre + device + mid;
    assert(once == front + a + post);
    assert forall|i: int| 0 <= i < front.len() implies #[trigger] front[i] != '{' by {
        if i < pre.len() {
            assert(front[i] == pre[i]);
        } else if i < pre.len() + device.len() {
            assert(front[i] == device[i - pre.len()]);
        } else {
            assert(front[i] == mid[i - pre.len() - device.len()]);
        }
    }
    lemma_first_brace(front, a, post);
    lemma_no_brace(post, a);
    assert(once.skip((front.len() + a.len()) as int) == post);
    assert(once.take(front.len() as int) == front);
    let none = Seq::<char>::empty();
    text::law_each_place_is_replaced(once, a, area, front.len() as int);
    text::law_each_place_is_replaced(once, a, none, front.len() as int);
    text::law_each_place_is_replaced(post, a, area, 0);
    text::law_each_place_is_replaced(post, a, none, 0);
    assert(front + area + post == pre + device + mid + area + post);
    assert(front + none + post == pre + device + mid + post);
}

proof fn lemma_no_brace(s: Seq<char>, pat: Seq<char>)
    requires
        pat.len() > 0,
        pat[0] == '{',
        forall|i: int| 0 <= i < s.len() ==> #[trigger] s[i] != '{',
    ensures
        !text::has_sub(s, pat),
{
    assert forall|i: int| !text::is_at(s, pat, i) by {
        if text::is_at(s, pat, i) {
            assert(s.subrange(i, i + pat.len())[0] == s[i]);
        }
    }
}

proof fn lemma_first_brace(front: Seq<char>, pat: Seq<char>, rest: Seq<char>)
    requires
        pat.len() > 0,
        pat[0] == '{',
        forall|i: int| 0 <= i < front.len() ==> #[trigger] front[i] != '{',
    ensures
        text::is_at(front + pat + rest, pat, front.len() as int),
        forall|j: int| 0 <= j < front.len() ==> !text::is_at(front + pat + rest, pat, j),
{
    let s = front + pat + rest;
    assert(s.subrange(front.len() as int, (front.len() + pat.len()) as int) == pat);
    assert forall|j: int| 0 <= j < front.len() implies !text::is_at(s, pat, j) by {
        if text::is_at(s, pat, j) {
            assert(s.subrange(j, j + pat.len())[0] == s[j]);
            assert(s[j] == front[j]);
        }
    }
}

proof fn lemma_not_there(mid: Seq<char>, a: Seq<char>, post: Seq<char>, d: Seq<char>)
    requires
        forall|i: int| 0 <= i < mid.len() ==> #[trigger] mid[i] != '{',
        forall|i: int| 0 <= i < post.len() ==> #[trigger] post[i] != '{',
        a == "{area}"@,
        d == "{device}"@,
    ensures
        !text::has_sub(mid + a + post, d),
{
    reveal_strlit("{device}");
    reveal_strlit("{area}");
    let s = mid + a + post;
    assert(a.len() == 6 && d.len() == 8);
    assert(a[1] == 'a' && a[2] == 'r' && a[3] == 'e' && a[4] == 'a' && a[5] == '}');
    assert forall|i: int| !text::is_at(s, d, i) by {
        if text::is_at(s, d, i) {
            assert(s.subrange(i, i + d.len())[0] == s[i]);
            assert(s.subrange(i, i + d.len())[1] == s[i + 1]);
            assert(d[0] == '{' && d[1] == 'd');
            if i < mid.len() {
                assert(s[i] == mid[i]);
            } else if i < mid.len() + 6 {
                assert(s[i] == a[i - mid.len()]);
                if i == mid.len() {
                    assert(s[i + 1] == a[1]);
                }
            } else {
                assert(s[i] == post[i - mid.len() - 6]);
            }
        }
    }
}

/// Every class of case goes by its own name.
pub proof fn law_a_class_goes_by_its_name(c: Class, d: Class)
    ensures
        class_name(c) == class_name(d) ==> c == d,
        class_name(Class::PlainCommand) == "PlainCommand"@,
        class_name(Class::RoomCommand) == "RoomCommand"@,
        class_name(Class::ToolChoice) == "ToolChoice"@,
        class_name(Class::InventedArgument) == "InventedArgument"@,
        class_name(Class::MisleadingName) == "MisleadingName"@,
        class_name(Class::NonIdempotent) == "NonIdempotent"@,
        class_name(Class::MustNotAct) == "MustNotAct"@,
{
    reveal_strlit("PlainCommand");
    reveal_strlit("RoomCommand");
    reveal_strlit("ToolChoice");
    reveal_strlit("InventedArgument");
    reveal_strlit("MisleadingName");
    reveal_strlit("NonIdempotent");
    reveal_strlit("MustNotAct");
    assert("PlainCommand"@[0] == 'P' && "RoomCommand"@[0] == 'R' && "ToolChoice"@[0] == 'T');
    assert("InventedArgument"@[0] == 'I' && "MisleadingName"@[0] == 'M');
    assert("NonIdempotent"@[0] == 'N' && "MustNotAct"@[0] == 'M');
    assert("MisleadingName"@.len() != "MustNotAct"@.len());
}

} // verus!
