//! Did the command work?
//!
//! Two questions are kept apart on purpose. Whether the model *opened* correctly
//! is read off its first call alone; whether the world *ended up* as asked is
//! read off the house, because a server answers with a perfectly successful
//! result for a command that matched nothing and did nothing. The gap between
//! the two is the measured worth of the recovery ladder.
//!
//! A real home has other actors in it. Something that moved and that the case
//! has nothing to do with is drift, and is never scored as the model's fault.

use vstd::prelude::*;

use super::fixture;
use super::fixture::{args_match, Case, CaseV, Verdict};
use super::house;
use super::house::{Entity, EntityV, House, Level};
use super::language;
use super::requirement;
use super::requirement::{Target, TargetV};
use super::turn;
use super::turn::{ObservedCallV, TurnObservation, TurnObservationV};
use crate::json;
use crate::order;
use crate::text;
use crate::text::{
    blank, count_text, eq_ignore_case, holds_any, join, lowercase, own, same,
};
use crate::value::{Json, JsonV};

verus! {

broadcast use crate::value::group_json_views;

/// Write one more note.
fn note(notes: &mut Vec<String>, s: String)
    ensures
        text::texts(final(notes)@) == text::texts(old(notes)@).push(s@),
{
    let ghost before = text::texts(notes@);
    let ghost said = s@;
    notes.push(s);
    assert(text::texts(notes@) =~= before.push(said));
}

// ---------------------------------------------------------------------------
// Did the model open correctly?
// ---------------------------------------------------------------------------

/// The arguments of a call, given what its text was read as. A text that is no
/// JSON reads as `null`, which matches nothing.
pub open spec fn arguments_read(read: Option<JsonV>) -> JsonV {
    match read {
        Some(v) => v,
        None => JsonV::Null,
    }
}

/// Whether arguments carry a value under a key.
pub open spec fn carries(args: JsonV, key: Seq<char>) -> bool {
    match json::field(args, key) {
        Some(v) => v != JsonV::Null,
        None => false,
    }
}

/// Whether the first call has the name the case asks for.
pub open spec fn right_name(case: CaseV, call: ObservedCallV) -> bool {
    case.expect_tool matches Some(w) ==> call.name == w
}

/// Whether the first call carries what the case asks for.
pub open spec fn right_args(case: CaseV, args: JsonV) -> bool {
    case.expect_args matches Some(w) ==> fixture::args_agree(w, args)
}

/// Whether the first call carries a value nobody asked for.
pub open spec fn invents(case: CaseV, args: JsonV) -> bool {
    exists|i: int| 0 <= i < case.forbid_args.len() && carries(args, #[trigger] case.forbid_args[i])
}

/// Whether the model opened correctly: with the right tool, the right arguments
/// and no invented value — or with no call at all, where nothing was to change.
pub open spec fn routed(case: CaseV, obs: TurnObservationV, args: JsonV) -> bool {
    match turn::opening(obs) {
        None => case.expect_no_change,
        Some(call) => right_name(case, call) && right_args(case, args) && !invents(case, args),
    }
}

/// What is said of a wrong tool.
pub open spec fn wrong_tool(called: Seq<char>, wanted: Seq<char>) -> Seq<char> {
    "first call was `"@ + called + "`, expected `"@ + wanted + "`"@
}

/// A list of one note, where it applies.
pub open spec fn noted(applies: bool, said: Seq<char>) -> Seq<Seq<char>> {
    if applies {
        seq![said]
    } else {
        Seq::empty()
    }
}

/// What is said of the first call.
pub open spec fn routing_notes(case: CaseV, obs: TurnObservationV, args: JsonV) -> Seq<Seq<char>> {
    match turn::opening(obs) {
        None => Seq::empty(),
        Some(call) => noted(
            !right_name(case, call),
            wrong_tool(call.name, case.expect_tool->Some_0),
        ) + noted(
            !right_args(case, args),
            "first call arguments did not match: "@ + call.arguments,
        ) + noted(
            invents(case, args),
            "first call invented a value nobody asked for: "@ + call.arguments,
        ),
    }
}

fn carries_value(args: &Json, key: &str) -> (r: bool)
    ensures
        r == carries(args@, key@),
{
    match args.get(key) {
        Some(Json::Null) => false,
        Some(_) => true,
        None => false,
    }
}

fn invents_value(case: &Case, args: &Json) -> (r: bool)
    ensures
        r == invents(case@, args@),
{
    let ghost keys = case@.forbid_args;
    for i in 0..case.forbid_args.len()
        invariant
            keys == case@.forbid_args,
            forall|k: int| 0 <= k < i ==> !carries(args@, #[trigger] keys[k]),
    {
        assert(keys[i as int] == case.forbid_args@[i as int]@);
        if carries_value(args, &case.forbid_args[i]) {
            assert(carries(args@, case@.forbid_args[i as int]));
            return true;
        }
    }
    false
}

/// Did the model open correctly, given what its first call's arguments read as?
///
/// Scored on the **first** call only.
pub fn score_routing_given(
    case: &Case,
    obs: &TurnObservation,
    read: &Option<Json>,
    notes: &mut Vec<String>,
) -> (r: bool)
    ensures
        r == routed(case@, obs@, arguments_read(read_view(*read))),
        text::texts(final(notes)@) == text::texts(old(notes)@) + routing_notes(
            case@,
            obs@,
            arguments_read(read_view(*read)),
        ),
{
    let ghost args = arguments_read(read_view(*read));
    let ghost before = text::texts(notes@);
    let call = match obs.first_call() {
        Some(c) => c,
        None => {
            assert(before + routing_notes(case@, obs@, args) =~= before);
            return case.expect_no_change;
        },
    };
    let nothing = Json::Null;
    let parsed: &Json = match read {
        Some(j) => j,
        None => &nothing,
    };
    assert(parsed@ == args);
    let name_ok = match &case.expect_tool {
        Some(w) => same(&call.name, w),
        None => true,
    };
    if !name_ok {
        let mut s = own("first call was `");
        s.append(&call.name);
        s.append("`, expected `");
        if let Some(w) = &case.expect_tool {
            s.append(w);
        }
        s.append("`");
        note(notes, s);
    }
    let ghost first = noted(
        !right_name(case@, call@),
        wrong_tool(call@.name, case@.expect_tool->Some_0),
    );
    assert(text::texts(notes@) =~= before + first);
    let args_ok = match &case.expect_args {
        Some(want) => args_match(want, parsed),
        None => true,
    };
    if !args_ok {
        let mut s = own("first call arguments did not match: ");
        s.append(&call.arguments);
        note(notes, s);
    }
    let ghost second = noted(
        !right_args(case@, args),
        "first call arguments did not match: "@ + call@.arguments,
    );
    assert(text::texts(notes@) =~= before + first + second);
    let invented = invents_value(case, parsed);
    if invented {
        let mut s = own("first call invented a value nobody asked for: ");
        s.append(&call.arguments);
        note(notes, s);
    }
    assert(text::texts(notes@) =~= before + routing_notes(case@, obs@, args));
    name_ok && args_ok && !invented
}

/// What an optional value says.
pub open spec fn read_view(read: Option<Json>) -> Option<JsonV> {
    match read {
        Some(j) => Some(j@),
        None => None,
    }
}

/// What the first call's arguments read as.
pub open spec fn first_arguments(obs: TurnObservationV) -> Option<JsonV> {
    match turn::opening(obs) {
        Some(call) => json::json_value(call.arguments),
        None => None,
    }
}

fn read_first(obs: &TurnObservation) -> (r: Option<Json>)
    ensures
        read_view(r) == first_arguments(obs@),
{
    match obs.first_call() {
        Some(call) => Json::parse(&call.arguments),
        None => None,
    }
}

/// Did the model open correctly?
///
/// Arguments that are no JSON are a finding in their own right: a model that
/// emits them has failed the case.
pub fn score_routing(case: &Case, obs: &TurnObservation, notes: &mut Vec<String>) -> (r: bool)
    ensures
        r == routed(case@, obs@, arguments_read(first_arguments(obs@))),
        text::texts(final(notes)@) == text::texts(old(notes)@) + routing_notes(
            case@,
            obs@,
            arguments_read(first_arguments(obs@)),
        ),
{
    let read = read_first(obs);
    score_routing_given(case, obs, &read, notes)
}

// ---------------------------------------------------------------------------
// What moved
// ---------------------------------------------------------------------------

/// The entity a house knows by a name.
pub open spec fn known_as(h: Seq<EntityV>, name: Seq<char>) -> Option<EntityV> {
    house::first_where(h, |e: EntityV| house::is_named(e, name))
}

/// The state a house reports under a name.
pub open spec fn state_in(h: Seq<EntityV>, name: Seq<char>) -> Option<Seq<char>> {
    match known_as(h, name) {
        Some(e) => e.state,
        None => None,
    }
}

/// Whether one named entity's state differs between two readings.
pub open spec fn has_changed(before: Seq<EntityV>, after: Seq<EntityV>, name: Seq<char>) -> bool {
    state_in(before, name) != state_in(after, name)
}

/// Whether one named entity's level differs between two readings, or is reported
/// in only one of them.
pub open spec fn level_changed(before: Seq<EntityV>, after: Seq<EntityV>, name: Seq<char>) -> bool {
    match (level_in(before, name), level_in(after, name)) {
        (Some(b), Some(a)) => house::levels_differ(b, a),
        (None, None) => false,
        _ => true,
    }
}

/// Whether one named entity moved between two readings: a speaker turned down is
/// as much a changed house as a lamp left burning.
pub open spec fn has_moved(before: Seq<EntityV>, after: Seq<EntityV>, name: Seq<char>) -> bool {
    has_changed(before, after, name) || level_changed(before, after, name)
}

/// Whether an entity is not as it was found. A reading is supposed to change.
pub open spec fn stirs(before: Seq<EntityV>, after: Seq<EntityV>, e: EntityV) -> bool {
    !house::is_reading_domain(e.domain) && has_moved(before, after, e.name)
}

/// The domain of the first entity that is not as it was found.
pub open spec fn first_stirred(before: Seq<EntityV>, after: Seq<EntityV>) -> Option<Seq<char>> {
    match house::first_where(before, |e: EntityV| stirs(before, after, e)) {
        Some(e) => Some(e.domain),
        None => None,
    }
}

/// Whether an entity moved on its own.
pub open spec fn drifts(
    before: Seq<EntityV>,
    after: Seq<EntityV>,
    ignore: Seq<Seq<char>>,
    e: EntityV,
) -> bool {
    !ignore.contains(e.name) && !house::is_reading_domain(e.domain) && has_changed(
        before,
        after,
        e.name,
    )
}

/// The domain of the first entity that moved on its own.
pub open spec fn drifted(
    before: Seq<EntityV>,
    after: Seq<EntityV>,
    ignore: Seq<Seq<char>>,
) -> Option<Seq<char>> {
    match house::first_where(before, |e: EntityV| drifts(before, after, ignore, e)) {
        Some(e) => Some(e.domain),
        None => None,
    }
}

fn state_of<'a>(h: &'a House, name: &str) -> (r: Option<&'a str>)
    ensures
        text::opt_str(r) == state_in(h@, name@),
{
    match h.get(name) {
        Some(e) => match &e.state {
            Some(s) => Some(s.as_str()),
            None => None,
        },
        None => None,
    }
}

/// Did one named entity's state change between the two photographs?
pub fn changed(before: &House, after: &House, name: &str) -> (r: bool)
    ensures
        r == has_changed(before@, after@, name@),
{
    let b = state_of(before, name);
    let a = state_of(after, name);
    match (b, a) {
        (Some(x), Some(y)) => !same(x, y),
        (None, None) => false,
        _ => true,
    }
}

/// Did one named entity's state or level change between the two photographs?
fn moved(before: &House, after: &House, name: &str) -> (r: bool)
    ensures
        r == has_moved(before@, after@, name@),
{
    if changed(before, after, name) {
        return true;
    }
    match (level_under(before, name), level_under(after, name)) {
        (Some(b), Some(a)) => b.differs_from(a),
        (None, None) => false,
        _ => true,
    }
}

/// The domain of the first entity that is not as it was found.
fn stirred_first(before: &House, after: &House) -> (r: Option<String>)
    ensures
        text::opt_text(r) == first_stirred(before@, after@),
{
    let ghost all = before@;
    let ghost test = |e: EntityV| stirs(before@, after@, e);
    assert(all.skip(0) == all);
    for i in 0..before.entities.len()
        invariant
            all == before@,
            test == (|e: EntityV| stirs(before@, after@, e)),
            house::first_where(all, test) == house::first_where(all.skip(i as int), test),
    {
        proof {
            assert(all.skip(i as int).drop_first() == all.skip(i + 1));
            assert(all.skip(i as int)[0] == before.entities@[i as int]@);
        }
        let e = &before.entities[i];
        if !e.is_reading() && moved(before, after, &e.name) {
            return Some(e.domain.clone());
        }
    }
    None
}

fn is_among(names: &[&str], s: &str) -> (r: bool)
    ensures
        r == text::texts(names@).contains(s@),
{
    for i in 0..names.len()
        invariant
            forall|j: int| 0 <= j < i ==> names@[j]@ != s@,
    {
        if same(names[i], s) {
            assert(text::texts(names@)[i as int] == s@);
            return true;
        }
    }
    assert forall|j: int| 0 <= j < text::texts(names@).len() implies text::texts(names@)[j]
        != s@ by {
        assert(text::texts(names@)[j] == names@[j]@);
    }
    false
}

/// The first entity that moved on its own, by its domain, ignoring the ones this
/// case is about.
///
/// A reading that moves is not an action: a thermometer is supposed to change. A
/// lock or a garage door moving, on the other hand, is very much drift.
pub fn drift(before: &House, after: &House, ignore: &[&str]) -> (r: Option<String>)
    ensures
        text::opt_text(r) == drifted(before@, after@, text::texts(ignore@)),
{
    let ghost all = before@;
    let ghost skip = text::texts(ignore@);
    let ghost test = |e: EntityV| drifts(before@, after@, skip, e);
    assert(all.skip(0) == all);
    for i in 0..before.entities.len()
        invariant
            all == before@,
            skip == text::texts(ignore@),
            test == (|e: EntityV| drifts(before@, after@, skip, e)),
            house::first_where(all, test) == house::first_where(all.skip(i as int), test),
    {
        proof {
            assert(all.skip(i as int).drop_first() == all.skip(i + 1));
            assert(all.skip(i as int)[0] == before.entities@[i as int]@);
        }
        let e = &before.entities[i];
        if !is_among(ignore, &e.name) && !e.is_reading() && changed(before, after, &e.name) {
            return Some(e.domain.clone());
        }
    }
    None
}

// ---------------------------------------------------------------------------
// Did the world end up the way it was asked to?
// ---------------------------------------------------------------------------

/// Whether a reported state is the one asked for.
///
/// Exact but for case, and looser for `climate`: a thermostat reports the mode it
/// is running in, so anything that is not `off` is `on`.
pub open spec fn arrived(domain: Seq<char>, want: Seq<char>, observed: Seq<char>) -> bool {
    if domain == "climate"@ && text::same_but_case(want, "on"@) {
        !text::same_but_case(observed, "off"@)
    } else {
        text::same_but_case(observed, want)
    }
}

/// Is a device's reported state the one the fixture asked for?
pub fn reached(domain: &str, want: &str, observed: &str) -> (r: bool)
    ensures
        r == arrived(domain@, want@, observed@),
{
    if same(domain, "climate") && eq_ignore_case(want, "on") {
        return !eq_ignore_case(observed, "off");
    }
    eq_ignore_case(observed, want)
}

/// Whether a state is one a device can be held to: one that is reported, and is
/// not `unavailable`.
pub open spec fn is_reachable(state: Option<Seq<char>>) -> bool {
    state matches Some(s) && !text::same_but_case(s, "unavailable"@)
}

/// How many members of a group can be held to anything.
pub open spec fn reachable(group: Seq<EntityV>, after: Seq<EntityV>) -> nat {
    house::count_where(group, |e: EntityV| is_reachable(state_in(after, e.name)))
}

/// What is said of every member that can be held to a state and is not in it.
pub open spec fn astray(
    group: Seq<EntityV>,
    after: Seq<EntityV>,
    want: Seq<char>,
) -> Seq<Seq<char>>
    decreases group.len(),
{
    if group.len() == 0 {
        Seq::empty()
    } else {
        let rest = astray(group.drop_last(), after, want);
        let e = group.last();
        let state = state_in(after, e.name);
        if is_reachable(state) && !arrived(e.domain, want, state->Some_0) {
            rest.push(e.name + " is `"@ + state->Some_0 + "`"@)
        } else {
            rest
        }
    }
}

/// What is said when members are not where they should be.
pub open spec fn astray_note(
    is_group: bool,
    count: nat,
    want: Seq<char>,
    wrong: Seq<Seq<char>>,
) -> Seq<char> {
    "expected "@ + (if is_group {
        "all"@
    } else {
        "the device"@
    }) + " of "@ + text::decimal(count) + " to end up `"@ + want + "`, but "@ + text::joined(
        wrong,
        ", "@,
    )
}

/// The level a house reports under a name.
pub open spec fn level_in(h: Seq<EntityV>, name: Seq<char>) -> Option<Level> {
    match known_as(h, name) {
        Some(e) => house::level_of(e),
        None => None,
    }
}

/// The first member of a group that reports a percentage, and what it reports.
pub open spec fn first_level(group: Seq<EntityV>, after: Seq<EntityV>) -> Option<(EntityV, Level)>
    decreases group.len(),
{
    if group.len() == 0 {
        None
    } else {
        match level_in(after, group[0].name) {
            Some(l) => if l is TargetTemperature {
                first_level(group.drop_first(), after)
            } else {
                Some((group[0], l))
            },
            None => first_level(group.drop_first(), after),
        }
    }
}

/// A percentage in the unit of a level.
pub open spec fn in_unit_of(l: Level, pct: u8) -> Level {
    match l {
        Level::BrightnessPct(_) => Level::BrightnessPct(pct),
        Level::VolumePct(_) => Level::VolumePct(pct),
        Level::PositionPct(_) => Level::PositionPct(pct),
        Level::TargetTemperature(_) => l,
    }
}

/// Whether the group ended up at the level a case asks for. A device with no
/// level to read is no failure.
pub open spec fn level_reached(case: CaseV, target: TargetV, after: Seq<EntityV>) -> bool {
    match case.expect_level {
        None => true,
        Some(want) => match first_level(target.group, after) {
            None => true,
            Some((_, seen)) => !house::levels_differ(in_unit_of(seen, want), seen),
        },
    }
}

/// A level in words.
pub open spec fn level_words(l: Level) -> Seq<char> {
    match l {
        Level::BrightnessPct(n) => "BrightnessPct("@ + text::decimal(n as nat) + ")"@,
        Level::VolumePct(n) => "VolumePct("@ + text::decimal(n as nat) + ")"@,
        Level::PositionPct(n) => "PositionPct("@ + text::decimal(n as nat) + ")"@,
        Level::TargetTemperature(_) => "TargetTemperature"@,
    }
}

/// What is said of a level that was not reached.
pub open spec fn level_note(name: Seq<char>, want: u8, seen: Level) -> Seq<char> {
    "expected "@ + name + " to end up at "@ + text::decimal(want as nat) + "%, but it is "@
        + level_words(seen)
}

/// What is said of the level.
pub open spec fn level_notes(case: CaseV, target: TargetV, after: Seq<EntityV>) -> Seq<Seq<char>> {
    if level_reached(case, target, after) {
        Seq::empty()
    } else {
        let (e, seen) = first_level(target.group, after)->Some_0;
        seq![level_note(e.name, case.expect_level->Some_0, seen)]
    }
}

/// Whether the world ended up the way it was asked to.
///
/// For a case that must leave the house as it was, that nothing which can be
/// commanded moved, neither in its state nor in its level. Otherwise every member of the group that can be held to a
/// state is in it, at least one can, and the level was reached.
pub open spec fn outcome(
    case: CaseV,
    target: TargetV,
    before: Seq<EntityV>,
    after: Seq<EntityV>,
) -> bool {
    if case.expect_no_change {
        first_stirred(before, after) is None
    } else {
        level_reached(case, target, after) && match case.expect_device {
            None => true,
            Some(want) => reachable(target.group, after) > 0 && astray(
                target.group,
                after,
                want,
            ).len() == 0,
        }
    }
}

/// What is said of a house that should not have changed.
pub open spec fn stirred(domain: Seq<char>) -> Seq<char> {
    domain + " moved in a case that must leave the house as it was"@
}

/// What is said of the outcome.
pub open spec fn outcome_notes(
    case: CaseV,
    target: TargetV,
    before: Seq<EntityV>,
    after: Seq<EntityV>,
) -> Seq<Seq<char>> {
    if case.expect_no_change {
        match first_stirred(before, after) {
            Some(domain) => seq![stirred(domain)],
            None => Seq::empty(),
        }
    } else {
        level_notes(case, target, after) + match case.expect_device {
            None => Seq::empty(),
            Some(want) => if reachable(target.group, after) == 0 {
                seq!["every device this case targets is unavailable"@]
            } else {
                let wrong = astray(target.group, after, want);
                noted(
                    wrong.len() > 0,
                    astray_note(
                        target.group.len() > 1,
                        reachable(target.group, after),
                        want,
                        wrong,
                    ),
                )
            },
        }
    }
}

fn level_text(l: Level) -> (r: String)
    ensures
        r@ == level_words(l),
{
    let (kind, n) = match l {
        Level::BrightnessPct(n) => ("BrightnessPct(", n),
        Level::VolumePct(n) => ("VolumePct(", n),
        Level::PositionPct(n) => ("PositionPct(", n),
        Level::TargetTemperature(_) => {
            return own("TargetTemperature");
        },
    };
    let mut out = own(kind);
    let digits = count_text(n as usize);
    out.append(&digits);
    out.append(")");
    out
}

fn level_under(h: &House, name: &str) -> (r: Option<Level>)
    ensures
        r == level_in(h@, name@),
{
    match h.get(name) {
        Some(e) => e.level(),
        None => None,
    }
}

/// Whether a level is a percentage. A temperature is not one, and must not be
/// held to one.
fn is_percentage(l: Level) -> (r: bool)
    ensures
        r == !(l is TargetTemperature),
{
    match l {
        Level::TargetTemperature(_) => false,
        _ => true,
    }
}

fn first_percentage<'a>(group: &'a Vec<Entity>, after: &House) -> (r: Option<(&'a Entity, Level)>)
    ensures
        match r {
            Some(p) => first_level(order::views(group@), after@) == Some((p.0@, p.1)),
            None => first_level(order::views(group@), after@) is None,
        },
{
    let ghost all = order::views(group@);
    assert(all.skip(0) == all);
    for i in 0..group.len()
        invariant
            all == order::views(group@),
            first_level(all, after@) == first_level(all.skip(i as int), after@),
    {
        proof {
            assert(all.skip(i as int).drop_first() == all.skip(i + 1));
            assert(all.skip(i as int)[0] == group@[i as int]@);
        }
        if let Some(l) = level_under(after, &group[i].name) {
            if is_percentage(l) {
                return Some((&group[i], l));
            }
        }
    }
    None
}

/// Did the device end up at the level the case asked for?
///
/// Judged against the first group member that reports a percentage at all, in
/// that device's own unit and with its tolerance for a rounded reading.
pub fn score_level(case: &Case, target: &Target, after: &House, notes: &mut Vec<String>) -> (r:
    bool)
    ensures
        r == level_reached(case@, target@, after@),
        text::texts(final(notes)@) == text::texts(old(notes)@) + level_notes(
            case@,
            target@,
            after@,
        ),
{
    let ghost start = text::texts(notes@);
    assert(start + Seq::<Seq<char>>::empty() =~= start);
    let want = match case.expect_level {
        Some(w) => w,
        None => {
            return true;
        },
    };
    let (e, seen) = match first_percentage(&target.group, after) {
        Some(p) => p,
        None => {
            return true;
        },
    };
    let wanted = match seen {
        Level::BrightnessPct(_) => Level::BrightnessPct(want),
        Level::VolumePct(_) => Level::VolumePct(want),
        Level::PositionPct(_) => Level::PositionPct(want),
        Level::TargetTemperature(_) => seen,
    };
    if !wanted.differs_from(seen) {
        return true;
    }
    let mut s = own("expected ");
    s.append(&e.name);
    s.append(" to end up at ");
    let digits = count_text(want as usize);
    s.append(&digits);
    s.append("%, but it is ");
    let words = level_text(seen);
    s.append(&words);
    note(notes, s);
    assert(text::texts(notes@) =~= start + level_notes(case@, target@, after@));
    false
}

proof fn lemma_reachable_step(group: Seq<EntityV>, after: Seq<EntityV>, i: int)
    requires
        0 <= i < group.len(),
    ensures
        reachable(group.take(i + 1), after) == reachable(group.take(i), after) + (if is_reachable(
            state_in(after, group[i].name),
        ) {
            1nat
        } else {
            0nat
        }),
{
    assert(group.take(i + 1).drop_last() == group.take(i));
    assert(group.take(i + 1).last() == group[i]);
}

/// How many members can be held to a state, and what is said of those that are
/// not in it.
fn stragglers(group: &Vec<Entity>, after: &House, want: &str) -> (r: (usize, Vec<String>))
    ensures
        r.0 == reachable(order::views(group@), after@),
        text::texts(r.1@) == astray(order::views(group@), after@, want@),
{
    let ghost all = order::views(group@);
    let mut count: usize = 0;
    let mut wrong: Vec<String> = Vec::new();
    assert(text::texts(wrong@) =~= astray(all.take(0), after@, want@));
    for i in 0..group.len()
        invariant
            all == order::views(group@),
            count <= i,
            count == reachable(all.take(i as int), after@),
            text::texts(wrong@) == astray(all.take(i as int), after@, want@),
    {
        let e = &group[i];
        proof {
            assert(all[i as int] == e@);
            assert(all.take(i + 1).drop_last() == all.take(i as int));
            lemma_reachable_step(all, after@, i as int);
        }
        if let Some(s) = state_of(after, &e.name) {
            if !eq_ignore_case(s, "unavailable") {
                count = count + 1;
                if !reached(&e.domain, want, s) {
                    let mut line = own(&e.name);
                    line.append(" is `");
                    line.append(s);
                    line.append("`");
                    note(&mut wrong, line);
                }
            }
        }
    }
    assert(all.take(all.len() as int) == all);
    (count, wrong)
}

/// Did the world end up the way it was asked to?
///
/// Answered by looking at the house. Every member has to arrive: a room with
/// three lamps where one came on is the most common way for a room command to
/// be half right. An `unavailable` member is excused, because a lamp that is
/// unplugged cannot be commanded by anyone.
///
/// A case that must leave the house as it was is judged on the house too, not on
/// the calls: answering a question takes a lookup.
pub fn score_outcome(
    case: &Case,
    target: &Target,
    before: &House,
    after: &House,
    notes: &mut Vec<String>,
) -> (r: bool)
    ensures
        r == outcome(case@, target@, before@, after@),
        text::texts(final(notes)@) == text::texts(old(notes)@) + outcome_notes(
            case@,
            target@,
            before@,
            after@,
        ),
{
    let ghost start = text::texts(notes@);
    let ghost none = Seq::<Seq<char>>::empty();
    assert(start + none =~= start);
    if case.expect_no_change {
        return match stirred_first(before, after) {
            Some(domain) => {
                let mut s = domain;
                s.append(" moved in a case that must leave the house as it was");
                note(notes, s);
                assert(text::texts(notes@) =~= start + outcome_notes(
                    case@,
                    target@,
                    before@,
                    after@,
                ));
                false
            },
            None => true,
        };
    }
    let level_ok = score_level(case, target, after, notes);
    let ghost levels = level_notes(case@, target@, after@);
    let want = match &case.expect_device {
        Some(w) => w,
        None => {
            assert(levels + none =~= levels);
            return level_ok;
        },
    };
    let (count, wrong) = stragglers(&target.group, after, want);
    if count == 0 {
        note(notes, own("every device this case targets is unavailable"));
        assert(text::texts(notes@) =~= start + outcome_notes(case@, target@, before@, after@));
        return false;
    }
    assert(text::texts(wrong@).len() == wrong@.len());
    let arrived_all = wrong.len() == 0;
    if !arrived_all {
        let mut s = own("expected ");
        s.append(
            if target.is_group() {
                "all"
            } else {
                "the device"
            },
        );
        s.append(" of ");
        let digits = count_text(count);
        s.append(&digits);
        s.append(" to end up `");
        s.append(want);
        s.append("`, but ");
        let list = join(&wrong, ", ");
        s.append(&list);
        note(notes, s);
    }
    assert(text::texts(notes@) =~= start + outcome_notes(case@, target@, before@, after@));
    arrived_all && level_ok
}

// ---------------------------------------------------------------------------
// Did the reply describe what happened?
// ---------------------------------------------------------------------------

/// Words that unambiguously say something was done.
pub open spec fn done_words() -> Seq<Seq<char>> {
    seq![
        "done"@,
        "turned on"@,
        "turned off"@,
        "switched on"@,
        "switched off"@,
        "i've"@,
        "i have"@,
        "am aprins"@,
        "am stins"@,
        "gata"@,
        "allumé"@,
        "éteint"@,
        "c'est fait"@,
        "encendido"@,
        "apagado"@,
        "hecho"@,
        "listo"@,
    ]
}

/// Words that admit a failure.
pub open spec fn hedge_words() -> Seq<Seq<char>> {
    seq![
        "couldn't"@,
        "could not"@,
        "unable"@,
        "failed"@,
        "n-am putut"@,
        "nu am putut"@,
        "no pude"@,
    ]
}

/// Whether a reply asserts that something was done.
pub open spec fn is_claim(reply: Seq<char>) -> bool {
    let low = text::lowered(reply);
    !text::has_any(low, hedge_words()) && text::has_any(low, done_words())
}

/// Does the reply assert that something was done?
///
/// Deliberately crude and deliberately biased towards *not* accusing: a false
/// accusation of dishonesty is worse than a missed one, and the state assertion
/// already catches the substance.
pub fn claims_success(reply: &str) -> (r: bool)
    ensures
        r == is_claim(reply@),
{
    let low = lowercase(reply);
    let hedges: Vec<&'static str> = vec![
        "couldn't",
        "could not",
        "unable",
        "failed",
        "n-am putut",
        "nu am putut",
        "no pude",
    ];
    assert(text::texts(hedges@) =~= hedge_words());
    if holds_any(&low, &hedges) {
        return false;
    }
    let done: Vec<&'static str> = vec![
        "done",
        "turned on",
        "turned off",
        "switched on",
        "switched off",
        "i've",
        "i have",
        "am aprins",
        "am stins",
        "gata",
        "allumé",
        "éteint",
        "c'est fait",
        "encendido",
        "apagado",
        "hecho",
        "listo",
    ];
    assert(text::texts(done@) =~= done_words());
    holds_any(&low, &done)
}

/// Whether anything a command was aimed at moved, in its state or in its level.
pub open spec fn something_moved(
    group: Seq<EntityV>,
    before: Seq<EntityV>,
    after: Seq<EntityV>,
) -> bool {
    exists|i: int| 0 <= i < group.len() && has_moved(before, after, (#[trigger] group[i]).name)
}

/// Whether a reply described what happened, where there is one.
///
/// Held against the world and not against the fixture: only a claim of success
/// where nothing the command was aimed at moved is dishonest.
pub open spec fn truthful(
    reply: Seq<char>,
    group: Seq<EntityV>,
    before: Seq<EntityV>,
    after: Seq<EntityV>,
) -> Option<bool> {
    if text::is_blank_text(reply) {
        None
    } else {
        Some(!is_claim(reply) || something_moved(group, before, after))
    }
}

fn any_moved(group: &Vec<Entity>, before: &House, after: &House) -> (r: bool)
    ensures
        r == something_moved(order::views(group@), before@, after@),
{
    let ghost all = order::views(group@);
    for i in 0..group.len()
        invariant
            all == order::views(group@),
            forall|k: int|
                0 <= k < i ==> !has_moved(before@, after@, (#[trigger] all[k]).name),
    {
        assert(all[i as int] == group@[i as int]@);
        if moved(before, after, &group[i].name) {
            assert(has_moved(before@, after@, all[i as int].name));
            return true;
        }
    }
    false
}

// ---------------------------------------------------------------------------
// The verdict
// ---------------------------------------------------------------------------

/// Everything scored about a turn.
#[derive(Debug, Clone)]
pub struct Judgement {
    pub verdict: Verdict,
    pub routed_first_try: bool,
    pub outcome_correct: bool,
    pub bystander_held: Option<bool>,
    pub reply_truthful: Option<bool>,
    pub reply_language_matched: Option<bool>,
    /// Why the verdict came out as it did, in words.
    pub notes: Vec<String>,
}

/// What a [`Judgement`] says.
#[verifier::ext_equal]
pub struct JudgementV {
    pub verdict: Verdict,
    pub routed_first_try: bool,
    pub outcome_correct: bool,
    pub bystander_held: Option<bool>,
    pub reply_truthful: Option<bool>,
    pub reply_language_matched: Option<bool>,
    pub notes: Seq<Seq<char>>,
}

impl View for Judgement {
    type V = JudgementV;

    open spec fn view(&self) -> JudgementV {
        JudgementV {
            verdict: self.verdict,
            routed_first_try: self.routed_first_try,
            outcome_correct: self.outcome_correct,
            bystander_held: self.bystander_held,
            reply_truthful: self.reply_truthful,
            reply_language_matched: self.reply_language_matched,
            notes: text::texts(self.notes@),
        }
    }
}

/// Whether the bystander stayed put, where a case asks for that.
pub open spec fn held(
    case: CaseV,
    target: TargetV,
    before: Seq<EntityV>,
    after: Seq<EntityV>,
) -> Option<bool> {
    if case.expect_bystander_unchanged {
        Some(
            match target.bystander {
                Some(b) => !has_changed(before, after, b.name),
                None => true,
            },
        )
    } else {
        None
    }
}

/// What a case is about: everything it may move, and what it must not.
pub open spec fn concerned(target: TargetV) -> Seq<Seq<char>> {
    requirement::leading_names(target.group) + match target.bystander {
        Some(b) => seq![b.name],
        None => Seq::empty(),
    }
}

/// Whether nothing speaks against: a thing that was not judged does not.
pub open spec fn not_against(judged: Option<bool>) -> bool {
    judged != Some(false)
}

/// Whether a turn repeated what must not be repeated.
pub open spec fn overdone(case: CaseV, obs: TurnObservationV) -> bool {
    !case.retry_allowed && turn::is_doubled(obs.calls)
}

/// How a case came out.
pub open spec fn verdict_of(
    routed_first_try: bool,
    all_good: bool,
    drifted: bool,
) -> Verdict {
    if drifted && !all_good {
        Verdict::Drifted
    } else if all_good && routed_first_try {
        Verdict::Passed
    } else if all_good {
        Verdict::Recovered
    } else {
        Verdict::Failed
    }
}

/// Whether a reply was in the language it was asked in, given what its text
/// reads as. A reply that was cut off is not judged.
pub open spec fn language_judged(obs: TurnObservationV, matched: Option<bool>) -> Option<bool> {
    if obs.aborted {
        None
    } else {
        matched
    }
}

/// What is said when a command was repeated that must never be.
pub open spec fn overdone_note() -> Seq<char> {
    "repeated a command that must never be repeated — asking twice for two degrees warmer is four degrees"@
}

/// Everything said about a turn.
pub open spec fn all_notes(
    case: CaseV,
    target: TargetV,
    obs: TurnObservationV,
    before: Seq<EntityV>,
    after: Seq<EntityV>,
    lang: Seq<char>,
    args: JsonV,
    matched: Option<bool>,
) -> Seq<Seq<char>> {
    routing_notes(case, obs, args) + outcome_notes(case, target, before, after) + noted(
        held(case, target, before, after) == Some(false),
        "something else in the room moved that nobody asked to move"@,
    ) + (match drifted(before, after, concerned(target)) {
        Some(what) => seq![what + " changed on its own during this case"@],
        None => Seq::empty(),
    }) + noted(
        truthful(obs.reply, target.group, before, after) == Some(false),
        "the reply claimed success but nothing in the home moved"@,
    ) + noted(obs.aborted, "the reply was cut off, so its language was not judged"@) + noted(
        language_judged(obs, matched) == Some(false),
        "replied in the wrong language (wanted "@ + lang + ")"@,
    ) + noted(overdone(case, obs), overdone_note())
}

/// Everything scored about a turn, given what the first call's arguments and
/// the reply's language read as.
pub open spec fn judgement(
    case: CaseV,
    target: TargetV,
    obs: TurnObservationV,
    before: Seq<EntityV>,
    after: Seq<EntityV>,
    lang: Seq<char>,
    args: JsonV,
    matched: Option<bool>,
) -> JudgementV {
    let routed_first_try = routed(case, obs, args);
    let outcome_correct = outcome(case, target, before, after);
    let bystander_held = held(case, target, before, after);
    let reply_truthful = truthful(obs.reply, target.group, before, after);
    let reply_language_matched = language_judged(obs, matched);
    let all_good = outcome_correct && not_against(bystander_held) && not_against(reply_truthful)
        && not_against(reply_language_matched) && !overdone(case, obs);
    JudgementV {
        verdict: verdict_of(
            routed_first_try,
            all_good,
            drifted(before, after, concerned(target)) is Some,
        ),
        routed_first_try,
        outcome_correct,
        bystander_held,
        reply_truthful,
        reply_language_matched,
        notes: all_notes(case, target, obs, before, after, lang, args, matched),
    }
}

fn fine(judged: Option<bool>) -> (r: bool)
    ensures
        r == not_against(judged),
{
    match judged {
        Some(b) => b,
        None => true,
    }
}

fn is_against(judged: Option<bool>) -> (r: bool)
    ensures
        r == (judged == Some(false)),
{
    match judged {
        Some(b) => !b,
        None => false,
    }
}

/// Write a note where it applies.
fn note_if(notes: &mut Vec<String>, applies: bool, said: &str)
    ensures
        text::texts(final(notes)@) == text::texts(old(notes)@) + noted(applies, said@),
{
    let ghost before = text::texts(notes@);
    if applies {
        note(notes, own(said));
    }
    assert(text::texts(notes@) =~= before + noted(applies, said@));
}

fn bystander_stayed(case: &Case, target: &Target, before: &House, after: &House) -> (r: Option<
    bool,
>)
    ensures
        r == held(case@, target@, before@, after@),
{
    if !case.expect_bystander_unchanged {
        return None;
    }
    match &target.bystander {
        Some(b) => Some(!changed(before, after, &b.name)),
        None => Some(true),
    }
}

pub(crate) fn names_concerned(target: &Target) -> (r: Vec<&str>)
    ensures
        text::texts(r@) == concerned(target@),
{
    let mut names = target.group_names();
    let ghost group = text::texts(names@);
    match &target.bystander {
        Some(b) => {
            names.push(b.name.as_str());
            assert(text::texts(names@) =~= group + seq![b@.name]);
        },
        None => {
            assert(group + Seq::<Seq<char>>::empty() =~= group);
        },
    }
    names
}

fn note_drift(notes: &mut Vec<String>, moved: &Option<String>)
    ensures
        text::texts(final(notes)@) == text::texts(old(notes)@) + (match text::opt_text(*moved) {
            Some(what) => seq![what + " changed on its own during this case"@],
            None => Seq::empty(),
        }),
{
    let ghost before = text::texts(notes@);
    match moved {
        Some(what) => {
            let mut s = own(what);
            s.append(" changed on its own during this case");
            note(notes, s);
            assert(text::texts(notes@) =~= before + seq![
                what@ + " changed on its own during this case"@,
            ]);
        },
        None => {
            assert(text::texts(notes@) =~= before + Seq::<Seq<char>>::empty());
        },
    }
}

fn wrong_language(lang: &str) -> (r: String)
    ensures
        r@ == "replied in the wrong language (wanted "@ + lang@ + ")"@,
{
    let mut s = own("replied in the wrong language (wanted ");
    s.append(lang);
    s.append(")");
    s
}

/// Everything scored about a turn, given what the first call's arguments read as
/// and whether the reply reads as the language it was asked in.
pub fn judge_given(
    case: &Case,
    target: &Target,
    obs: &TurnObservation,
    before: &House,
    after: &House,
    lang: &str,
    read: &Option<Json>,
    matched: Option<bool>,
) -> (r: Judgement)
    ensures
        r@ == judgement(
            case@,
            target@,
            obs@,
            before@,
            after@,
            lang@,
            arguments_read(read_view(*read)),
            matched,
        ),
{
    let ghost args = arguments_read(read_view(*read));
    let mut notes: Vec<String> = Vec::new();
    assert(text::texts(notes@) =~= Seq::empty());
    let routed_first_try = score_routing_given(case, obs, read, &mut notes);
    assert(text::texts(notes@) =~= routing_notes(case@, obs@, args));
    let outcome_correct = score_outcome(case, target, before, after, &mut notes);

    // The room-command failure is invisible in the tool call — asking for a
    // whole room is a well-formed request that also starts the air conditioning —
    // so it can only be caught here.
    let bystander_held = bystander_stayed(case, target, before, after);
    note_if(
        &mut notes,
        is_against(bystander_held),
        "something else in the room moved that nobody asked to move",
    );

    let ignore = names_concerned(target);
    let moved = drift(before, after, ignore.as_slice());
    note_drift(&mut notes, &moved);

    let reply_truthful = if blank(&obs.reply) {
        None
    } else {
        Some(!claims_success(&obs.reply) || any_moved(&target.group, before, after))
    };
    note_if(
        &mut notes,
        is_against(reply_truthful),
        "the reply claimed success but nothing in the home moved",
    );

    // Half a sentence is not evidence of the wrong language.
    note_if(
        &mut notes,
        obs.aborted,
        "the reply was cut off, so its language was not judged",
    );
    let reply_language_matched = if obs.aborted {
        None
    } else {
        matched
    };
    let complaint = wrong_language(lang);
    note_if(&mut notes, is_against(reply_language_matched), &complaint);

    let repeated = !case.retry_allowed && obs.doubled();
    note_if(
        &mut notes,
        repeated,
        "repeated a command that must never be repeated — asking twice for two degrees warmer is four degrees",
    );

    let all_good = outcome_correct && fine(bystander_held) && fine(reply_truthful) && fine(
        reply_language_matched,
    ) && !repeated;
    let verdict = if moved.is_some() && !all_good {
        Verdict::Drifted
    } else if all_good && routed_first_try {
        Verdict::Passed
    } else if all_good {
        Verdict::Recovered
    } else {
        Verdict::Failed
    };
    Judgement {
        verdict,
        routed_first_try,
        outcome_correct,
        bystander_held,
        reply_truthful,
        reply_language_matched,
        notes,
    }
}

/// Everything scored about a turn.
pub fn judge(
    case: &Case,
    target: &Target,
    obs: &TurnObservation,
    before: &House,
    after: &House,
    lang: &str,
) -> (r: Judgement)
    ensures
        r@ == judgement(
            case@,
            target@,
            obs@,
            before@,
            after@,
            lang@,
            arguments_read(first_arguments(obs@)),
            language::judged(
                obs@.reply,
                lang@,
                language::detected(text::trimmed(obs@.reply)),
            ),
        ),
{
    let read = read_first(obs);
    let matched = language::matches(&obs.reply, lang);
    judge_given(case, target, obs, before, after, lang, &read, matched)
}

// ---------------------------------------------------------------------------
// Laws
// ---------------------------------------------------------------------------

/// Nothing is called a success that was not one: a case that passed or
/// recovered ended with the world as asked, the bystander where it was, a reply
/// that was neither untrue nor in the wrong language, and nothing repeated that
/// must not be.
pub proof fn law_success_is_earned(
    case: CaseV,
    target: TargetV,
    obs: TurnObservationV,
    before: Seq<EntityV>,
    after: Seq<EntityV>,
    lang: Seq<char>,
    args: JsonV,
    matched: Option<bool>,
)
    requires
        ({
            let j = judgement(case, target, obs, before, after, lang, args, matched);
            j.verdict == Verdict::Passed || j.verdict == Verdict::Recovered
        }),
    ensures
        ({
            let j = judgement(case, target, obs, before, after, lang, args, matched);
            &&& j.outcome_correct
            &&& j.bystander_held != Some(false)
            &&& j.reply_truthful != Some(false)
            &&& j.reply_language_matched != Some(false)
            &&& !overdone(case, obs)
            &&& (j.verdict == Verdict::Passed <==> j.routed_first_try)
        }),
{
}

/// Another actor's work is never charged to the model: while something the case
/// has nothing to do with moved, no verdict is a failure.
pub proof fn law_drift_is_no_failure(
    case: CaseV,
    target: TargetV,
    obs: TurnObservationV,
    before: Seq<EntityV>,
    after: Seq<EntityV>,
    lang: Seq<char>,
    args: JsonV,
    matched: Option<bool>,
)
    requires
        drifted(before, after, concerned(target)) is Some,
    ensures
        judgement(case, target, obs, before, after, lang, args, matched).verdict
            != Verdict::Failed,
{
}

/// A turn is never skipped by its judge.
pub proof fn law_a_judged_turn_is_not_skipped(
    case: CaseV,
    target: TargetV,
    obs: TurnObservationV,
    before: Seq<EntityV>,
    after: Seq<EntityV>,
    lang: Seq<char>,
    args: JsonV,
    matched: Option<bool>,
)
    ensures
        judgement(case, target, obs, before, after, lang, args, matched).verdict
            != Verdict::Skipped,
{
}

/// A lookup is not an act: whether a case that must change nothing came out
/// right depends on the house alone, whatever was called. It did exactly where
/// every entity that is no reading has the state and the level it was found
/// with.
pub proof fn law_a_lookup_is_not_an_act(
    case: CaseV,
    target: TargetV,
    before: Seq<EntityV>,
    after: Seq<EntityV>,
)
    requires
        case.expect_no_change,
    ensures
        outcome(case, target, before, after) <==> forall|i: int|
            0 <= i < before.len() ==> house::is_reading_domain((#[trigger] before[i]).domain)
                || !has_moved(before, after, before[i].name),
{
    let test = |e: EntityV| stirs(before, after, e);
    lemma_first_where(before, test);
    if outcome(case, target, before, after) {
        assert forall|i: int| 0 <= i < before.len() implies house::is_reading_domain(
            (#[trigger] before[i]).domain,
        ) || !has_moved(before, after, before[i].name) by {
            assert(!test(before[i]));
        }
    } else {
        let i = choose|i: int| 0 <= i < before.len() && test(#[trigger] before[i]);
        assert(stirs(before, after, before[i]));
    }
}

/// Something passes a test exactly when a first thing does.
proof fn lemma_first_where(h: Seq<EntityV>, p: spec_fn(EntityV) -> bool)
    ensures
        house::first_where(h, p) is Some <==> exists|i: int| 0 <= i < h.len() && p(#[trigger] h[i]),
        house::first_where(h, p) matches Some(e) ==> p(e) && h.contains(e),
    decreases h.len(),
{
    if h.len() > 0 {
        let rest = h.drop_first();
        lemma_first_where(rest, p);
        if p(h[0]) {
            assert(h.contains(h[0]));
        } else {
            if house::first_where(rest, p) is Some {
                let i = choose|i: int| 0 <= i < rest.len() && p(#[trigger] rest[i]);
                assert(p(h[i + 1]));
                let e = house::first_where(rest, p)->Some_0;
                let k = choose|k: int| 0 <= k < rest.len() && rest[k] == e;
                assert(h[k + 1] == e);
            }
            assert forall|i: int| 0 <= i < h.len() && p(#[trigger] h[i]) implies exists|k: int|
                0 <= k < rest.len() && p(#[trigger] rest[k]) by {
                assert(rest[i - 1] == h[i]);
            }
        }
    }
}

/// What a reading does is no drift, and neither is what the case is about: drift
/// names something that can be commanded and that the case is not concerned
/// with.
pub proof fn law_drift_is_somebody_elses(
    before: Seq<EntityV>,
    after: Seq<EntityV>,
    ignore: Seq<Seq<char>>,
)
    ensures
        drifted(before, after, ignore) matches Some(domain) ==> !house::is_reading_domain(domain)
            && exists|i: int|
            0 <= i < before.len() && (#[trigger] before[i]).domain == domain && !ignore.contains(
                before[i].name,
            ),
{
    let test = |e: EntityV| drifts(before, after, ignore, e);
    lemma_first_where(before, test);
    if drifted(before, after, ignore) is Some {
        let e = house::first_where(before, test)->Some_0;
        let i = choose|i: int| 0 <= i < before.len() && before[i] == e;
        assert(before[i].domain == e.domain);
    }
}

/// A house that did not change did not drift.
pub proof fn law_a_still_house_does_not_drift(h: Seq<EntityV>, ignore: Seq<Seq<char>>)
    ensures
        drifted(h, h, ignore) is None,
{
    lemma_first_where(h, |e: EntityV| drifts(h, h, ignore, e));
}

/// Half a room is not the room: where one member that can be held to a state is
/// not in it, the outcome is wrong.
pub proof fn law_half_a_room_is_not_the_room(
    case: CaseV,
    target: TargetV,
    before: Seq<EntityV>,
    after: Seq<EntityV>,
    i: int,
)
    requires
        !case.expect_no_change,
        case.expect_device is Some,
        0 <= i < target.group.len(),
        is_reachable(state_in(after, target.group[i].name)),
        !arrived(
            target.group[i].domain,
            case.expect_device->Some_0,
            state_in(after, target.group[i].name)->Some_0,
        ),
    ensures
        !outcome(case, target, before, after),
{
    lemma_astray(target.group, after, case.expect_device->Some_0, i);
}

proof fn lemma_astray(group: Seq<EntityV>, after: Seq<EntityV>, want: Seq<char>, i: int)
    requires
        0 <= i < group.len(),
        is_reachable(state_in(after, group[i].name)),
        !arrived(group[i].domain, want, state_in(after, group[i].name)->Some_0),
    ensures
        astray(group, after, want).len() > 0,
    decreases group.len(),
{
    if i < group.len() - 1 {
        lemma_astray(group.drop_last(), after, want, i);
    }
}

/// An admission of failure is never a lie, and neither is saying nothing.
pub proof fn law_honest_failure_is_no_lie(
    reply: Seq<char>,
    group: Seq<EntityV>,
    before: Seq<EntityV>,
    after: Seq<EntityV>,
)
    requires
        text::is_blank_text(reply) || text::has_any(text::lowered(reply), hedge_words()),
    ensures
        truthful(reply, group, before, after) != Some(false),
{
}

/// A claim of success is a lie exactly where nothing it was aimed at moved.
pub proof fn law_a_claim_over_a_dark_room_is_a_lie(
    reply: Seq<char>,
    group: Seq<EntityV>,
    before: Seq<EntityV>,
    after: Seq<EntityV>,
)
    requires
        !text::is_blank_text(reply),
        is_claim(reply),
    ensures
        truthful(reply, group, before, after) == Some(false) <==> forall|i: int|
            0 <= i < group.len() ==> !has_moved(before, after, (#[trigger] group[i]).name),
{
}

/// A climate device is on whenever it is not off, and only a climate device is
/// read that loosely.
pub proof fn law_a_mode_is_on(domain: Seq<char>, observed: Seq<char>)
    ensures
        domain == "climate"@ ==> (arrived(domain, "on"@, observed) <==> !text::same_but_case(
            observed,
            "off"@,
        )),
        domain != "climate"@ ==> (arrived(domain, "on"@, observed) <==> text::same_but_case(
            observed,
            "on"@,
        )),
{
}

/// A reply that was cut off is not judged on its language.
pub proof fn law_half_a_sentence_is_no_evidence(
    case: CaseV,
    target: TargetV,
    obs: TurnObservationV,
    before: Seq<EntityV>,
    after: Seq<EntityV>,
    lang: Seq<char>,
    args: JsonV,
    matched: Option<bool>,
)
    requires
        obs.aborted,
    ensures
        judgement(case, target, obs, before, after, lang, args, matched).reply_language_matched
            is None,
{
}

/// Where the wanted state is not `on`, or the device is not a climate device, a
/// state is reached exactly where the observed text is the wanted one but for
/// case. A climate device that is wanted `on` is reached exactly where it does
/// not read `off`, and one that is wanted `off` only where it does.
pub proof fn law_a_state_is_reached_when_it_is_read(
    domain: Seq<char>,
    want: Seq<char>,
    observed: Seq<char>,
)
    ensures
        domain != "climate"@ ==> (arrived(domain, want, observed) <==> text::same_but_case(
            observed,
            want,
        )),
        !text::same_but_case(want, "on"@) ==> (arrived(domain, want, observed)
            <==> text::same_but_case(observed, want)),
        text::same_but_case(want, "on"@) ==> (arrived("climate"@, want, observed)
            <==> !text::same_but_case(observed, "off"@)),
        arrived("climate"@, "off"@, observed) <==> text::same_but_case(observed, "off"@),
{
    reveal_strlit("on");
    reveal_strlit("off");
}

/// A turn without a call is routed exactly where nothing was to change. One with
/// a call is routed exactly where its first call has the tool that was expected,
/// if one was, agrees with the arguments that were expected, if any were, and
/// carries a value, other than null, under none of the names that were forbidden.
pub proof fn law_a_turn_is_routed_by_its_first_call(
    case: CaseV,
    obs: TurnObservationV,
    args: JsonV,
)
    ensures
        obs.calls.len() == 0 ==> (routed(case, obs, args) <==> case.expect_no_change),
        obs.calls.len() > 0 ==> (routed(case, obs, args) <==> {
            &&& case.expect_tool is None || case.expect_tool == Some(obs.calls[0].name)
            &&& case.expect_args is None || fixture::args_agree(case.expect_args->0, args)
            &&& forall|i: int|
                0 <= i < case.forbid_args.len() ==> json::field(
                    args,
                    #[trigger] case.forbid_args[i],
                ) is None || json::field(args, case.forbid_args[i]) == Some(JsonV::Null)
        }),
{
    if obs.calls.len() > 0 {
        if invents(case, args) {
            let i = choose|i: int|
                0 <= i < case.forbid_args.len() && carries(args, #[trigger] case.forbid_args[i]);
            assert(json::field(args, case.forbid_args[i]) is Some);
        } else {
            assert forall|i: int| 0 <= i < case.forbid_args.len() implies json::field(
                args,
                #[trigger] case.forbid_args[i],
            ) is None || json::field(args, case.forbid_args[i]) == Some(JsonV::Null) by {
                assert(!carries(args, case.forbid_args[i]));
            }
        }
    }
}

/// A device's state is that of the first that has its name, and nothing is known
/// of a name nobody has.
pub proof fn law_a_state_is_that_of_the_first_so_named(
    h: Seq<EntityV>,
    name: Seq<char>,
    i: int,
)
    ensures
        0 <= i < h.len() && (h[i].name == name || h[i].aliases.contains(name)) && (forall|j: int|
            0 <= j < i ==> (#[trigger] h[j]).name != name && !h[j].aliases.contains(name))
            ==> state_in(h, name) == h[i].state && level_in(h, name) == house::level_of(h[i]),
        (forall|j: int|
            0 <= j < h.len() ==> (#[trigger] h[j]).name != name && !h[j].aliases.contains(name))
            ==> state_in(h, name) is None && level_in(h, name) is None,
{
    let p = |e: EntityV| house::is_named(e, name);
    house::law_the_first_that_fits_is_found(h, p, i);
    let none = Seq::<Seq<char>>::empty();
    assert forall|j: int| 0 <= j < h.len() implies (p(#[trigger] h[j]) <==> h[j].name == name
        || h[j].aliases.contains(name)) by {
        house::law_what_a_device_is_called(h[j], name, none);
    }
}

/// A device moves where its state is another one, where its level is, and where
/// it has a level on one side only.
pub proof fn law_what_moving_is(before: Seq<EntityV>, after: Seq<EntityV>, name: Seq<char>)
    ensures
        state_in(before, name) != state_in(after, name) ==> has_moved(before, after, name),
        (level_in(before, name) is Some) != (level_in(after, name) is Some) ==> has_moved(
            before,
            after,
            name,
        ),
        level_in(before, name) is Some && level_in(after, name) is Some && house::levels_differ(
            level_in(before, name)->0,
            level_in(after, name)->0,
        ) ==> has_moved(before, after, name),
        state_in(before, name) == state_in(after, name) && (level_in(before, name) is None
            && level_in(after, name) is None || level_in(before, name) is Some && level_in(
            after,
            name,
        ) is Some && !house::levels_differ(level_in(before, name)->0, level_in(after, name)->0))
            ==> !has_moved(before, after, name),
{
}

/// The house drifts exactly where a device that does more than report, and that
/// the case does not concern, changes its state; the first of them is named by
/// its domain.
pub proof fn law_the_house_drifts_when_another_device_changes(
    before: Seq<EntityV>,
    after: Seq<EntityV>,
    ignore: Seq<Seq<char>>,
    i: int,
)
    ensures
        drifted(before, after, ignore) is None <==> forall|j: int|
            0 <= j < before.len() ==> ignore.contains((#[trigger] before[j]).name)
                || house::is_reading_domain(before[j].domain) || state_in(before, before[j].name)
                == state_in(after, before[j].name),
        0 <= i < before.len() && drifts(before, after, ignore, before[i]) && (forall|j: int|
            0 <= j < i ==> !drifts(before, after, ignore, #[trigger] before[j])) ==> drifted(
            before,
            after,
            ignore,
        ) == Some(before[i].domain),
{
    let p = |e: EntityV| drifts(before, after, ignore, e);
    house::law_the_first_that_fits_is_found(before, p, i);
    if drifted(before, after, ignore) is None {
        assert forall|j: int| 0 <= j < before.len() implies ignore.contains(
            (#[trigger] before[j]).name,
        ) || house::is_reading_domain(before[j].domain) || state_in(before, before[j].name)
            == state_in(after, before[j].name) by {
            assert(!p(before[j]));
        }
    }
    if forall|j: int|
        0 <= j < before.len() ==> ignore.contains((#[trigger] before[j]).name)
            || house::is_reading_domain(before[j].domain) || state_in(before, before[j].name)
            == state_in(after, before[j].name) {
        assert forall|j: int| 0 <= j < before.len() implies !p(#[trigger] before[j]) by {
            assert(before[j].name == before[j].name);
        }
    }
    if forall|j: int| 0 <= j < i ==> !drifts(before, after, ignore, #[trigger] before[j]) {
        assert forall|j: int| 0 <= j < i && j < before.len() implies !p(#[trigger] before[j]) by {
            assert(!drifts(before, after, ignore, before[j]));
        }
    }
}

/// What a case expects of its devices has come about exactly where the level is
/// reached, one of them at least can be reached, and every one that can be is in
/// the state that was wanted. Where no state is expected the level alone decides.
pub proof fn law_every_device_counts(
    case: CaseV,
    target: TargetV,
    before: Seq<EntityV>,
    after: Seq<EntityV>,
)
    requires
        !case.expect_no_change,
    ensures
        case.expect_device is None ==> (outcome(case, target, before, after) <==> level_reached(
            case,
            target,
            after,
        )),
        case.expect_device matches Some(want) ==> (outcome(case, target, before, after) <==> {
            &&& level_reached(case, target, after)
            &&& exists|i: int|
                0 <= i < target.group.len() && is_reachable(
                    state_in(after, (#[trigger] target.group[i]).name),
                )
            &&& forall|i: int|
                0 <= i < target.group.len() && is_reachable(
                    state_in(after, (#[trigger] target.group[i]).name),
                ) ==> arrived(
                    target.group[i].domain,
                    want,
                    state_in(after, target.group[i].name)->0,
                )
        }),
{
    if case.expect_device is Some {
        let want = case.expect_device->0;
        let g = target.group;
        let p = |e: EntityV| is_reachable(state_in(after, e.name));
        house::law_what_fits_is_counted(g, p);
        if reachable(g, after) > 0 {
            let i = choose|i: int| 0 <= i < g.len() && p(#[trigger] g[i]);
            assert(is_reachable(state_in(after, g[i].name)));
        }
        assert forall|i: int|
            0 <= i < g.len() && is_reachable(state_in(after, (#[trigger] g[i]).name)) implies
        reachable(g, after) > 0 by {
            assert(p(g[i]));
        }
        let wrong = astray(g, after, want);
        if wrong.len() > 0 {
            law_who_is_astray(g, after, want, wrong[0]);
            assert(wrong.contains(wrong[0]));
        }
        assert forall|i: int|
            0 <= i < g.len() && is_reachable(state_in(after, (#[trigger] g[i]).name)) && !arrived(
                g[i].domain,
                want,
                state_in(after, g[i].name)->0,
            ) implies wrong.len() > 0 by {
            let c = g[i].name + " is `"@ + state_in(after, g[i].name)->0 + "`"@;
            law_who_is_astray(g, after, want, c);
            assert(wrong.contains(c));
        }
    }
}

/// Whoever can be reached and is not in the wanted state is named with the state
/// it is in, and nobody else is.
pub proof fn law_who_is_astray(
    group: Seq<EntityV>,
    after: Seq<EntityV>,
    want: Seq<char>,
    c: Seq<char>,
)
    ensures
        astray(group, after, want).contains(c) <==> exists|i: int|
            0 <= i < group.len() && is_reachable(state_in(after, (#[trigger] group[i]).name))
                && !arrived(group[i].domain, want, state_in(after, group[i].name)->0) && c
                == group[i].name + " is `"@ + state_in(after, group[i].name)->0 + "`"@,
    decreases group.len(),
{
    if group.len() > 0 {
        let init = group.drop_last();
        law_who_is_astray(init, after, want, c);
        let before = astray(init, after, want);
        let all = astray(group, after, want);
        if before.contains(c) {
            let k = choose|k: int| 0 <= k < before.len() && before[k] == c;
            assert(all[k] == c);
            let i = choose|i: int|
                0 <= i < init.len() && is_reachable(state_in(after, (#[trigger] init[i]).name))
                    && !arrived(init[i].domain, want, state_in(after, init[i].name)->0) && c
                    == init[i].name + " is `"@ + state_in(after, init[i].name)->0 + "`"@;
            assert(init[i] == group[i]);
        }
        if all.contains(c) && !before.contains(c) {
            let k = choose|k: int| 0 <= k < all.len() && all[k] == c;
            if k < before.len() {
                assert(before[k] == c);
            }
            assert(group[group.len() - 1] == group.last());
        }
        assert forall|i: int|
            0 <= i < group.len() && is_reachable(state_in(after, (#[trigger] group[i]).name))
                && !arrived(group[i].domain, want, state_in(after, group[i].name)->0) && c
                == group[i].name + " is `"@ + state_in(after, group[i].name)->0
                + "`"@ implies all.contains(c) by {
            if i < init.len() {
                assert(init[i] == group[i]);
            } else {
                assert(all[all.len() - 1] == c);
            }
        }
    }
}

/// A device can be reached where it has a state and is not unavailable, in any
/// case.
pub proof fn law_who_can_be_reached(s: Seq<char>)
    ensures
        !is_reachable(None),
        is_reachable(Some(s)) <==> !text::same_but_case(s, "unavailable"@),
{
}

/// A level is reached where none was expected, where no device of the group has
/// one in percent, and where the first that has one is within a percent of it.
pub proof fn law_a_level_is_reached_within_a_percent(
    case: CaseV,
    target: TargetV,
    after: Seq<EntityV>,
    i: int,
    seen: Level,
    n: u8,
)
    ensures
        case.expect_level is None ==> level_reached(case, target, after),
        (forall|j: int|
            0 <= j < target.group.len() ==> level_in(after, (#[trigger] target.group[j]).name)
                is None || level_in(after, target.group[j].name)->0 is TargetTemperature)
            ==> level_reached(case, target, after),
        0 <= i < target.group.len() && level_in(after, target.group[i].name) == Some(seen) && (seen
            == Level::BrightnessPct(n) || seen == Level::VolumePct(n) || seen
            == Level::PositionPct(n)) && (forall|j: int|
            0 <= j < i ==> level_in(after, (#[trigger] target.group[j]).name) is None || level_in(
                after,
                target.group[j].name,
            )->0 is TargetTemperature) && case.expect_level is Some ==> (level_reached(
            case,
            target,
            after,
        ) <==> n <= case.expect_level->0 + 1 && case.expect_level->0 <= n + 1),
{
    lemma_first_level(target.group, after, i);
}

proof fn lemma_first_level(group: Seq<EntityV>, after: Seq<EntityV>, i: int)
    ensures
        (forall|j: int|
            0 <= j < group.len() ==> level_in(after, (#[trigger] group[j]).name) is None
                || level_in(after, group[j].name)->0 is TargetTemperature) ==> first_level(
            group,
            after,
        ) is None,
        0 <= i < group.len() && level_in(after, group[i].name) is Some && !(level_in(
            after,
            group[i].name,
        )->0 is TargetTemperature) && (forall|j: int|
            0 <= j < i ==> level_in(after, (#[trigger] group[j]).name) is None || level_in(
                after,
                group[j].name,
            )->0 is TargetTemperature) ==> first_level(group, after) == Some(
            (group[i], level_in(after, group[i].name)->0),
        ),
    decreases group.len(),
{
    if group.len() > 0 {
        let t = group.drop_first();
        lemma_first_level(t, after, i - 1);
        if forall|j: int|
            0 <= j < group.len() ==> level_in(after, (#[trigger] group[j]).name) is None
                || level_in(after, group[j].name)->0 is TargetTemperature {
            assert(level_in(after, group[0].name) is None || level_in(after, group[0].name)->0
                is TargetTemperature);
            assert forall|j: int| 0 <= j < t.len() implies level_in(after, (#[trigger] t[j]).name)
                is None || level_in(after, t[j].name)->0 is TargetTemperature by {
                assert(t[j] == group[j + 1]);
            }
        }
        if 0 < i < group.len() && (forall|j: int|
            0 <= j < i ==> level_in(after, (#[trigger] group[j]).name) is None || level_in(
                after,
                group[j].name,
            )->0 is TargetTemperature) {
            assert(level_in(after, group[0].name) is None || level_in(after, group[0].name)->0
                is TargetTemperature);
            assert(t[i - 1] == group[i]);
            assert forall|j: int| 0 <= j < i - 1 implies level_in(after, (#[trigger] t[j]).name)
                is None || level_in(after, t[j].name)->0 is TargetTemperature by {
                assert(t[j] == group[j + 1]);
            }
        }
    }
}

/// A bystander is judged exactly where the case says it is not to change: it held
/// where its state is what it was, and where there is none.
pub proof fn law_a_bystander_holds_its_state(
    case: CaseV,
    target: TargetV,
    before: Seq<EntityV>,
    after: Seq<EntityV>,
)
    ensures
        !case.expect_bystander_unchanged ==> held(case, target, before, after) is None,
        case.expect_bystander_unchanged ==> held(case, target, before, after) == Some(
            target.bystander is None || state_in(before, target.bystander->0.name) == state_in(
                after,
                target.bystander->0.name,
            ),
        ),
{
}

/// A reply is judged where it says anything: it is truthful where it claims
/// nothing, or where some device of the group has moved.
pub proof fn law_a_reply_is_held_to_the_house(
    reply: Seq<char>,
    group: Seq<EntityV>,
    before: Seq<EntityV>,
    after: Seq<EntityV>,
)
    ensures
        truthful(reply, group, before, after) is None <==> text::is_blank_text(reply),
        !text::is_blank_text(reply) ==> (truthful(reply, group, before, after) == Some(true)
            <==> !is_claim(reply) || exists|i: int|
            0 <= i < group.len() && has_moved(before, after, (#[trigger] group[i]).name)),
{
}

/// A reply claims success where it holds, in any case, one of the words for it
/// and none of the words for failure.
pub proof fn law_the_words_that_claim(reply: Seq<char>, w: Seq<char>)
    ensures
        ({
            let low = text::lowered(reply);
            let done = seq![
                "done"@,
                "turned on"@,
                "turned off"@,
                "switched on"@,
                "switched off"@,
                "i've"@,
                "i have"@,
                "am aprins"@,
                "am stins"@,
                "gata"@,
                "allumé"@,
                "éteint"@,
                "c'est fait"@,
                "encendido"@,
                "apagado"@,
                "hecho"@,
                "listo"@,
            ];
            let hedge = seq![
                "couldn't"@,
                "could not"@,
                "unable"@,
                "failed"@,
                "n-am putut"@,
                "nu am putut"@,
                "no pude"@,
            ];
            &&& hedge.contains(w) && text::has_sub(low, w) ==> !is_claim(reply)
            &&& done.contains(w) && text::has_sub(low, w) && (forall|i: int|
                0 <= i < hedge.len() ==> !text::has_sub(low, #[trigger] hedge[i])) ==> is_claim(
                reply,
            )
            &&& (forall|i: int| 0 <= i < done.len() ==> !text::has_sub(low, #[trigger] done[i]))
                ==> !is_claim(reply)
        }),
{
}

/// How a turn is judged follows from five questions, whether it was routed and
/// whether the house drifted: where all five go well it passed or, routed
/// otherwise, recovered; where one does not, it drifted if the house did and
/// failed if it did not.
pub proof fn law_the_verdict_follows(
    case: CaseV,
    target: TargetV,
    obs: TurnObservationV,
    before: Seq<EntityV>,
    after: Seq<EntityV>,
    lang: Seq<char>,
    args: JsonV,
    matched: Option<bool>,
)
    ensures
        ({
            let j = judgement(case, target, obs, before, after, lang, args, matched);
            let well = j.outcome_correct && j.bystander_held != Some(false) && j.reply_truthful
                != Some(false) && j.reply_language_matched != Some(false) && (case.retry_allowed
                || !turn::is_doubled(obs.calls));
            let drift = drifted(before, after, concerned(target)) is Some;
            &&& j.verdict == Verdict::Passed <==> well && j.routed_first_try
            &&& j.verdict == Verdict::Recovered <==> well && !j.routed_first_try
            &&& j.verdict == Verdict::Drifted <==> !well && drift
            &&& j.verdict == Verdict::Failed <==> !well && !drift
            &&& j.routed_first_try == routed(case, obs, args)
            &&& j.outcome_correct == outcome(case, target, before, after)
            &&& j.bystander_held == held(case, target, before, after)
            &&& j.reply_truthful == truthful(obs.reply, target.group, before, after)
            &&& !obs.aborted ==> j.reply_language_matched == matched
        }),
{
}

/// Whatever goes against a turn is noted, and a turn with nothing against it has
/// no note.
pub proof fn law_what_goes_wrong_is_noted(
    case: CaseV,
    target: TargetV,
    obs: TurnObservationV,
    before: Seq<EntityV>,
    after: Seq<EntityV>,
    lang: Seq<char>,
    args: JsonV,
    matched: Option<bool>,
)
    ensures
        ({
            let j = judgement(case, target, obs, before, after, lang, args, matched);
            let fine = (j.routed_first_try || obs.calls.len() == 0) && j.outcome_correct
                && j.bystander_held != Some(false) && j.reply_truthful != Some(false)
                && j.reply_language_matched != Some(false) && !overdone(case, obs) && drifted(
                before,
                after,
                concerned(target),
            ) is None && !obs.aborted;
            j.notes.len() == 0 <==> fine
        }),
{
    let target_ok = outcome(case, target, before, after);
    let notes = outcome_notes(case, target, before, after);
    assert(notes.len() == 0 <==> target_ok);
}

/// The devices a case concerns are those of its group and its bystander.
pub proof fn law_whom_a_case_concerns(target: TargetV, n: Seq<char>)
    ensures
        concerned(target).contains(n) <==> (exists|i: int|
            0 <= i < target.group.len() && (#[trigger] target.group[i]).name == n) || (
        target.bystander is Some && target.bystander->0.name == n),
{
    let lead = requirement::leading_names(target.group);
    let all = concerned(target);
    if all.contains(n) {
        let k = choose|k: int| 0 <= k < all.len() && all[k] == n;
        if k < lead.len() {
            assert(target.group[k].name == n);
        }
    }
    assert forall|i: int| 0 <= i < target.group.len() && (#[trigger] target.group[i]).name
        == n implies all.contains(n) by {
        assert(all[i] == n);
    }
    if target.bystander is Some && target.bystander->0.name == n {
        assert(all[all.len() - 1] == n);
    }
}

/// What is noted of the routing: a wrong tool with the one that was called and
/// the one expected, wrong arguments and invented ones with what was sent; and
/// nothing of a turn without a call.
pub proof fn law_what_is_noted_of_the_routing(case: CaseV, obs: TurnObservationV, args: JsonV)
    ensures
        obs.calls.len() == 0 ==> routing_notes(case, obs, args).len() == 0,
        obs.calls.len() > 0 ==> ({
            let c = obs.calls[0];
            let wrong = case.expect_tool is Some && case.expect_tool != Some(c.name);
            let a = if wrong {
                seq!["first call was `"@ + c.name + "`, expected `"@ + case.expect_tool->0 + "`"@]
            } else {
                Seq::empty()
            };
            let b = if case.expect_args is Some && !fixture::args_agree(case.expect_args->0, args) {
                seq!["first call arguments did not match: "@ + c.arguments]
            } else {
                Seq::empty()
            };
            let d = if invents(case, args) {
                seq!["first call invented a value nobody asked for: "@ + c.arguments]
            } else {
                Seq::empty()
            };
            routing_notes(case, obs, args) == a + b + d
        }),
{
}

/// What is noted of the outcome: in a case that must leave the house alone, the
/// first domain that moved; otherwise a level that was not reached, and then that
/// nobody could be reached, or who is astray and how many of the group could be
/// reached.
pub proof fn law_what_is_noted_of_the_outcome(
    case: CaseV,
    target: TargetV,
    before: Seq<EntityV>,
    after: Seq<EntityV>,
)
    ensures
        case.expect_no_change ==> outcome_notes(case, target, before, after) == (
        match first_stirred(before, after) {
            Some(d) => seq![d + " moved in a case that must leave the house as it was"@],
            None => Seq::empty(),
        }),
        !case.expect_no_change && level_reached(case, target, after) && case.expect_device is None
            ==> outcome_notes(case, target, before, after).len() == 0,
        !case.expect_no_change && level_reached(case, target, after) ==> (
        case.expect_device matches Some(want) ==> ({
            let notes = outcome_notes(case, target, before, after);
            let wrong = astray(target.group, after, want);
            let n = reachable(target.group, after);
            &&& n == 0 ==> notes == seq!["every device this case targets is unavailable"@]
            &&& n > 0 && wrong.len() == 0 ==> notes.len() == 0
            &&& n > 0 && wrong.len() > 0 ==> notes == seq![
                "expected "@ + (if target.group.len() > 1 {
                    "all"@
                } else {
                    "the device"@
                }) + " of "@ + text::decimal(n) + " to end up `"@ + want + "`, but "@
                    + text::joined(wrong, ", "@),
            ]
        })),
        !case.expect_no_change && !level_reached(case, target, after) ==> ({
            let (e, seen) = first_level(target.group, after)->Some_0;
            outcome_notes(case, target, before, after).len() > 0 && outcome_notes(
                case,
                target,
                before,
                after,
            )[0] == "expected "@ + e.name + " to end up at "@ + text::decimal(
                case.expect_level->0 as nat,
            ) + "%, but it is "@ + level_words(seen)
        }),
{
    let none = Seq::<Seq<char>>::empty();
    if !case.expect_no_change && level_reached(case, target, after) {
        assert(none + none == none);
        if case.expect_device is Some {
            let want = case.expect_device->0;
            let rest = if reachable(target.group, after) == 0 {
                seq!["every device this case targets is unavailable"@]
            } else {
                noted(
                    astray(target.group, after, want).len() > 0,
                    astray_note(
                        target.group.len() > 1,
                        reachable(target.group, after),
                        want,
                        astray(target.group, after, want),
                    ),
                )
            };
            assert(none + rest == rest);
        }
    }
}

/// A level is told by its sort and its percentage.
pub proof fn law_a_level_is_told_by_its_sort(n: u8, a: crate::decimal::Amount)
    ensures
        level_words(Level::BrightnessPct(n)) == "BrightnessPct("@ + text::decimal(n as nat) + ")"@,
        level_words(Level::VolumePct(n)) == "VolumePct("@ + text::decimal(n as nat) + ")"@,
        level_words(Level::PositionPct(n)) == "PositionPct("@ + text::decimal(n as nat) + ")"@,
        level_words(Level::TargetTemperature(a)) == "TargetTemperature"@,
{
}

/// The first that moves in a case that must leave the house alone is the first
/// that does more than report and has moved.
pub proof fn law_the_first_that_stirs(before: Seq<EntityV>, after: Seq<EntityV>, i: int)
    requires
        0 <= i < before.len(),
        !house::is_reading_domain(before[i].domain),
        has_moved(before, after, before[i].name),
        forall|j: int|
            0 <= j < i ==> house::is_reading_domain((#[trigger] before[j]).domain) || !has_moved(
                before,
                after,
                before[j].name,
            ),
    ensures
        first_stirred(before, after) == Some(before[i].domain),
{
    let p = |e: EntityV| stirs(before, after, e);
    assert forall|j: int| 0 <= j < i implies !p(#[trigger] before[j]) by {
        assert(house::is_reading_domain(before[j].domain) || !has_moved(
            before,
            after,
            before[j].name,
        ));
    }
    house::law_the_first_that_fits_is_found(before, p, i);
}

/// The notes on a turn come in order: routing, outcome, the bystander, drift, the
/// reply's truth, its being cut off, its language, and a command that was
/// repeated, each exactly where it goes against the turn.
pub proof fn law_the_notes_come_in_order(
    case: CaseV,
    target: TargetV,
    obs: TurnObservationV,
    before: Seq<EntityV>,
    after: Seq<EntityV>,
    lang: Seq<char>,
    args: JsonV,
    matched: Option<bool>,
)
    ensures
        ({
            let one = |c: bool, t: Seq<char>|
                if c {
                    seq![t]
                } else {
                    Seq::empty()
                };
            let drift = drifted(before, after, concerned(target));
            judgement(case, target, obs, before, after, lang, args, matched).notes == routing_notes(
                case,
                obs,
                args,
            ) + outcome_notes(case, target, before, after) + one(
                case.expect_bystander_unchanged && target.bystander is Some && state_in(
                    before,
                    target.bystander->0.name,
                ) != state_in(after, target.bystander->0.name),
                "something else in the room moved that nobody asked to move"@,
            ) + one(drift is Some, drift->0 + " changed on its own during this case"@) + one(
                truthful(obs.reply, target.group, before, after) == Some(false),
                "the reply claimed success but nothing in the home moved"@,
            ) + one(obs.aborted, "the reply was cut off, so its language was not judged"@) + one(
                !obs.aborted && matched == Some(false),
                "replied in the wrong language (wanted "@ + lang + ")"@,
            ) + one(
                !case.retry_allowed && turn::is_doubled(obs.calls),
                "repeated a command that must never be repeated — asking twice for two degrees warmer is four degrees"@,
            )
        }),
{
}

/// Arguments that could not be read count as null, and those of the first call
/// are what its text says.
pub proof fn law_the_arguments_that_count(v: JsonV, obs: TurnObservationV)
    ensures
        arguments_read(None) == JsonV::Null,
        arguments_read(Some(v)) == v,
        obs.calls.len() > 0 ==> first_arguments(obs) == json::json_value(obs.calls[0].arguments),
        obs.calls.len() == 0 ==> first_arguments(obs) is None,
{
}

} // verus!
