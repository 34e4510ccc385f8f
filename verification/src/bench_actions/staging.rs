//! Set the stage, and put it back.
//!
//! A benchmark against a real home is only worth something if a run leaves no
//! trace and a rerun measures the same thing. The commands here are sent to the
//! house directly, never through the assistant: staging must not depend on the
//! thing being measured.
//!
//! Switching comes before levelling, so a lamp is on before it is dimmed; and a
//! device that was off is never given a level, which would switch it on.

use vstd::prelude::*;

use super::fixture::{Case, CaseV};
use super::house;
use super::house::{Entity, EntityV, House, Level};
use super::requirement::{Target, TargetV};
use super::scoring;
use crate::decimal;
use crate::decimal::{write_attos, Amount};
use crate::json;
use crate::json::put;
use crate::order;
use crate::text;
use crate::text::{count_text, eq_ignore_case, join, own, same, same_opt};
use crate::value;
use crate::value::{Json, JsonV};

verus! {

broadcast use crate::value::group_json_views;

/// One call to make on a device.
#[derive(Debug)]
pub struct Command {
    pub tool: &'static str,
    pub args: Json,
}

/// What a [`Command`] says.
#[verifier::ext_equal]
pub struct CommandV {
    pub tool: Seq<char>,
    pub args: JsonV,
}

impl View for Command {
    type V = CommandV;

    open spec fn view(&self) -> CommandV {
        CommandV { tool: self.tool@, args: self.args@ }
    }
}

/// The device a command is for.
pub open spec fn aimed_at(c: CommandV) -> Option<Seq<char>> {
    json::text_field(c.args, "name"@)
}

// ---------------------------------------------------------------------------
// Switching
// ---------------------------------------------------------------------------

/// Whether a state is one a device can be switched into.
pub open spec fn is_switch_state(s: Seq<char>) -> bool {
    s == "on"@ || s == "off"@
}

/// The call that switches a device on or off.
pub open spec fn switched(name: Seq<char>, want: Seq<char>) -> CommandV {
    CommandV {
        tool: if want == "on"@ {
            "HassTurnOn"@
        } else {
            "HassTurnOff"@
        },
        args: JsonV::Object(seq![("name"@, JsonV::Text(name))]),
    }
}

/// What is said of a state nothing can be switched into.
pub open spec fn unknown_state(domain: Seq<char>, want: Seq<char>) -> Seq<char> {
    "do not know how to put a "@ + domain + " into `"@ + want + "`"@
}

/// What a command or a complaint says.
pub open spec fn command_result(r: Result<Command, String>) -> Result<CommandV, Seq<char>> {
    match r {
        Ok(c) => Ok(c@),
        Err(e) => Err(e@),
    }
}

fn switch_call(name: &str, on: bool) -> (r: Command)
    ensures
        on ==> r@ == switched(name@, "on"@),
        !on ==> r@ == switched(name@, "off"@),
{
    proof {
        reveal_strlit("on");
        reveal_strlit("off");
        assert("on"@.len() != "off"@.len());
    }
    let mut members: Vec<(String, Json)> = Vec::new();
    assert(value::members(members@) =~= Seq::empty());
    put(&mut members, "name", Json::text(name));
    assert(value::members(members@) =~= seq![("name"@, JsonV::Text(name@))]);
    Command {
        tool: if on {
            "HassTurnOn"
        } else {
            "HassTurnOff"
        },
        args: Json::Object(members),
    }
}

fn no_such_state(domain: &str, want: &str) -> (r: String)
    ensures
        r@ == unknown_state(domain@, want@),
{
    let mut s = own("do not know how to put a ");
    s.append(domain);
    s.append(" into `");
    s.append(want);
    s.append("`");
    s
}

/// The call that drives one entity into a known state.
pub fn set_state(entity: &Entity, want: &str) -> (r: Result<Command, String>)
    ensures
        command_result(r) == (if is_switch_state(want@) {
            Ok(switched(entity@.name, want@))
        } else {
            Err(unknown_state(entity@.domain, want@))
        }),
{
    if same(want, "on") {
        return Ok(switch_call(&entity.name, true));
    }
    if same(want, "off") {
        return Ok(switch_call(&entity.name, false));
    }
    Err(no_such_state(&entity.domain, want))
}

// ---------------------------------------------------------------------------
// Levelling
// ---------------------------------------------------------------------------

/// An amount as JSON writes it. JSON has no word for what is infinite nor for
/// what is no number, and writes `null`.
pub open spec fn amount_json(a: Amount) -> JsonV {
    match a {
        Amount::Attos(n) => JsonV::Number(decimal::amount_text(n as int)),
        _ => JsonV::Null,
    }
}

/// The call that sets a device to a level.
pub open spec fn levelled(name: Seq<char>, level: Level) -> CommandV {
    match level {
        Level::BrightnessPct(pct) => CommandV {
            tool: "HassLightSet"@,
            args: JsonV::Object(
                seq![
                    ("brightness"@, json::whole_number(pct as int)),
                    ("name"@, JsonV::Text(name)),
                ],
            ),
        },
        Level::VolumePct(pct) => CommandV {
            tool: "HassSetVolume"@,
            args: JsonV::Object(
                seq![
                    ("name"@, JsonV::Text(name)),
                    ("volume_level"@, json::whole_number(pct as int)),
                ],
            ),
        },
        Level::TargetTemperature(t) => CommandV {
            tool: "HassClimateSetTemperature"@,
            args: JsonV::Object(
                seq![("name"@, JsonV::Text(name)), ("temperature"@, amount_json(t))],
            ),
        },
        Level::PositionPct(pct) => CommandV {
            tool: "HassSetPosition"@,
            args: JsonV::Object(
                seq![
                    ("name"@, JsonV::Text(name)),
                    ("position"@, json::whole_number(pct as int)),
                ],
            ),
        },
    }
}

fn two_members(a: &str, x: Json, b: &str, y: Json) -> (r: Json)
    ensures
        r@ == JsonV::Object(seq![(a@, x@), (b@, y@)]),
{
    let ghost first = (a@, x@);
    let ghost second = (b@, y@);
    let mut members: Vec<(String, Json)> = Vec::new();
    assert(value::members(members@) =~= Seq::empty());
    put(&mut members, a, x);
    put(&mut members, b, y);
    assert(value::members(members@) =~= seq![first, second]);
    Json::Object(members)
}

fn amount_value(a: Amount) -> (r: Json)
    ensures
        r@ == amount_json(a),
{
    match a {
        Amount::Attos(n) => Json::Number(write_attos(n)),
        _ => Json::Null,
    }
}

/// The call that puts one entity's level where it was.
///
/// Separate from [`set_state`] because the order matters: a lamp has to be on
/// before its brightness means anything.
pub fn set_level(entity: &Entity, level: Level) -> (r: Command)
    ensures
        r@ == levelled(entity@.name, level),
{
    let name = Json::text(&entity.name);
    match level {
        Level::BrightnessPct(pct) => Command {
            tool: "HassLightSet",
            args: two_members("brightness", Json::whole(pct as i64), "name", name),
        },
        Level::VolumePct(pct) => Command {
            tool: "HassSetVolume",
            args: two_members("name", name, "volume_level", Json::whole(pct as i64)),
        },
        Level::TargetTemperature(t) => Command {
            tool: "HassClimateSetTemperature",
            args: two_members("name", name, "temperature", amount_value(t)),
        },
        Level::PositionPct(pct) => Command {
            tool: "HassSetPosition",
            args: two_members("name", name, "position", Json::whole(pct as i64)),
        },
    }
}

// ---------------------------------------------------------------------------
// Setting the stage
// ---------------------------------------------------------------------------

/// The calls that drive every member of a group into a state.
pub open spec fn staged(group: Seq<EntityV>, want: Seq<char>) -> Seq<CommandV> {
    group.map_values(|e: EntityV| switched(e.name, want))
}

/// What is said when a device cannot be staged.
pub open spec fn not_staged(device: EntityV, id: Seq<char>, want: Seq<char>) -> Seq<char> {
    "could not stage "@ + device.name + " before `"@ + id + "`: "@ + unknown_state(
        device.domain,
        want,
    )
}

/// The calls to make before a case is said, or why they cannot be made.
///
/// Every member is staged and not just the first: a room command staged on one
/// of three lamps starts from a half-lit room.
pub open spec fn staging_of(case: CaseV, target: TargetV) -> Result<Seq<CommandV>, Seq<char>> {
    match case.precondition {
        None => Ok(Seq::empty()),
        Some(want) => if target.group.len() == 0 {
            Ok(Seq::empty())
        } else if is_switch_state(want) {
            Ok(staged(target.group, want))
        } else {
            Err(not_staged(target.group[0], case.id, want))
        },
    }
}

/// What calls or a complaint say.
pub open spec fn commands_result(r: Result<Vec<Command>, String>) -> Result<
    Seq<CommandV>,
    Seq<char>,
> {
    match r {
        Ok(v) => Ok(order::views(v@)),
        Err(e) => Err(e@),
    }
}

/// The calls to make before a case is said.
///
/// Without a known starting state, "turn off the lamp" against an already dark
/// lamp is indistinguishable from a command that did nothing.
pub fn staging(case: &Case, target: &Target) -> (r: Result<Vec<Command>, String>)
    ensures
        commands_result(r) == staging_of(case@, target@),
{
    let mut out: Vec<Command> = Vec::new();
    assert(order::views(out@) =~= Seq::empty());
    let want = match &case.precondition {
        Some(w) => w,
        None => {
            return Ok(out);
        },
    };
    let ghost group = target@.group;
    if target.group.len() == 0 {
        return Ok(out);
    }
    let known = same(want, "on") || same(want, "off");
    if !known {
        let e = &target.group[0];
        assert(group[0] == e@);
        let mut s = own("could not stage ");
        s.append(&e.name);
        s.append(" before `");
        s.append(&case.id);
        s.append("`: ");
        let why = no_such_state(&e.domain, want);
        s.append(&why);
        return Err(s);
    }
    let on = same(want, "on");
    for i in 0..target.group.len()
        invariant
            group == target@.group,
            is_switch_state(want@),
            on == (want@ == "on"@),
            out@.len() == i,
            forall|k: int| 0 <= k < i ==> (#[trigger] out@[k])@ == switched(group[k].name, want@),
    {
        assert(group[i as int] == target.group@[i as int]@);
        out.push(switch_call(&target.group[i].name, on));
    }
    assert(order::views(out@) =~= staged(group, want@));
    Ok(out)
}

/// Whether a case may have moved something, so that the target is to be put back
/// after it.
pub open spec fn moves_things(case: CaseV) -> bool {
    case.precondition is Some || case.expect_device is Some || case.expect_level is Some
}

/// Whether the target is to be put back after a case.
pub fn restores_after(case: &Case) -> (r: bool)
    ensures
        r == moves_things(case@),
{
    case.precondition.is_some() || case.expect_device.is_some() || case.expect_level.is_some()
}

// ---------------------------------------------------------------------------
// After one case
// ---------------------------------------------------------------------------

/// The call that switches a device back, where it was on or off.
pub open spec fn switched_back(was: EntityV) -> Seq<CommandV> {
    match was.state {
        Some(s) => if is_switch_state(s) {
            seq![switched(was.name, s)]
        } else {
            Seq::empty()
        },
        None => Seq::empty(),
    }
}

/// The call that puts a level back, unless the device was off or is already
/// there.
pub open spec fn levelled_back(was: EntityV, is: Option<Level>) -> Seq<CommandV> {
    if was.state == Some("off"@) {
        Seq::empty()
    } else {
        match house::level_of(was) {
            Some(w) => if is matches Some(i) && !house::levels_differ(w, i) {
                Seq::empty()
            } else {
                seq![levelled(was.name, w)]
            },
            None => Seq::empty(),
        }
    }
}

/// The level a later reading reports under a name, where there is one.
pub open spec fn level_now(now: Option<Seq<EntityV>>, name: Seq<char>) -> Option<Level> {
    match now {
        Some(h) => scoring::level_in(h, name),
        None => None,
    }
}

/// The calls that put one named device back the way it was.
pub open spec fn put_back(
    before: Seq<EntityV>,
    now: Option<Seq<EntityV>>,
    name: Seq<char>,
) -> Seq<CommandV> {
    match scoring::known_as(before, name) {
        Some(was) => switched_back(was) + levelled_back(was, level_now(now, name)),
        None => Seq::empty(),
    }
}

/// The calls that put every named device back.
pub open spec fn put_all_back(
    before: Seq<EntityV>,
    now: Option<Seq<EntityV>>,
    names: Seq<Seq<char>>,
) -> Seq<CommandV>
    decreases names.len(),
{
    if names.len() == 0 {
        Seq::empty()
    } else {
        put_all_back(before, now, names.drop_last()) + put_back(before, now, names.last())
    }
}

/// What an optional reading says.
pub open spec fn opt_house(h: Option<House>) -> Option<Seq<EntityV>> {
    match h {
        Some(x) => Some(x@),
        None => None,
    }
}

fn push_command(out: &mut Vec<Command>, c: Command)
    ensures
        order::views(final(out)@) == order::views(old(out)@).push(c@),
{
    let ghost before = order::views(out@);
    let ghost one = c@;
    out.push(c);
    assert(order::views(out@) =~= before.push(one));
}

fn push_switch(out: &mut Vec<Command>, was: &Entity)
    ensures
        order::views(final(out)@) == order::views(old(out)@) + switched_back(was@),
{
    let ghost before = order::views(out@);
    if let Some(s) = &was.state {
        if same(s, "on") {
            push_command(out, switch_call(&was.name, true));
        } else if same(s, "off") {
            push_command(out, switch_call(&was.name, false));
        }
    }
    assert(order::views(out@) =~= before + switched_back(was@));
}

fn was_off(e: &Entity) -> (r: bool)
    ensures
        r == (e@.state == Some("off"@)),
{
    match &e.state {
        Some(s) => same(s, "off"),
        None => false,
    }
}

fn level_of_now(now: &Option<House>, name: &str) -> (r: Option<Level>)
    ensures
        r == level_now(opt_house(*now), name@),
{
    match now {
        Some(h) => match h.get(name) {
            Some(e) => e.level(),
            None => None,
        },
        None => None,
    }
}

fn push_level(out: &mut Vec<Command>, was: &Entity, is: Option<Level>)
    ensures
        order::views(final(out)@) == order::views(old(out)@) + levelled_back(was@, is),
{
    let ghost before = order::views(out@);
    if !was_off(was) {
        if let Some(w) = was.level() {
            let there = match is {
                Some(i) => !w.differs_from(i),
                None => false,
            };
            if !there {
                push_command(out, set_level(was, w));
            }
        }
    }
    assert(order::views(out@) =~= before + levelled_back(was@, is));
}

fn push_back(out: &mut Vec<Command>, before: &House, now: &Option<House>, name: &str)
    ensures
        order::views(final(out)@) == order::views(old(out)@) + put_back(
            before@,
            opt_house(*now),
            name@,
        ),
{
    let ghost start = order::views(out@);
    match before.get(name) {
        Some(was) => {
            push_switch(out, was);
            let is = level_of_now(now, name);
            push_level(out, was, is);
            assert(order::views(out@) =~= start + (switched_back(was@) + levelled_back(was@, is)));
        },
        None => {
            assert(order::views(out@) =~= start + Seq::<CommandV>::empty());
        },
    }
}

/// The calls that put back everything one case moved.
///
/// Taken from the photograph rather than from the fixture, so a case that failed
/// in an unexpected way is still cleaned up. `now` is a later reading, where one
/// could be had; it only saves writing a level that is already there.
pub fn restore(target: &Target, before: &House, now: &Option<House>) -> (r: Vec<Command>)
    ensures
        order::views(r@) == put_all_back(
            before@,
            opt_house(*now),
            scoring::concerned(target@),
        ),
{
    let names = scoring::names_concerned(target);
    let ghost all = text::texts(names@);
    let mut out: Vec<Command> = Vec::new();
    assert(order::views(out@) =~= put_all_back(before@, opt_house(*now), all.take(0)));
    for i in 0..names.len()
        invariant
            all == text::texts(names@),
            order::views(out@) == put_all_back(before@, opt_house(*now), all.take(i as int)),
    {
        proof {
            assert(all.take(i + 1).drop_last() == all.take(i as int));
            assert(all[i as int] == names@[i as int]@);
        }
        push_back(&mut out, before, now, names[i]);
    }
    assert(all.take(all.len() as int) == all);
    out
}

// ---------------------------------------------------------------------------
// After the whole run
// ---------------------------------------------------------------------------

/// The calls that put one device back the way the run found it.
///
/// Drift is included: a device someone else moved is put back too. The one
/// exception is anything that may not be aimed at — "put it back exactly" is the
/// wrong instinct for anything with a person on the other side of it.
pub open spec fn owed(was: EntityV, now: Seq<EntityV>) -> Seq<CommandV> {
    match scoring::known_as(now, was.name) {
        Some(is) => if house::is_safe(was) && scoring::is_reachable(was.state)
            && scoring::is_reachable(is.state) {
            (if was.state != is.state {
                switched_back(was)
            } else {
                Seq::empty()
            }) + (if house::level_of(is) is Some {
                levelled_back(was, house::level_of(is))
            } else {
                Seq::empty()
            })
        } else {
            Seq::empty()
        },
        None => Seq::empty(),
    }
}

/// One device to be put back, and the calls that do it.
#[derive(Debug)]
pub struct Restoration {
    pub name: String,
    pub commands: Vec<Command>,
}

impl View for Restoration {
    type V = (Seq<char>, Seq<CommandV>);

    open spec fn view(&self) -> (Seq<char>, Seq<CommandV>) {
        (self.name@, order::views(self.commands@))
    }
}

/// Every device to be put back, in the order of the house.
pub open spec fn all_owed(baseline: Seq<EntityV>, now: Seq<EntityV>) -> Seq<
    (Seq<char>, Seq<CommandV>),
>
    decreases baseline.len(),
{
    if baseline.len() == 0 {
        Seq::empty()
    } else {
        let rest = all_owed(baseline.drop_last(), now);
        let was = baseline.last();
        if owed(was, now).len() > 0 {
            rest.push((was.name, owed(was, now)))
        } else {
            rest
        }
    }
}

fn can_be_held(state: &Option<String>) -> (r: bool)
    ensures
        r == scoring::is_reachable(text::opt_text(*state)),
{
    match state {
        Some(s) => !eq_ignore_case(s, "unavailable"),
        None => false,
    }
}

fn commands_owed(was: &Entity, now: &House) -> (r: Vec<Command>)
    ensures
        order::views(r@) == owed(was@, now@),
{
    let mut out: Vec<Command> = Vec::new();
    let ghost none = Seq::<CommandV>::empty();
    assert(order::views(out@) =~= none);
    assert(none + none =~= none);
    if !was.safe_to_target() {
        return out;
    }
    let is = match now.get(&was.name) {
        Some(e) => e,
        None => {
            return out;
        },
    };
    // A device that has since gone unavailable cannot be commanded, and one that
    // *was* unavailable has no state worth restoring.
    if !can_be_held(&was.state) || !can_be_held(&is.state) {
        return out;
    }
    if !same_opt(&was.state, &is.state) {
        push_switch(&mut out, was);
    }
    let ghost first = order::views(out@);
    assert(first + none =~= first);
    assert(none + first =~= first);
    let level = is.level();
    if level.is_some() {
        push_level(&mut out, was, level);
    }
    assert(order::views(out@) =~= owed(was@, now@));
    out
}

/// The calls that put the whole home back the way the suite found it.
///
/// The last thing a run does, and what makes running it against a real home
/// defensible. Planned from a fresh reading rather than from what the per-case
/// restores were meant to do.
pub fn restore_baseline(baseline: &House, now: &House) -> (r: Vec<Restoration>)
    ensures
        order::views(r@) == all_owed(baseline@, now@),
{
    let ghost all = baseline@;
    let mut out: Vec<Restoration> = Vec::new();
    assert(order::views(out@) =~= all_owed(all.take(0), now@));
    for i in 0..baseline.entities.len()
        invariant
            all == baseline@,
            order::views(out@) == all_owed(all.take(i as int), now@),
    {
        let was = &baseline.entities[i];
        let ghost before = order::views(out@);
        proof {
            assert(all.take(i + 1).drop_last() == all.take(i as int));
            assert(all[i as int] == was@);
        }
        let commands = commands_owed(was, now);
        assert(order::views(commands@).len() == commands@.len());
        if commands.len() > 0 {
            let one = Restoration { name: was.name.clone(), commands };
            let ghost said = one@;
            out.push(one);
            assert(order::views(out@) =~= before.push(said));
        }
    }
    assert(all.take(all.len() as int) == all);
    out
}

/// What came of putting one device back: for each of its calls, what went wrong
/// if anything did.
#[derive(Debug)]
pub struct Attempt {
    pub name: String,
    pub failures: Vec<Option<String>>,
}

/// What some outcomes say.
pub open spec fn failure_views(v: Seq<Option<String>>) -> Seq<Option<Seq<char>>> {
    v.map_values(|o: Option<String>| text::opt_text(o))
}

impl View for Attempt {
    type V = (Seq<char>, Seq<Option<Seq<char>>>);

    open spec fn view(&self) -> (Seq<char>, Seq<Option<Seq<char>>>) {
        (self.name@, failure_views(self.failures@))
    }
}

/// How many devices had at least one call that worked.
pub open spec fn fixed_count(attempts: Seq<(Seq<char>, Seq<Option<Seq<char>>>)>) -> nat
    decreases attempts.len(),
{
    if attempts.len() == 0 {
        0
    } else {
        fixed_count(attempts.drop_last()) + (if attempts.last().1.contains(None::<Seq<char>>) {
            1nat
        } else {
            0nat
        })
    }
}

/// What went wrong with one device, in the order it did.
pub open spec fn refusals(name: Seq<char>, outcomes: Seq<Option<Seq<char>>>) -> Seq<Seq<char>>
    decreases outcomes.len(),
{
    if outcomes.len() == 0 {
        Seq::empty()
    } else {
        let rest = refusals(name, outcomes.drop_last());
        match outcomes.last() {
            Some(e) => rest.push(name + ": "@ + e),
            None => rest,
        }
    }
}

/// Everything that went wrong.
pub open spec fn all_refusals(attempts: Seq<(Seq<char>, Seq<Option<Seq<char>>>)>) -> Seq<
    Seq<char>,
>
    decreases attempts.len(),
{
    if attempts.len() == 0 {
        Seq::empty()
    } else {
        all_refusals(attempts.drop_last()) + refusals(attempts.last().0, attempts.last().1)
    }
}

/// How many devices went back, or what would not.
pub open spec fn tallied(attempts: Seq<(Seq<char>, Seq<Option<Seq<char>>>)>) -> Result<
    nat,
    Seq<char>,
> {
    let wrong = all_refusals(attempts);
    if wrong.len() > 0 {
        Err(
            text::decimal(wrong.len()) + " device(s) would not go back: "@ + text::joined(
                wrong,
                "; "@,
            ),
        )
    } else {
        Ok(fixed_count(attempts))
    }
}

/// What a tally says.
pub open spec fn tally_result(r: Result<usize, String>) -> Result<nat, Seq<char>> {
    match r {
        Ok(n) => Ok(n as nat),
        Err(e) => Err(e@),
    }
}

/// Write down what went wrong with one device, and say whether anything worked.
fn push_refusals(out: &mut Vec<String>, a: &Attempt) -> (r: bool)
    ensures
        r == a@.1.contains(None::<Seq<char>>),
        text::texts(final(out)@) == text::texts(old(out)@) + refusals(a@.0, a@.1),
{
    let ghost all = a@.1;
    let ghost start = text::texts(out@);
    let mut worked = false;
    assert(text::texts(out@) =~= start + refusals(a@.0, all.take(0)));
    for i in 0..a.failures.len()
        invariant
            all == a@.1,
            worked == all.take(i as int).contains(None::<Seq<char>>),
            text::texts(out@) == start + refusals(a@.0, all.take(i as int)),
    {
        let ghost before = text::texts(out@);
        proof {
            assert(all.take(i + 1).drop_last() == all.take(i as int));
            assert(all[i as int] == text::opt_text(a.failures@[i as int]));
            lemma_contains_step(all, i as int, None::<Seq<char>>);
        }
        match &a.failures[i] {
            Some(e) => {
                let mut line = own(&a.name);
                line.append(": ");
                line.append(e);
                let ghost said = line@;
                out.push(line);
                assert(text::texts(out@) =~= before.push(said));
                assert(text::texts(out@) =~= start + refusals(a@.0, all.take(i + 1)));
            },
            None => {
                worked = true;
            },
        }
    }
    assert(all.take(all.len() as int) == all);
    worked
}

proof fn lemma_contains_step<T>(s: Seq<T>, i: int, x: T)
    requires
        0 <= i < s.len(),
    ensures
        s.take(i + 1).contains(x) <==> s.take(i).contains(x) || s[i] == x,
{
    if s.take(i).contains(x) {
        let less = s.take(i);
        let k = choose|k: int| 0 <= k < less.len() && less[k] == x;
        assert(s.take(i + 1)[k] == x);
    }
    if s[i] == x {
        assert(s.take(i + 1)[i] == x);
    }
    if s.take(i + 1).contains(x) {
        let more = s.take(i + 1);
        let k = choose|k: int| 0 <= k < more.len() && more[k] == x;
        if k < i {
            assert(s.take(i)[k] == x);
        }
    }
}

/// How many devices went back, or what would not.
///
/// Failures are collected rather than reported at the first: one unreachable
/// lamp must not leave the other nine devices switched on.
pub fn tally(attempts: &Vec<Attempt>) -> (r: Result<usize, String>)
    ensures
        tally_result(r) == tallied(order::views(attempts@)),
{
    let ghost all = order::views(attempts@);
    let mut fixed: usize = 0;
    let mut wrong: Vec<String> = Vec::new();
    assert(text::texts(wrong@) =~= all_refusals(all.take(0)));
    for i in 0..attempts.len()
        invariant
            all == order::views(attempts@),
            fixed <= i,
            fixed == fixed_count(all.take(i as int)),
            text::texts(wrong@) == all_refusals(all.take(i as int)),
    {
        proof {
            assert(all.take(i + 1).drop_last() == all.take(i as int));
            assert(all[i as int] == attempts@[i as int]@);
        }
        if push_refusals(&mut wrong, &attempts[i]) {
            fixed = fixed + 1;
        }
    }
    assert(all.take(all.len() as int) == all);
    assert(text::texts(wrong@).len() == wrong@.len());
    if wrong.len() > 0 {
        let mut s = count_text(wrong.len());
        s.append(" device(s) would not go back: ");
        let list = join(&wrong, "; ");
        s.append(&list);
        return Err(s);
    }
    Ok(fixed)
}

/// What is said at the end of a run.
pub open spec fn parting_words(r: Result<nat, Seq<char>>) -> Seq<char> {
    match r {
        Ok(n) => if n == 0 {
            "\n  home left as it was found."@
        } else {
            "\n  put "@ + text::decimal(n) + " device(s) back the way they were."@
        },
        Err(e) => "\n  WARNING: could not fully put the home back: "@ + e
            + "\n  Check the devices this suite touched before trusting the next run."@,
    }
}

/// What is said at the end of a run.
pub fn parting(r: &Result<usize, String>) -> (s: String)
    ensures
        s@ == parting_words(tally_result(*r)),
{
    match r {
        Ok(n) => if *n == 0 {
            own("\n  home left as it was found.")
        } else {
            let mut s = own("\n  put ");
            let digits = count_text(*n);
            s.append(&digits);
            s.append(" device(s) back the way they were.");
            s
        },
        Err(e) => {
            let mut s = own("\n  WARNING: could not fully put the home back: ");
            s.append(e);
            s.append("\n  Check the devices this suite touched before trusting the next run.");
            s
        },
    }
}

// ---------------------------------------------------------------------------
// Laws
// ---------------------------------------------------------------------------

/// Every call to put a device back is aimed at that device.
pub proof fn law_a_call_is_for_its_device(name: Seq<char>, want: Seq<char>, level: Level)
    ensures
        aimed_at(switched(name, want)) == Some(name),
        aimed_at(levelled(name, level)) == Some(name),
{
    reveal_strlit("name");
    reveal_strlit("brightness");
    assert("name"@.len() != "brightness"@.len());
    lemma_named(switched(name, want).args->Object_0, name, 0);
    lemma_named(
        levelled(name, level).args->Object_0,
        name,
        if level is BrightnessPct {
            1
        } else {
            0
        },
    );
}

proof fn lemma_named(m: Seq<(Seq<char>, JsonV)>, name: Seq<char>, i: int)
    requires
        0 <= i < m.len(),
        m[i] == ("name"@, JsonV::Text(name)),
        forall|j: int| 0 <= j < i ==> (#[trigger] m[j]).0 != "name"@,
    ensures
        json::text_field(JsonV::Object(m), "name"@) == Some(name),
{
    json::lemma_key_at(m, "name"@, i);
}

/// Nothing with a person on the other side of it is put back: the final pass
/// sends no call for a device that may not be aimed at.
pub proof fn law_a_lock_is_left_alone(was: EntityV, now: Seq<EntityV>)
    requires
        !house::is_safe(was),
    ensures
        owed(was, now).len() == 0,
{
}

/// The final pass reaches only devices of the home it found, each by its own
/// name, and only ones that may be aimed at.
pub proof fn law_only_safe_devices_are_put_back(
    baseline: Seq<EntityV>,
    now: Seq<EntityV>,
    i: int,
)
    requires
        0 <= i < all_owed(baseline, now).len(),
    ensures
        exists|k: int|
            0 <= k < baseline.len() && house::is_safe(#[trigger] baseline[k])
                && baseline[k].name == all_owed(baseline, now)[i].0 && owed(baseline[k], now)
                == all_owed(baseline, now)[i].1,
    decreases baseline.len(),
{
    let was = baseline.last();
    let rest = baseline.drop_last();
    if i == all_owed(rest, now).len() {
        assert(house::is_safe(baseline[baseline.len() - 1]));
    } else {
        law_only_safe_devices_are_put_back(rest, now, i);
        let k = choose|k: int|
            0 <= k < rest.len() && house::is_safe(#[trigger] rest[k]) && rest[k].name == all_owed(
                rest,
                now,
            )[i].0 && owed(rest[k], now) == all_owed(rest, now)[i].1;
        assert(baseline[k] == rest[k]);
        assert(house::is_safe(baseline[k]));
    }
}

/// A device that is where it was needs nothing, and a home where every device
/// is needs no calls at all.
pub proof fn law_an_untouched_home_needs_nothing(baseline: Seq<EntityV>, now: Seq<EntityV>)
    requires
        forall|i: int|
            0 <= i < baseline.len() ==> scoring::known_as(now, (#[trigger] baseline[i]).name)
                == Some(baseline[i]),
    ensures
        all_owed(baseline, now).len() == 0,
    decreases baseline.len(),
{
    if baseline.len() > 0 {
        let rest = baseline.drop_last();
        assert forall|i: int| 0 <= i < rest.len() implies scoring::known_as(
            now,
            (#[trigger] rest[i]).name,
        ) == Some(rest[i]) by {
            assert(rest[i] == baseline[i]);
        }
        law_an_untouched_home_needs_nothing(rest, now);
        let was = baseline[baseline.len() - 1];
        assert(was == baseline.last());
        if let Some(w) = house::level_of(was) {
            assert(!house::levels_differ(w, w));
        }
    }
}

/// Putting a level back never switches a device on: one that was off is only
/// ever switched off.
pub proof fn law_a_dark_lamp_is_not_dimmed(was: EntityV, is: Option<Level>, now: Seq<EntityV>)
    requires
        was.state == Some("off"@),
    ensures
        levelled_back(was, is).len() == 0,
        forall|i: int|
            0 <= i < owed(was, now).len() ==> #[trigger] owed(was, now)[i] == switched(
                was.name,
                "off"@,
            ),
{
}

/// A device out of reach, then or now, is sent nothing.
pub proof fn law_what_is_out_of_reach_is_left_alone(was: EntityV, is: EntityV, now: Seq<EntityV>)
    requires
        scoring::known_as(now, was.name) == Some(is),
        !scoring::is_reachable(was.state) || !scoring::is_reachable(is.state),
    ensures
        owed(was, now).len() == 0,
{
}

/// No failure is lost: the home counts as put back exactly when no call was
/// refused.
pub proof fn law_no_refusal_is_swallowed(attempts: Seq<(Seq<char>, Seq<Option<Seq<char>>>)>)
    ensures
        tallied(attempts) is Ok <==> forall|i: int, j: int|
            0 <= i < attempts.len() && 0 <= j < attempts[i].1.len() ==> (
            #[trigger] attempts[i].1[j]) is None,
{
    lemma_all_refusals(attempts);
}

proof fn lemma_refusals(name: Seq<char>, outcomes: Seq<Option<Seq<char>>>)
    ensures
        refusals(name, outcomes).len() == 0 <==> forall|j: int|
            0 <= j < outcomes.len() ==> (#[trigger] outcomes[j]) is None,
    decreases outcomes.len(),
{
    if outcomes.len() > 0 {
        let rest = outcomes.drop_last();
        lemma_refusals(name, rest);
        let last = outcomes[outcomes.len() - 1];
        assert(last == outcomes.last());
        if refusals(name, outcomes).len() == 0 {
            assert forall|j: int| 0 <= j < outcomes.len() implies (#[trigger] outcomes[j])
                is None by {
                if j < rest.len() {
                    assert(rest[j] is None);
                }
            }
        }
        if forall|j: int| 0 <= j < outcomes.len() ==> (#[trigger] outcomes[j]) is None {
            assert forall|j: int| 0 <= j < rest.len() implies (#[trigger] rest[j]) is None by {
                assert(outcomes[j] is None);
            }
        }
    }
}

proof fn lemma_all_refusals(attempts: Seq<(Seq<char>, Seq<Option<Seq<char>>>)>)
    ensures
        all_refusals(attempts).len() == 0 <==> forall|i: int, j: int|
            0 <= i < attempts.len() && 0 <= j < attempts[i].1.len() ==> (
            #[trigger] attempts[i].1[j]) is None,
    decreases attempts.len(),
{
    if attempts.len() > 0 {
        let rest = attempts.drop_last();
        let n = attempts.len() - 1;
        lemma_all_refusals(rest);
        lemma_refusals(attempts[n].0, attempts[n].1);
        if all_refusals(attempts).len() == 0 {
            assert forall|i: int, j: int|
                0 <= i < attempts.len() && 0 <= j < attempts[i].1.len() implies (
            #[trigger] attempts[i].1[j]) is None by {
                if i < n {
                    assert(rest[i].1[j] is None);
                }
            }
        }
        if forall|i: int, j: int|
            0 <= i < attempts.len() && 0 <= j < attempts[i].1.len() ==> (
            #[trigger] attempts[i].1[j]) is None {
            assert forall|i: int, j: int|
                0 <= i < rest.len() && 0 <= j < rest[i].1.len() implies (#[trigger] rest[i].1[j])
                is None by {
                assert(attempts[i].1[j] is None);
            }
            assert forall|j: int| 0 <= j < attempts[n].1.len() implies (
            #[trigger] attempts[n].1[j]) is None by {}
        }
    }
}

/// A device is switched by the command that names the state it is to be in, with
/// its name and nothing else.
pub proof fn law_a_switch_is_a_command_by_name(name: Seq<char>, want: Seq<char>)
    ensures
        switched(name, "on"@).tool == "HassTurnOn"@,
        want != "on"@ ==> switched(name, want).tool == "HassTurnOff"@,
        switched(name, want).args == JsonV::Object(seq![("name"@, JsonV::Text(name))]),
        is_switch_state(want) <==> want == "on"@ || want == "off"@,
{
}

/// A level is set by the command for its sort, under its own argument, beside the
/// device's name.
pub proof fn law_a_level_is_set_under_its_own_name(name: Seq<char>, n: u8, t: Amount, level: Level)
    ensures
        levelled(name, Level::BrightnessPct(n)).tool == "HassLightSet"@,
        levelled(name, Level::BrightnessPct(n)).args->Object_0.contains(
            ("brightness"@, json::whole_number(n as int)),
        ),
        levelled(name, Level::VolumePct(n)).tool == "HassSetVolume"@,
        levelled(name, Level::VolumePct(n)).args->Object_0.contains(
            ("volume_level"@, json::whole_number(n as int)),
        ),
        levelled(name, Level::PositionPct(n)).tool == "HassSetPosition"@,
        levelled(name, Level::PositionPct(n)).args->Object_0.contains(
            ("position"@, json::whole_number(n as int)),
        ),
        levelled(name, Level::TargetTemperature(t)).tool == "HassClimateSetTemperature"@,
        levelled(name, Level::TargetTemperature(t)).args->Object_0.contains(
            ("temperature"@, amount_json(t)),
        ),
        levelled(name, level).args is Object,
        levelled(name, level).args->Object_0.len() == 2,
{
    let a = levelled(name, Level::BrightnessPct(n)).args->Object_0;
    assert(a.contains(a[0]));
    let b = levelled(name, Level::VolumePct(n)).args->Object_0;
    assert(b.contains(b[1]));
    let c = levelled(name, Level::PositionPct(n)).args->Object_0;
    assert(c.contains(c[1]));
    let d = levelled(name, Level::TargetTemperature(t)).args->Object_0;
    assert(d.contains(d[1]));
}

/// A case that wants a state first has every device of its group put into it, one
/// command each and in order; one that wants none has nothing staged, and a state
/// nobody can be put into is refused.
pub proof fn law_every_device_is_staged(case: CaseV, target: TargetV, want: Seq<char>, i: int)
    ensures
        case.precondition is None ==> staging_of(case, target) == Ok::<Seq<CommandV>, Seq<char>>(
            Seq::empty(),
        ),
        target.group.len() == 0 ==> staging_of(case, target) == Ok::<Seq<CommandV>, Seq<char>>(
            Seq::empty(),
        ),
        case.precondition == Some(want) && (want == "on"@ || want == "off"@) ==> (staging_of(
            case,
            target,
        ) matches Ok(c) && c.len() == target.group.len() && (0 <= i < target.group.len() ==> c[i]
            == switched(target.group[i].name, want))),
        case.precondition == Some(want) && want != "on"@ && want != "off"@ && target.group.len() > 0
            ==> staging_of(case, target) is Err,
        moves_things(case) <==> case.precondition is Some || case.expect_device is Some
            || case.expect_level is Some,
{
}

/// What was on or off is switched back to what it was; what was anything else is
/// not switched.
pub proof fn law_a_switch_is_put_back(was: EntityV)
    ensures
        was.state == Some("on"@) ==> switched_back(was) == seq![switched(was.name, "on"@)],
        was.state == Some("off"@) ==> switched_back(was) == seq![switched(was.name, "off"@)],
        was.state != Some("on"@) && was.state != Some("off"@) ==> switched_back(was).len() == 0,
{
}

/// A level is set back to what it was, unless the device was off, had none, or is
/// still there; where nothing is known of the level now, it is set back too.
pub proof fn law_a_level_is_put_back(was: EntityV, is: Option<Level>)
    ensures
        ({
            let w = house::level_of(was);
            let there = w is Some && is is Some && !house::levels_differ(w->0, is->0);
            &&& w is Some && was.state != Some("off"@) && !there ==> levelled_back(was, is) == seq![
                levelled(was.name, w->0),
            ]
            &&& w is None || was.state == Some("off"@) || there ==> levelled_back(was, is).len()
                == 0
        }),
{
}

/// A device is put back as it was found before: switched first, then set to its
/// level; a name nobody knew before is left alone.
pub proof fn law_a_device_is_put_back_as_it_was(
    before: Seq<EntityV>,
    now: Option<Seq<EntityV>>,
    name: Seq<char>,
    was: EntityV,
)
    ensures
        scoring::known_as(before, name) == Some(was) ==> put_back(before, now, name)
            == switched_back(was) + levelled_back(
            was,
            match now {
                Some(h) => scoring::level_in(h, name),
                None => None,
            },
        ),
        scoring::known_as(before, name) is None ==> put_back(before, now, name).len() == 0,
{
}

/// All are put back, one after the other, in the order they are named in.
pub proof fn law_all_are_put_back_in_order(
    a: Seq<Seq<char>>,
    b: Seq<Seq<char>>,
    before: Seq<EntityV>,
    now: Option<Seq<EntityV>>,
    n: Seq<char>,
)
    ensures
        put_all_back(before, now, a + b) == put_all_back(before, now, a) + put_all_back(
            before,
            now,
            b,
        ),
        put_all_back(before, now, seq![n]) == put_back(before, now, n),
    decreases b.len(),
{
    assert(seq![n].drop_last().len() == 0);
    assert(put_all_back(before, now, seq![n].drop_last()).len() == 0);
    assert(put_all_back(before, now, seq![n]) == put_back(before, now, n));
    if b.len() == 0 {
        assert(a + b == a);
        assert(put_all_back(before, now, a) + put_all_back(before, now, b) == put_all_back(
            before,
            now,
            a,
        ));
    } else {
        law_all_are_put_back_in_order(a, b.drop_last(), before, now, n);
        assert((a + b).drop_last() == a + b.drop_last());
        assert((a + b).last() == b.last());
        let x = put_all_back(before, now, a);
        let y = put_all_back(before, now, b.drop_last());
        let z = put_back(before, now, b.last());
        assert(x + y + z == x + (y + z));
    }
}

/// What a device that may be acted on, and answers before and now, is owed: to be
/// switched back where its state is another one, and to be set back where it has
/// a level and that is another one.
pub proof fn law_what_a_device_is_owed(was: EntityV, is: EntityV, now: Seq<EntityV>)
    requires
        scoring::known_as(now, was.name) == Some(is),
        house::is_safe(was),
        scoring::is_reachable(was.state),
        scoring::is_reachable(is.state),
    ensures
        ({
            let w = house::level_of(was);
            let i = house::level_of(is);
            let moved = w is Some && i is Some && house::levels_differ(w->0, i->0) && was.state
                != Some("off"@);
            &&& was.state == is.state && !moved ==> owed(was, now).len() == 0
            &&& was.state == is.state && moved ==> owed(was, now) == seq![
                levelled(was.name, w->0),
            ]
            &&& was.state != is.state && !moved ==> owed(was, now) == switched_back(was)
            &&& was.state != is.state && moved ==> owed(was, now) == switched_back(was).push(
                levelled(was.name, w->0),
            )
        }),
{
    let w = house::level_of(was);
    let i = house::level_of(is);
    let none = Seq::<CommandV>::empty();
    assert(switched_back(was) + none == switched_back(was));
    assert(none + none == none);
    if w is Some {
        assert(switched_back(was) + seq![levelled(was.name, w->0)] == switched_back(was).push(
            levelled(was.name, w->0),
        ));
        assert(none + seq![levelled(was.name, w->0)] == seq![levelled(was.name, w->0)]);
    }
}

/// Every device that is owed anything is named with what it is owed, and no
/// other is.
pub proof fn law_everyone_owed_is_named(
    baseline: Seq<EntityV>,
    now: Seq<EntityV>,
    p: (Seq<char>, Seq<CommandV>),
)
    ensures
        all_owed(baseline, now).contains(p) <==> exists|i: int|
            0 <= i < baseline.len() && (#[trigger] baseline[i]).name == p.0 && owed(baseline[i], now) == p.1 && p.1.len() > 0,
    decreases baseline.len(),
{
    if baseline.len() > 0 {
        let init = baseline.drop_last();
        law_everyone_owed_is_named(init, now, p);
        let before = all_owed(init, now);
        let after = all_owed(baseline, now);
        if before.contains(p) {
            let k = choose|k: int| 0 <= k < before.len() && before[k] == p;
            assert(after[k] == p);
            let i = choose|i: int| 0 <= i < init.len() && (#[trigger] init[i]).name == p.0 && owed(init[i], now) == p.1 && p.1.len() > 0;
            assert(init[i] == baseline[i]);
        }
        if after.contains(p) && !before.contains(p) {
            let k = choose|k: int| 0 <= k < after.len() && after[k] == p;
            if k < before.len() {
                assert(before[k] == p);
            }
            assert(baseline[baseline.len() - 1] == baseline.last());
        }
        assert forall|i: int| 0 <= i < baseline.len() && (#[trigger] baseline[i]).name == p.0 && owed(baseline[i], now) == p.1 && p.1.len() > 0 implies after.contains(p) by {
            if i < init.len() {
                assert(init[i] == baseline[i]);
            } else {
                assert(after[after.len() - 1] == p);
            }
        }
    }
}

/// They come in the order the home was first read in.
pub proof fn law_what_is_owed_comes_in_order(
    a: Seq<EntityV>,
    b: Seq<EntityV>,
    now: Seq<EntityV>,
)
    ensures
        all_owed(a + b, now) == all_owed(a, now) + all_owed(b, now),
    decreases b.len(),
{
    if b.len() == 0 {
        assert(a + b == a);
        assert(all_owed(a, now) + all_owed(b, now) == all_owed(a, now));
    } else {
        law_what_is_owed_comes_in_order(a, b.drop_last(), now);
        assert((a + b).drop_last() == a + b.drop_last());
        assert((a + b).last() == b.last());
    }
}

/// Every command that was refused is told, with the device and why.
pub proof fn law_every_refusal_is_told(
    outcomes: Seq<Option<Seq<char>>>,
    name: Seq<char>,
    c: Seq<char>,
)
    ensures
        refusals(name, outcomes).contains(c) <==> exists|i: int|
            0 <= i < outcomes.len() && (#[trigger] outcomes[i]) is Some && c == name + ": "@ + outcomes[i]->0,
    decreases outcomes.len(),
{
    if outcomes.len() > 0 {
        let init = outcomes.drop_last();
        law_every_refusal_is_told(init, name, c);
        let before = refusals(name, init);
        let after = refusals(name, outcomes);
        if before.contains(c) {
            let k = choose|k: int| 0 <= k < before.len() && before[k] == c;
            assert(after[k] == c);
            let i = choose|i: int| 0 <= i < init.len() && (#[trigger] init[i]) is Some && c == name + ": "@ + init[i]->0;
            assert(init[i] == outcomes[i]);
        }
        if after.contains(c) && !before.contains(c) {
            let k = choose|k: int| 0 <= k < after.len() && after[k] == c;
            if k < before.len() {
                assert(before[k] == c);
            }
            assert(outcomes[outcomes.len() - 1] == outcomes.last());
        }
        assert forall|i: int| 0 <= i < outcomes.len() && (#[trigger] outcomes[i]) is Some && c == name + ": "@ + outcomes[i]->0 implies after.contains(c) by {
            if i < init.len() {
                assert(init[i] == outcomes[i]);
            } else {
                assert(after[after.len() - 1] == c);
            }
        }
    }
}

/// The devices put back are counted one by one, each that took one command at
/// least, and their refusals are told together.
pub proof fn law_devices_put_back_are_counted(
    a: Seq<(Seq<char>, Seq<Option<Seq<char>>>)>,
    b: Seq<(Seq<char>, Seq<Option<Seq<char>>>)>,
    one: (Seq<char>, Seq<Option<Seq<char>>>),
)
    ensures
        fixed_count(a + b) == fixed_count(a) + fixed_count(b),
        all_refusals(a + b) == all_refusals(a) + all_refusals(b),
        fixed_count(seq![one]) == (if one.1.contains(None::<Seq<char>>) {
            1nat
        } else {
            0nat
        }),
        all_refusals(seq![one]) == refusals(one.0, one.1),
        all_refusals(a).len() == 0 ==> tallied(a) == Ok::<nat, Seq<char>>(fixed_count(a)),
        all_refusals(a).len() > 0 ==> tallied(a) == Err::<nat, Seq<char>>(
            text::decimal(all_refusals(a).len()) + " device(s) would not go back: "@
                + text::joined(all_refusals(a), "; "@),
        ),
    decreases b.len(),
{
    let s = seq![one];
    assert(s.drop_last().len() == 0);
    assert(s.last() == one);
    assert(fixed_count(s.drop_last()) == 0);
    assert(all_refusals(s.drop_last()).len() == 0);
    assert(all_refusals(s) == refusals(one.0, one.1));
    if b.len() == 0 {
        assert(a + b == a);
        assert(all_refusals(a) + all_refusals(b) == all_refusals(a));
    } else {
        law_devices_put_back_are_counted(a, b.drop_last(), one);
        assert((a + b).drop_last() == a + b.drop_last());
        assert((a + b).last() == b.last());
        let x = all_refusals(a);
        let y = all_refusals(b.drop_last());
        let z = refusals(b.last().0, b.last().1);
        assert(x + y + z == x + (y + z));
    }
}

/// The last words say what was done: nothing, how many were put back, or that not
/// all could be and why.
pub proof fn law_the_last_words_say_what_was_done(n: nat, e: Seq<char>)
    ensures
        parting_words(Ok(0)) == "\n  home left as it was found."@,
        n > 0 ==> parting_words(Ok(n)) == "\n  put "@ + text::decimal(n)
            + " device(s) back the way they were."@,
        text::has_sub(parting_words(Err(e)), e),
{
    let lead = "\n  WARNING: could not fully put the home back: "@;
    let tail = "\n  Check the devices this suite touched before trusting the next run."@;
    text::law_what_a_text_holds(parting_words(Err(e)), e, lead, tail);
}

/// A state nobody can be put into is refused in words that name the device, the
/// case, its domain and the state.
pub proof fn law_a_state_nobody_can_be_put_into(
    case: CaseV,
    target: TargetV,
    want: Seq<char>,
)
    requires
        case.precondition == Some(want),
        want != "on"@ && want != "off"@,
        target.group.len() > 0,
    ensures
        staging_of(case, target) == Err::<Seq<CommandV>, Seq<char>>(
            "could not stage "@ + target.group[0].name + " before `"@ + case.id + "`: "@ + (
            "do not know how to put a "@ + target.group[0].domain + " into `"@ + want + "`"@),
        ),
{
}

/// A temperature is written as the number it is; what is no number is written as
/// null.
pub proof fn law_a_temperature_is_written_as_it_is(n: i128, negative: bool)
    ensures
        amount_json(Amount::Attos(n)) == JsonV::Number(decimal::amount_text(n as int)),
        amount_json(Amount::NotANumber) == JsonV::Null,
        amount_json(Amount::Infinite { negative }) == JsonV::Null,
{
}

} // verus!
