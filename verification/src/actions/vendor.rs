//! Per-vendor knowledge of what a tool server's own answers mean.
//!
//! The protocol says how to *call* a tool and whether the server raised an
//! error. It says nothing about what a tool was trying to do, so there is no
//! protocol-level way to tell "the light is on now" from "nothing happened".
//! Proving an action landed therefore needs a little knowledge of each server's
//! payloads, and this is the only place it is allowed to live.
//!
//! Two rules shape the interface. A server can answer cheerfully having done
//! nothing at all, so [`Vendor::admission`] exists and "no error" is never
//! treated as proof. And reading the world before and after to see whether
//! anything changed is unsound, because thermometers drift:
//! [`Vendor::confirms`] asks instead whether the world is now as the user asked,
//! looking only at the things the server itself claimed to have touched.

use vstd::prelude::*;

use super::call::ToolCall;
use crate::json;
use crate::text;
use crate::text::{
    cut, has_text, own, same, split_once, split_text, starts, strip, strip_prefix, trim,
    Kind,
};
use crate::value;
use crate::value::{Json, JsonV};

verus! {

broadcast use crate::value::group_json_views;

/// What a server's own error-free result admits about itself.
#[derive(Debug, Clone, PartialEq, Eq)]
pub enum Admission {
    /// Every target the command named was acted on.
    Worked,
    /// Nothing was touched — typically a name that matched no device.
    NothingWorked,
    /// Some targets were acted on and others were not, named here, as far as the
    /// server names them, so the reply can say which. A room-wide command
    /// routinely lands here.
    PartlyWorked { failed: Vec<String> },
}

/// What an [`Admission`] says.
pub enum AdmissionV {
    Worked,
    NothingWorked,
    PartlyWorked { failed: Seq<Seq<char>> },
}

impl View for Admission {
    type V = AdmissionV;

    open spec fn view(&self) -> AdmissionV {
        match self {
            Admission::Worked => AdmissionV::Worked,
            Admission::NothingWorked => AdmissionV::NothingWorked,
            Admission::PartlyWorked { failed } => AdmissionV::PartlyWorked {
                failed: text::texts(failed@),
            },
        }
    }
}

/// What an optional [`Admission`] says.
pub open spec fn opt_admission(o: Option<Admission>) -> Option<AdmissionV> {
    match o {
        Some(a) => Some(a@),
        None => None,
    }
}

/// What a post-condition check concluded.
#[derive(Debug, Clone, Copy, PartialEq, Eq, Structural)]
pub enum Verdict {
    /// The world is as the user asked. This is the only rung that proves it.
    Confirmed,
    /// The server accepted the command and the world disagrees.
    Contradicted,
}

/// One thing in the home a call reached, and whether it landed.
///
/// The name is whatever the server called it, passed through untouched.
#[derive(Debug, Clone, PartialEq, Eq)]
pub struct Target {
    pub name: String,
    /// The server put this one under `success` rather than `failed`.
    pub landed: bool,
}

/// What a [`Target`] says.
pub struct TargetV {
    pub name: Seq<char>,
    pub landed: bool,
}

impl View for Target {
    type V = TargetV;

    open spec fn view(&self) -> TargetV {
        TargetV { name: self.name@, landed: self.landed }
    }
}

/// What a list of targets says.
pub open spec fn targets_say(v: Seq<Target>) -> Seq<TargetV> {
    v.map_values(|t: Target| t@)
}

/// A copy of a list of targets.
pub(crate) fn copy_targets(v: &Vec<Target>) -> (r: Vec<Target>)
    ensures
        targets_say(r@) == targets_say(v@),
{
    let mut out: Vec<Target> = Vec::new();
    for i in 0..v.len()
        invariant
            out@.len() == i,
            forall|k: int| 0 <= k < i ==> out@[k]@ == v@[k]@,
    {
        out.push(Target { name: v[i].name.clone(), landed: v[i].landed });
    }
    assert(targets_say(out@) =~= targets_say(v@));
    out
}

/// The argument names a server uses for the things a house is made of.
///
/// `None` means "this server has no such field", and nothing is constrained
/// for it.
#[derive(Debug, Clone, Copy, PartialEq, Eq)]
pub struct SlotFields {
    /// Holds an area name.
    pub place: Option<&'static str>,
    /// Holds the name of something an area is itself inside.
    pub wider_place: Option<&'static str>,
    /// Holds a device name.
    pub device: Option<&'static str>,
    /// Holds a kind of device.
    pub kind: Option<&'static str>,
}

/// What a [`SlotFields`] says.
pub struct SlotFieldsV {
    pub place: Option<Seq<char>>,
    pub wider_place: Option<Seq<char>>,
    pub device: Option<Seq<char>>,
    pub kind: Option<Seq<char>>,
}

impl View for SlotFields {
    type V = SlotFieldsV;

    open spec fn view(&self) -> SlotFieldsV {
        SlotFieldsV {
            place: text::opt_str(self.place),
            wider_place: text::opt_str(self.wider_place),
            device: text::opt_str(self.device),
            kind: text::opt_str(self.kind),
        }
    }
}

/// The fields of a server that has none of them.
pub open spec fn no_fields() -> SlotFieldsV {
    SlotFieldsV { place: None, wider_place: None, device: None, kind: None }
}

impl Default for SlotFields {
    fn default() -> (r: SlotFields)
        ensures
            r@ == no_fields(),
    {
        SlotFields { place: None, wider_place: None, device: None, kind: None }
    }
}

/// What a list of readings says: a device, and the state the home gives it.
pub open spec fn readings_say(v: Seq<(String, String)>) -> Seq<(Seq<char>, Seq<char>)> {
    v.map_values(|p: (String, String)| (p.0@, p.1@))
}

/// What one family of tool servers' answers mean.
///
/// Every method but the first two may decline to answer, and does so unless it
/// is given. Declining is safe: the weaker rungs of the ladder still apply, and
/// the wording drops to what they support.
pub trait Vendor {
    /// Short identifier, for logs and traces.
    fn id(&self) -> (r: &'static str);

    /// Is this result one of ours?
    ///
    /// Must be specific enough that another vendor's answer never matches, and
    /// is allowed to be wrong only in the direction of saying no.
    fn recognises(&self, result: &Json) -> (r: bool);

    /// What does an error-free result admit about what actually happened?
    ///
    /// `None` means this vendor cannot tell from the payload, which must not
    /// be read as success.
    fn admission(&self, _result: &str) -> (r: Option<Admission>)
        default_ensures
            r is None,
    {
        None
    }

    /// Is a post-condition check worth the extra round trip for this tool?
    fn checks(&self, _tool: &str) -> (r: bool)
        default_ensures
            !r,
    {
        false
    }

    /// Is running this tool a second time the same request as running it once?
    ///
    /// "Be on" and "be off" name a state the world should end in, so asking
    /// twice changes nothing; "two degrees warmer" names a change, and asking
    /// twice is four degrees.
    fn repeatable(&self, _tool: &str) -> (r: bool)
        default_ensures
            !r,
    {
        false
    }

    /// Given a fresh reading of the world, is it as the user asked?
    ///
    /// `None` when this vendor cannot tell, which is not a failure.
    fn confirms(&self, _call: &ToolCall, _result: &str, _readback: &str) -> (r: Option<Verdict>)
        default_ensures
            r is None,
    {
        None
    }

    /// Which individual things in the home this call actually reached, and
    /// whether each one landed. Empty means "this server does not say".
    fn targets(&self, _result: &str) -> (r: Vec<Target>)
        default_ensures
            r@.len() == 0,
    {
        Vec::new()
    }

    /// What a fresh reading of the world says of the devices named.
    fn readings(&self, _readback: &str, _names: &Vec<String>) -> (r: Vec<(String, String)>)
        default_ensures
            r@.len() == 0,
    {
        Vec::new()
    }

    /// Which argument of a tool holds an area, which holds a device, and which
    /// holds a kind of device.
    fn slot_fields(&self) -> (r: SlotFields)
        default_ensures
            r@ == no_fields(),
    {
        SlotFields::default()
    }

    /// Is this catalogue of tool names one of ours?
    fn recognises_catalogue(&self, _tools: &Vec<&str>) -> (r: bool)
        default_ensures
            !r,
    {
        false
    }
}

/// A server we have no specific knowledge of.
#[derive(Debug, Clone, Copy)]
pub struct Unknown;

impl Vendor for Unknown {
    fn id(&self) -> (r: &'static str)
        ensures
            r@ == "unknown"@,
    {
        "unknown"
    }

    fn recognises(&self, _result: &Json) -> (r: bool)
        ensures
            !r,
    {
        false
    }
}

/// Home Assistant, via its built-in server.
#[derive(Debug, Clone, Copy)]
pub struct HomeAssistant;

// ---------------------------------------------------------------------------
// What Home Assistant's payloads say
// ---------------------------------------------------------------------------

/// The part of a result that lists what was and was not touched.
pub open spec fn data_of(v: JsonV) -> JsonV {
    match json::field(v, "data"@) {
        Some(d) => d,
        None => v,
    }
}

/// Whether a result is one of Home Assistant's.
pub open spec fn is_intent_result(v: JsonV) -> bool {
    json::field(v, "response_type"@) is Some && (match json::field(v, "data"@) {
        Some(d) => json::field(d, "success"@) is Some || json::field(d, "failed"@) is Some,
        None => false,
    })
}

/// A device, as opposed to an area — which is a grouping with no state of its
/// own. Anything that does not call itself an area counts.
pub open spec fn is_device(v: JsonV) -> bool {
    json::text_field(v, "type"@) != Some("area"@)
}

/// The names of the devices in a list, in order.
pub open spec fn device_names(list: Seq<JsonV>) -> Seq<Seq<char>>
    decreases list.len(),
{
    if list.len() == 0 {
        Seq::empty()
    } else {
        let before = device_names(list.drop_last());
        match json::text_field(list.last(), "name"@) {
            Some(n) => if is_device(list.last()) {
                before.push(n)
            } else {
                before
            },
            None => before,
        }
    }
}

/// Whether a list holds a device.
pub open spec fn holds_device(list: Seq<JsonV>) -> bool {
    exists|i: int| 0 <= i < list.len() && is_device(#[trigger] list[i])
}

/// The names of the devices in the list under `key`, where there is one.
pub open spec fn names_under(data: JsonV, key: Seq<char>) -> Seq<Seq<char>> {
    match json::list_field(data, key) {
        Some(list) => device_names(list),
        None => Seq::empty(),
    }
}

/// What a result admits: nothing where it lists neither successes nor failures,
/// that nothing worked where no device is among the successes, and otherwise
/// whether a device is among the failures, named or not.
pub open spec fn admitted_by(v: JsonV) -> Option<AdmissionV> {
    let data = data_of(v);
    let success = json::list_field(data, "success"@);
    let failed = json::list_field(data, "failed"@);
    if success is None && failed is None {
        None
    } else if !(success is Some && holds_device(success->0)) {
        Some(AdmissionV::NothingWorked)
    } else if !(failed is Some && holds_device(failed->0)) {
        Some(AdmissionV::Worked)
    } else {
        Some(AdmissionV::PartlyWorked { failed: names_under(data, "failed"@) })
    }
}

/// Names, each with whether it landed.
pub open spec fn landing(names: Seq<Seq<char>>, landed: bool) -> Seq<TargetV> {
    names.map_values(|n: Seq<char>| TargetV { name: n, landed })
}

/// The devices a result names: those that landed, then those that did not.
pub open spec fn reached_by(v: JsonV) -> Seq<TargetV> {
    landing(names_under(data_of(v), "success"@), true) + landing(
        names_under(data_of(v), "failed"@),
        false,
    )
}

/// The devices a result says were switched.
pub open spec fn claimed_by(v: JsonV) -> Seq<Seq<char>> {
    names_under(data_of(v), "success"@)
}

/// The state a tool is asking for, when its name says.
pub open spec fn desired(tool: Seq<char>) -> Option<Seq<char>> {
    if tool == "HassTurnOn"@ {
        Some("on"@)
    } else if tool == "HassTurnOff"@ {
        Some("off"@)
    } else {
        None
    }
}

/// The text of a live reading: what stands under `result`, where the reading is
/// JSON that has such a text, and the reading itself otherwise.
pub open spec fn live_text(read: Option<JsonV>, readback: Seq<char>) -> Seq<char> {
    match read {
        Some(v) => match json::text_field(v, "result"@) {
            Some(t) => t,
            None => readback,
        },
        None => readback,
    }
}

/// The first state given in a block's lines.
pub open spec fn state_in(lines: Seq<Seq<char>>) -> Option<Seq<char>>
    decreases lines.len(),
{
    if lines.len() == 0 {
        None
    } else {
        match text::after_prefix(text::trimmed(lines[0]), "state:"@) {
            Some(rest) => Some(text::stripped(text::trimmed(rest), Kind::Apostrophe)),
            None => state_in(lines.drop_first()),
        }
    }
}

/// What a block of a reading says: a device and the rest of its lines.
pub open spec fn block_parts(block: Seq<char>) -> (Seq<char>, Seq<char>) {
    match text::cut_once(block, Kind::Newline) {
        Some((name, rest)) => (text::trimmed(name), rest),
        None => (text::trimmed(block), Seq::empty()),
    }
}

/// What one block says of a wanted device, unless it is offline.
pub open spec fn block_reading(block: Seq<char>, wanted: Seq<Seq<char>>) -> Option<
    (Seq<char>, Seq<char>),
> {
    let (name, rest) = block_parts(block);
    if !wanted.contains(name) {
        None
    } else {
        match state_in(text::pieces(rest, Kind::Newline)) {
            Some(s) => if s == "unavailable"@ || s == "unknown"@ {
                None
            } else {
                Some((name, s))
            },
            None => None,
        }
    }
}

/// What a reading's blocks say of the wanted devices, in order.
pub open spec fn blocks_reading(blocks: Seq<Seq<char>>, wanted: Seq<Seq<char>>) -> Seq<
    (Seq<char>, Seq<char>),
>
    decreases blocks.len(),
{
    if blocks.len() == 0 {
        Seq::empty()
    } else {
        let before = blocks_reading(blocks.drop_last(), wanted);
        match block_reading(blocks.last(), wanted) {
            Some(p) => before.push(p),
            None => before,
        }
    }
}

/// What a reading's text says of the wanted devices. A block begins after each
/// `- names: `.
pub open spec fn observed(live: Seq<char>, wanted: Seq<Seq<char>>) -> Seq<(Seq<char>, Seq<char>)> {
    blocks_reading(text::split_at_text(live, "- names: "@).skip(1), wanted)
}

/// Whether every state read is the wanted one, when any was read.
pub open spec fn judged(want: Seq<char>, states: Seq<(Seq<char>, Seq<char>)>) -> Option<Verdict> {
    if states.len() == 0 {
        None
    } else if forall|i: int| 0 <= i < states.len() ==> (#[trigger] states[i]).1 == want {
        Some(Verdict::Confirmed)
    } else {
        Some(Verdict::Contradicted)
    }
}

/// Whether the world is as a tool asked, when that can be told: the tool has to
/// name an end state, the server to claim a device, and the reading to speak of
/// one of them.
pub open spec fn confirmed_by(
    tool: Seq<char>,
    result: Option<JsonV>,
    live: Seq<char>,
) -> Option<Verdict> {
    match (desired(tool), result) {
        (Some(want), Some(v)) => if claimed_by(v).len() == 0 {
            None
        } else {
            judged(want, observed(live, claimed_by(v)))
        },
        _ => None,
    }
}

// ---------------------------------------------------------------------------
// Reading them
// ---------------------------------------------------------------------------

fn data_part(v: &Json) -> (r: &Json)
    ensures
        r@ == data_of(v@),
{
    match v.get("data") {
        Some(d) => d,
        None => v,
    }
}

fn device(v: &Json) -> (r: bool)
    ensures
        r == is_device(v@),
{
    match v.get_text("type") {
        Some(t) => !same(t, "area"),
        None => true,
    }
}

fn names_of_devices(list: &Vec<Json>) -> (r: Vec<String>)
    ensures
        text::texts(r@) == device_names(value::items(list@)),
{
    let ghost all = value::items(list@);
    let mut out: Vec<String> = Vec::new();
    assert(text::texts(out@) =~= device_names(all.take(0)));
    for i in 0..list.len()
        invariant
            all == value::items(list@),
            text::texts(out@) == device_names(all.take(i as int)),
    {
        let ghost before = text::texts(out@);
        proof {
            assert(all.take(i + 1).drop_last() == all.take(i as int));
            assert(all[i as int] == list@[i as int]@);
        }
        if let Some(n) = list[i].get_text("name") {
            if device(&list[i]) {
                let name = own(n);
                out.push(name);
                assert(text::texts(out@) =~= before.push(name@));
            }
        }
    }
    assert(all.take(all.len() as int) == all);
    out
}

fn any_device(list: &Vec<Json>) -> (r: bool)
    ensures
        r == holds_device(value::items(list@)),
{
    let ghost all = value::items(list@);
    for i in 0..list.len()
        invariant
            all == value::items(list@),
            forall|k: int| 0 <= k < i ==> !is_device(#[trigger] all[k]),
    {
        assert(all[i as int] == list@[i as int]@);
        if device(&list[i]) {
            return true;
        }
    }
    false
}

fn names_listed(data: &Json, key: &str) -> (r: Vec<String>)
    ensures
        text::texts(r@) == names_under(data@, key@),
{
    match data.get_list(key) {
        Some(list) => names_of_devices(list),
        None => {
            let none: Vec<String> = Vec::new();
            assert(text::texts(none@) =~= Seq::empty());
            none
        },
    }
}

/// What a parsed result admits about itself.
pub fn admitted(v: &Json) -> (r: Option<Admission>)
    ensures
        opt_admission(r) == admitted_by(v@),
{
    let data = data_part(v);
    let success = data.get_list("success");
    let failed = data.get_list("failed");
    if success.is_none() && failed.is_none() {
        return None;
    }
    let switched = match success {
        Some(list) => any_device(list),
        None => false,
    };
    if !switched {
        return Some(Admission::NothingWorked);
    }
    let missed = match failed {
        Some(list) => any_device(list),
        None => false,
    };
    if missed {
        Some(Admission::PartlyWorked { failed: names_listed(data, "failed") })
    } else {
        Some(Admission::Worked)
    }
}

fn land(names: Vec<String>, landed: bool) -> (r: Vec<Target>)
    ensures
        targets_say(r@) == landing(text::texts(names@), landed),
{
    let mut out: Vec<Target> = Vec::new();
    for i in 0..names.len()
        invariant
            out@.len() == i,
            forall|k: int| 0 <= k < i ==> out@[k]@ == (TargetV { name: names@[k]@, landed }),
    {
        out.push(Target { name: names[i].clone(), landed });
    }
    assert(targets_say(out@) =~= landing(text::texts(names@), landed));
    out
}

/// The devices a parsed result names, and whether each landed.
pub fn reached(v: &Json) -> (r: Vec<Target>)
    ensures
        targets_say(r@) == reached_by(v@),
{
    let data = data_part(v);
    let mut out = land(names_listed(data, "success"), true);
    let mut rest = land(names_listed(data, "failed"), false);
    let ghost a = out@;
    let ghost b = rest@;
    out.append(&mut rest);
    assert(targets_say(out@) =~= targets_say(a) + targets_say(b));
    out
}

/// The devices a parsed result says were switched.
pub fn claimed_entities(v: &Json) -> (r: Vec<String>)
    ensures
        text::texts(r@) == claimed_by(v@),
{
    names_listed(data_part(v), "success")
}

/// The state a tool is asking for, when its name says.
///
/// Only the plain on/off intents are covered. A wrong guess about what "set"
/// meant would be a confident false verdict, which is worse than no verdict.
pub fn desired_state(tool: &str) -> (r: Option<&'static str>)
    ensures
        text::opt_str(r) == desired(tool@),
{
    if same(tool, "HassTurnOn") {
        Some("on")
    } else if same(tool, "HassTurnOff") {
        Some("off")
    } else {
        None
    }
}

fn first_state(lines: &Vec<String>) -> (r: Option<String>)
    ensures
        text::opt_text(r) == state_in(text::texts(lines@)),
{
    let ghost all = text::texts(lines@);
    assert(all.skip(0) == all);
    for i in 0..lines.len()
        invariant
            all == text::texts(lines@),
            state_in(all) == state_in(all.skip(i as int)),
    {
        proof {
            assert(all.skip(i as int).drop_first() == all.skip(i + 1));
            assert(all.skip(i as int)[0] == lines@[i as int]@);
        }
        let line = trim(&lines[i]);
        if let Some(rest) = strip_prefix(&line, "state:") {
            let bare = trim(&rest);
            return Some(strip(&bare, Kind::Apostrophe));
        }
    }
    None
}

fn read_block(block: &str, wanted: &Vec<String>) -> (r: Option<(String, String)>)
    ensures
        match r {
            Some(p) => block_reading(block@, text::texts(wanted@)) == Some((p.0@, p.1@)),
            None => block_reading(block@, text::texts(wanted@)) is None,
        },
{
    let (name, rest) = match split_once(block, Kind::Newline) {
        Some((n, r)) => (trim(&n), r),
        None => {
            let empty = String::new();
            assert(empty@ =~= Seq::empty());
            (trim(block), empty)
        },
    };
    if !has_text(wanted, &name) {
        return None;
    }
    let lines = cut(&rest, Kind::Newline);
    match first_state(&lines) {
        Some(s) => if same(&s, "unavailable") || same(&s, "unknown") {
            None
        } else {
            Some((name, s))
        },
        None => None,
    }
}

/// Look up devices in the text of a fresh reading of the house.
///
/// A reading is a block per device, keyed by the same name the result used:
///
/// ```text
/// - names: Hall lamp
///   domain: light
///   state: 'on'
/// ```
///
/// A device the reading does not mention and one that is offline are both left
/// out: a thing that cannot tell us about itself is missing evidence, not
/// evidence of failure.
pub fn observed_in(live: &str, wanted: &Vec<String>) -> (r: Vec<(String, String)>)
    ensures
        readings_say(r@) == observed(live@, text::texts(wanted@)),
{
    proof {
        reveal_strlit("- names: ");
    }
    let parts = split_text(live, "- names: ");
    let ghost want = text::texts(wanted@);
    let ghost all = text::split_at_text(live@, "- names: "@);
    let ghost blocks = all.skip(1);
    let mut out: Vec<(String, String)> = Vec::new();
    assert(all == text::texts(parts@));
    assert(readings_say(out@) =~= blocks_reading(blocks.take(0), want));
    let n = parts.len();
    assert(all.len() == n);
    let mut i: usize = 1;
    while i < n
        invariant
            n == parts@.len(),
            all == text::texts(parts@),
            blocks == all.skip(1),
            want == text::texts(wanted@),
            1 <= i,
            n >= 1 ==> i <= n,
            readings_say(out@) == blocks_reading(blocks.take(i - 1), want),
        decreases n - i,
    {
        let ghost before = readings_say(out@);
        proof {
            assert(blocks.take(i as int).drop_last() == blocks.take(i - 1));
            assert(blocks.take(i as int).last() == parts@[i as int]@);
        }
        if let Some(p) = read_block(&parts[i], wanted) {
            let ghost pair = (p.0@, p.1@);
            out.push(p);
            assert(readings_say(out@) =~= before.push(pair));
        }
        i = i + 1;
    }
    proof {
        if n >= 1 {
            assert(blocks.take(i - 1) == blocks);
        } else {
            assert(blocks =~= blocks.take(0));
        }
    }
    out
}

/// The text of a live reading.
///
/// The house hands its state over as a JSON string under `result`, where the
/// line breaks are escaped. Without reading through that, every lookup would
/// find nothing — which looks exactly like "no evidence".
pub fn live_dump(readback: &str) -> (r: String)
    ensures
        r@ == live_text(json::json_value(readback@), readback@),
{
    match Json::parse(readback) {
        Some(v) => match v.get_text("result") {
            Some(t) => own(t),
            None => own(readback),
        },
        None => own(readback),
    }
}

/// Whether the states read are all the wanted one.
pub fn judge_states(want: &str, states: &Vec<(String, String)>) -> (r: Option<Verdict>)
    ensures
        r == judged(want@, readings_say(states@)),
{
    let ghost all = readings_say(states@);
    if states.len() == 0 {
        return None;
    }
    for i in 0..states.len()
        invariant
            all == readings_say(states@),
            states@.len() > 0,
            forall|k: int| 0 <= k < i ==> (#[trigger] all[k]).1 == want@,
    {
        assert(all[i as int].1 == states@[i as int].1@);
        if !same(&states[i].1, want) {
            return Some(Verdict::Contradicted);
        }
    }
    Some(Verdict::Confirmed)
}

impl Vendor for HomeAssistant {
    fn id(&self) -> (r: &'static str)
        ensures
            r@ == "home-assistant"@,
    {
        "home-assistant"
    }

    /// Every intent result carries a `response_type`, and the ones worth
    /// judging carry a `data` object listing what was and was not touched.
    fn recognises(&self, result: &Json) -> (r: bool)
        ensures
            r == is_intent_result(result@),
    {
        if result.get("response_type").is_none() {
            return false;
        }
        match result.get("data") {
            Some(d) => d.get("success").is_some() || d.get("failed").is_some(),
            None => false,
        }
    }

    /// Home Assistant reports per-target outcomes inside an otherwise
    /// successful result: `{"data": {"success": [...], "failed": [...]}}`.
    ///
    /// Deliberately one-sided: a payload without these fields yields `None`
    /// rather than a verdict. Guessing the other way would report working
    /// commands as broken.
    fn admission(&self, result: &str) -> (r: Option<Admission>)
        ensures
            opt_admission(r) == (match json::json_value(result@) {
                Some(v) => admitted_by(v),
                None => None,
            }),
    {
        match Json::parse(result) {
            Some(v) => admitted(&v),
            None => None,
        }
    }

    fn checks(&self, tool: &str) -> (r: bool)
        ensures
            r == (desired(tool@) is Some),
    {
        desired_state(tool).is_some()
    }

    /// The same two intents, and for the same reason: they name a state the
    /// world should end in rather than a change to make, so asking twice is
    /// asking once.
    fn repeatable(&self, tool: &str) -> (r: bool)
        ensures
            r == (desired(tool@) is Some),
    {
        desired_state(tool).is_some()
    }

    /// Every device the server said it switched must actually be in the
    /// asked-for state. One lamp left behind is a half-done command.
    fn confirms(&self, call: &ToolCall, result: &str, readback: &str) -> (r: Option<Verdict>)
        ensures
            r == confirmed_by(
                call@.name,
                json::json_value(result@),
                live_text(json::json_value(readback@), readback@),
            ),
    {
        let want = match desired_state(&call.name) {
            Some(w) => w,
            None => {
                return None;
            },
        };
        let touched = match Json::parse(result) {
            Some(v) => claimed_entities(&v),
            None => {
                return None;
            },
        };
        assert(text::texts(touched@).len() == touched@.len());
        if touched.len() == 0 {
            return None;
        }
        let live = live_dump(readback);
        let states = observed_in(&live, &touched);
        judge_states(want, &states)
    }

    /// Read off the same two lists [`Self::admission`] judges, one entry at a
    /// time instead of one verdict for the lot.
    fn targets(&self, result: &str) -> (r: Vec<Target>)
        ensures
            targets_say(r@) == (match json::json_value(result@) {
                Some(v) => reached_by(v),
                None => Seq::empty(),
            }),
    {
        match Json::parse(result) {
            Some(v) => reached(&v),
            None => {
                let none: Vec<Target> = Vec::new();
                assert(targets_say(none@) =~= Seq::empty());
                none
            },
        }
    }

    fn readings(&self, readback: &str, names: &Vec<String>) -> (r: Vec<(String, String)>)
        ensures
            readings_say(r@) == observed(
                live_text(json::json_value(readback@), readback@),
                text::texts(names@),
            ),
    {
        let live = live_dump(readback);
        observed_in(&live, names)
    }

    /// The words Home Assistant uses across its whole intent interface. They
    /// are part of its public interface, so they cannot change without breaking
    /// every other client too.
    fn slot_fields(&self) -> (r: SlotFields)
        ensures
            r@ == house_fields(),
    {
        SlotFields {
            place: Some("area"),
            wider_place: Some("floor"),
            device: Some("name"),
            kind: Some("domain"),
        }
    }

    /// Recognised by the intent-name prefix every one of its tools carries.
    fn recognises_catalogue(&self, tools: &Vec<&str>) -> (r: bool)
        ensures
            r == is_house_catalogue(text::texts(tools@)),
    {
        let ghost all = text::texts(tools@);
        for i in 0..tools.len()
            invariant
                all == text::texts(tools@),
                forall|k: int| 0 <= k < i ==> !text::begins_with(#[trigger] all[k], "Hass"@),
        {
            assert(all[i as int] == tools@[i as int]@);
            if starts(tools[i], "Hass") {
                return true;
            }
        }
        false
    }
}

/// The argument names Home Assistant uses.
pub open spec fn house_fields() -> SlotFieldsV {
    SlotFieldsV {
        place: Some("area"@),
        wider_place: Some("floor"@),
        device: Some("name"@),
        kind: Some("domain"@),
    }
}

/// Whether one of the tools is one of Home Assistant's.
pub open spec fn is_house_catalogue(tools: Seq<Seq<char>>) -> bool {
    exists|i: int| 0 <= i < tools.len() && text::begins_with(#[trigger] tools[i], "Hass"@)
}

// ---------------------------------------------------------------------------
// Choosing
// ---------------------------------------------------------------------------

/// Whichever software a server runs.
#[derive(Debug, Clone, Copy, PartialEq, Eq, Structural)]
pub enum Family {
    HomeAssistant,
    Unknown,
}

/// The family a result belongs to.
pub open spec fn family_of(result: Option<JsonV>) -> Family {
    match result {
        Some(v) => if is_intent_result(v) {
            Family::HomeAssistant
        } else {
            Family::Unknown
        },
        None => Family::Unknown,
    }
}

/// The family a catalogue of tools belongs to.
pub open spec fn family_offering(tools: Seq<Seq<char>>) -> Family {
    if is_house_catalogue(tools) {
        Family::HomeAssistant
    } else {
        Family::Unknown
    }
}

/// The fields a family of servers has.
pub open spec fn fields_of(f: Family) -> SlotFieldsV {
    match f {
        Family::HomeAssistant => house_fields(),
        Family::Unknown => no_fields(),
    }
}

/// What a result of a family admits.
pub open spec fn family_admits(f: Family, result: Option<JsonV>) -> Option<AdmissionV> {
    match (f, result) {
        (Family::HomeAssistant, Some(v)) => admitted_by(v),
        _ => None,
    }
}

/// The devices a result of a family names.
pub open spec fn family_reaches(f: Family, result: Option<JsonV>) -> Seq<TargetV> {
    match (f, result) {
        (Family::HomeAssistant, Some(v)) => reached_by(v),
        _ => Seq::empty(),
    }
}

/// Whether a family of servers may be asked for a tool twice.
pub open spec fn family_repeats(f: Family, tool: Seq<char>) -> bool {
    f == Family::HomeAssistant && desired(tool) is Some
}

/// Whether the world is as a tool of a family asked.
pub open spec fn family_confirms(
    f: Family,
    tool: Seq<char>,
    result: Option<JsonV>,
    live: Seq<char>,
) -> Option<Verdict> {
    match f {
        Family::HomeAssistant => confirmed_by(tool, result, live),
        Family::Unknown => None,
    }
}

/// What a reading says of devices of a family.
pub open spec fn family_reads(f: Family, live: Seq<char>, names: Seq<Seq<char>>) -> Seq<
    (Seq<char>, Seq<char>),
> {
    match f {
        Family::HomeAssistant => observed(live, names),
        Family::Unknown => Seq::empty(),
    }
}

impl Vendor for Family {
    fn id(&self) -> (r: &'static str)
        ensures
            r@ == (match self {
                Family::HomeAssistant => "home-assistant"@,
                Family::Unknown => "unknown"@,
            }),
    {
        match self {
            Family::HomeAssistant => HomeAssistant.id(),
            Family::Unknown => Unknown.id(),
        }
    }

    fn recognises(&self, result: &Json) -> (r: bool)
        ensures
            r == (*self == Family::HomeAssistant && is_intent_result(result@)),
    {
        match self {
            Family::HomeAssistant => HomeAssistant.recognises(result),
            Family::Unknown => Unknown.recognises(result),
        }
    }

    fn admission(&self, result: &str) -> (r: Option<Admission>)
        ensures
            opt_admission(r) == family_admits(*self, json::json_value(result@)),
    {
        match self {
            Family::HomeAssistant => HomeAssistant.admission(result),
            Family::Unknown => Unknown.admission(result),
        }
    }

    fn checks(&self, tool: &str) -> (r: bool)
        ensures
            r == (*self == Family::HomeAssistant && desired(tool@) is Some),
    {
        match self {
            Family::HomeAssistant => HomeAssistant.checks(tool),
            Family::Unknown => Unknown.checks(tool),
        }
    }

    fn repeatable(&self, tool: &str) -> (r: bool)
        ensures
            r == family_repeats(*self, tool@),
    {
        match self {
            Family::HomeAssistant => HomeAssistant.repeatable(tool),
            Family::Unknown => Unknown.repeatable(tool),
        }
    }

    fn confirms(&self, call: &ToolCall, result: &str, readback: &str) -> (r: Option<Verdict>)
        ensures
            r == family_confirms(
                *self,
                call@.name,
                json::json_value(result@),
                live_text(json::json_value(readback@), readback@),
            ),
    {
        match self {
            Family::HomeAssistant => HomeAssistant.confirms(call, result, readback),
            Family::Unknown => Unknown.confirms(call, result, readback),
        }
    }

    fn targets(&self, result: &str) -> (r: Vec<Target>)
        ensures
            targets_say(r@) == family_reaches(*self, json::json_value(result@)),
    {
        match self {
            Family::HomeAssistant => HomeAssistant.targets(result),
            Family::Unknown => {
                let none = Unknown.targets(result);
                assert(targets_say(none@) =~= Seq::empty());
                none
            },
        }
    }

    fn readings(&self, readback: &str, names: &Vec<String>) -> (r: Vec<(String, String)>)
        ensures
            readings_say(r@) == family_reads(
                *self,
                live_text(json::json_value(readback@), readback@),
                text::texts(names@),
            ),
    {
        match self {
            Family::HomeAssistant => HomeAssistant.readings(readback, names),
            Family::Unknown => {
                let none = Unknown.readings(readback, names);
                assert(readings_say(none@) =~= Seq::empty());
                none
            },
        }
    }

    fn slot_fields(&self) -> (r: SlotFields)
        ensures
            r@ == fields_of(*self),
    {
        match self {
            Family::HomeAssistant => HomeAssistant.slot_fields(),
            Family::Unknown => Unknown.slot_fields(),
        }
    }

    fn recognises_catalogue(&self, tools: &Vec<&str>) -> (r: bool)
        ensures
            r == (*self == Family::HomeAssistant && is_house_catalogue(text::texts(tools@))),
    {
        match self {
            Family::HomeAssistant => HomeAssistant.recognises_catalogue(tools),
            Family::Unknown => Unknown.recognises_catalogue(tools),
        }
    }
}

/// Pick the family for whichever software produced a parsed result.
pub fn for_value(result: &Json) -> (r: Family)
    ensures
        r == family_of(Some(result@)),
{
    if HomeAssistant.recognises(result) {
        Family::HomeAssistant
    } else {
        Family::Unknown
    }
}

/// Pick the family for whichever software produced a result.
///
/// Recognition is by the shape of the answer rather than by a name the server
/// gave us earlier: it needs nothing remembered, and a server that declines to
/// name itself is still understood. Falls back to [`Family::Unknown`], which
/// claims nothing.
pub fn for_result(result: &str) -> (r: Family)
    ensures
        r == family_of(json::json_value(result@)),
{
    match Json::parse(result) {
        Some(v) => for_value(&v),
        None => Family::Unknown,
    }
}

/// Pick the family for a server we only know by the tools it offers.
///
/// Needed where nothing has run yet, so there is no result to go on. Falls back
/// to [`Family::Unknown`], which claims no field names.
pub fn for_catalogue(tools: &Vec<&str>) -> (r: Family)
    ensures
        r == family_offering(text::texts(tools@)),
{
    if HomeAssistant.recognises_catalogue(tools) {
        Family::HomeAssistant
    } else {
        Family::Unknown
    }
}

// ---------------------------------------------------------------------------
// Laws
// ---------------------------------------------------------------------------

/// A server we do not know claims nothing: no admission, no devices, no second
/// attempt, no verdict, no readings and no field names.
pub proof fn law_unknown_claims_nothing(
    tool: Seq<char>,
    result: Option<JsonV>,
    live: Seq<char>,
    names: Seq<Seq<char>>,
)
    ensures
        family_admits(Family::Unknown, result) is None,
        family_reaches(Family::Unknown, result).len() == 0,
        !family_repeats(Family::Unknown, tool),
        family_confirms(Family::Unknown, tool, result, live) is None,
        family_reads(Family::Unknown, live, names).len() == 0,
        fields_of(Family::Unknown) == no_fields(),
{
}

/// What a result that lists its targets admits is one of three things, decided
/// by two questions: whether a device is among the successes, and whether one is
/// among the failures. That a failed device goes unnamed makes it no success.
pub proof fn law_admission_is_one_of_three(v: JsonV)
    requires
        json::list_field(data_of(v), "success"@) is Some || json::list_field(
            data_of(v),
            "failed"@,
        ) is Some,
    ensures
        ({
            let success = json::list_field(data_of(v), "success"@);
            let touched = success is Some && holds_device(success->0);
            let failed = json::list_field(data_of(v), "failed"@);
            let missed = failed is Some && holds_device(failed->0);
            let names = names_under(data_of(v), "failed"@);
            &&& admitted_by(v) == Some(AdmissionV::NothingWorked) <==> !touched
            &&& admitted_by(v) == Some(AdmissionV::Worked) <==> touched && !missed
            &&& admitted_by(v) == Some(AdmissionV::PartlyWorked { failed: names }) <==> touched
                && missed
        }),
{
}

/// An area on its own is not a device that was switched: a result whose every
/// success is an area admits that nothing worked.
pub proof fn law_an_area_alone_is_nothing(v: JsonV, success: Seq<JsonV>)
    requires
        json::list_field(data_of(v), "success"@) == Some(success),
        forall|i: int|
            0 <= i < success.len() ==> json::text_field(#[trigger] success[i], "type"@) == Some(
                "area"@,
            ),
    ensures
        admitted_by(v) == Some(AdmissionV::NothingWorked),
        claimed_by(v).len() == 0,
{
    assert(!holds_device(success)) by {
        assert forall|i: int| 0 <= i < success.len() implies !is_device(#[trigger] success[i]) by {}
    }
    lemma_no_device_no_name(success);
}

proof fn lemma_no_device_no_name(list: Seq<JsonV>)
    requires
        forall|i: int| 0 <= i < list.len() ==> !is_device(#[trigger] list[i]),
    ensures
        device_names(list).len() == 0,
    decreases list.len(),
{
    if list.len() > 0 {
        assert forall|i: int| 0 <= i < list.drop_last().len() implies !is_device(
            #[trigger] list.drop_last()[i],
        ) by {
            assert(list.drop_last()[i] == list[i]);
        }
        lemma_no_device_no_name(list.drop_last());
        assert(!is_device(list[list.len() - 1]));
    }
}

/// Only a command that names an end state may be asked for twice.
pub proof fn law_only_end_states_repeat(f: Family, tool: Seq<char>)
    ensures
        family_repeats(f, tool) ==> tool == "HassTurnOn"@ || tool == "HassTurnOff"@,
{
}

/// A command is confirmed only where the home was read, spoke of a device the
/// server claimed, and every state it gave is the one asked for.
pub proof fn law_confirmed_means_read_back(tool: Seq<char>, result: JsonV, live: Seq<char>)
    requires
        confirmed_by(tool, Some(result), live) == Some(Verdict::Confirmed),
    ensures
        desired(tool) is Some,
        claimed_by(result).len() > 0,
        observed(live, claimed_by(result)).len() > 0,
        forall|i: int|
            0 <= i < observed(live, claimed_by(result)).len() ==> (#[trigger] observed(
                live,
                claimed_by(result),
            )[i]).1 == desired(tool)->0,
{
}

/// A reading speaks only of devices that were asked about, and never of one
/// that is offline.
pub proof fn law_readings_are_evidence(blocks: Seq<Seq<char>>, wanted: Seq<Seq<char>>, i: int)
    requires
        0 <= i < blocks_reading(blocks, wanted).len(),
    ensures
        wanted.contains(blocks_reading(blocks, wanted)[i].0),
        blocks_reading(blocks, wanted)[i].1 != "unavailable"@,
        blocks_reading(blocks, wanted)[i].1 != "unknown"@,
    decreases blocks.len(),
{
    if i < blocks_reading(blocks.drop_last(), wanted).len() {
        law_readings_are_evidence(blocks.drop_last(), wanted, i);
    }
}

/// What happens to a device nobody asked about changes nothing: a block that is
/// not of a wanted device may be put anywhere in a reading, and the reading says
/// the same.
pub proof fn law_drift_elsewhere_is_no_evidence(
    before: Seq<Seq<char>>,
    block: Seq<char>,
    after: Seq<Seq<char>>,
    wanted: Seq<Seq<char>>,
)
    requires
        !wanted.contains(block_parts(block).0),
    ensures
        blocks_reading(before + seq![block] + after, wanted) == blocks_reading(
            before + after,
            wanted,
        ),
    decreases after.len(),
{
    let with = before + seq![block] + after;
    let without = before + after;
    if after.len() == 0 {
        assert(with.drop_last() == before);
        assert(without == before);
    } else {
        law_drift_elsewhere_is_no_evidence(before, block, after.drop_last(), wanted);
        assert(with.drop_last() == before + seq![block] + after.drop_last());
        assert(without.drop_last() == before + after.drop_last());
    }
}

/// Every entry of a list that is not an area and has a text under `name` is
/// named, and nothing else is.
pub proof fn law_every_device_is_named(list: Seq<JsonV>, n: Seq<char>)
    ensures
        device_names(list).contains(n) <==> exists|i: int|
            0 <= i < list.len() && json::text_field(#[trigger] list[i], "type"@) != Some("area"@)
                && json::text_field(list[i], "name"@) == Some(n),
    decreases list.len(),
{
    if list.len() > 0 {
        let init = list.drop_last();
        law_every_device_is_named(init, n);
        let before = device_names(init);
        let after = device_names(list);
        if before.contains(n) {
            let k = choose|k: int| 0 <= k < before.len() && before[k] == n;
            assert(after[k] == n);
            let i = choose|i: int|
                0 <= i < init.len() && json::text_field(#[trigger] init[i], "type"@) != Some(
                    "area"@,
                ) && json::text_field(init[i], "name"@) == Some(n);
            assert(init[i] == list[i]);
        }
        if after.contains(n) && !before.contains(n) {
            let k = choose|k: int| 0 <= k < after.len() && after[k] == n;
            if k < before.len() {
                assert(before[k] == n);
            }
            assert(list[list.len() - 1] == list.last());
        }
        assert forall|i: int|
            0 <= i < list.len() && json::text_field(#[trigger] list[i], "type"@) != Some("area"@)
                && json::text_field(list[i], "name"@) == Some(n) implies after.contains(n) by {
            if i < init.len() {
                assert(init[i] == list[i]);
            } else {
                assert(after[after.len() - 1] == n);
            }
        }
    }
}

/// The names come in the order of the list: those of two lists put together are
/// those of the one, then those of the other.
pub proof fn law_names_come_in_order(a: Seq<JsonV>, b: Seq<JsonV>)
    ensures
        device_names(a + b) == device_names(a) + device_names(b),
        a.len() == 1 ==> device_names(a).len() <= 1,
    decreases b.len(),
{
    if b.len() == 0 {
        assert(a + b == a);
        assert(device_names(a) + device_names(b) == device_names(a));
    } else {
        law_names_come_in_order(a, b.drop_last());
        assert((a + b).drop_last() == a + b.drop_last());
        assert((a + b).last() == b.last());
    }
    if a.len() == 1 {
        assert(a.drop_last().len() == 0);
        assert(device_names(a.drop_last()).len() == 0);
    }
}

/// The devices of a result are accounted for: each one among the successes that
/// has a name is claimed and reached as one that landed, each one among the
/// failures that has a name is reached as one that did not land, and is among
/// those an admission of a partial failure names.
pub proof fn law_each_device_is_accounted_for(
    v: JsonV,
    success: Seq<JsonV>,
    failed: Seq<JsonV>,
    i: int,
    n: Seq<char>,
)
    requires
        json::field(v, "data"@) is Some,
        json::list_field(json::field(v, "data"@)->0, "success"@) == Some(success),
        json::list_field(json::field(v, "data"@)->0, "failed"@) == Some(failed),
    ensures
        0 <= i < success.len() && json::text_field(success[i], "type"@) != Some("area"@)
            && json::text_field(success[i], "name"@) == Some(n) ==> claimed_by(v).contains(n)
            && reached_by(v).contains(TargetV { name: n, landed: true }),
        0 <= i < failed.len() && json::text_field(failed[i], "type"@) != Some("area"@)
            && json::text_field(failed[i], "name"@) == Some(n) ==> reached_by(v).contains(
            TargetV { name: n, landed: false },
        ) && (admitted_by(v) matches Some(AdmissionV::PartlyWorked { failed: missed })
            ==> missed.contains(n)),
{
    law_every_device_is_named(success, n);
    law_every_device_is_named(failed, n);
    let good = device_names(success);
    let bad = device_names(failed);
    let all = reached_by(v);
    if good.contains(n) {
        let k = choose|k: int| 0 <= k < good.len() && good[k] == n;
        assert(all[k] == (TargetV { name: n, landed: true }));
    }
    if bad.contains(n) {
        let k = choose|k: int| 0 <= k < bad.len() && bad[k] == n;
        assert(all[good.len() + k] == (TargetV { name: n, landed: false }));
    }
}

/// What is reached is in the lists: a device is told to have landed only where
/// the successes hold it, and to have been missed only where the failures do.
pub proof fn law_nobody_else_is_reached(
    v: JsonV,
    t: TargetV,
    data: JsonV,
    success: Seq<JsonV>,
    failed: Seq<JsonV>,
)
    requires
        reached_by(v).contains(t),
        json::field(v, "data"@) == Some(data) || json::field(v, "data"@) is None && data == v,
        json::list_field(data, "success"@) == Some(success) || json::list_field(data, "success"@)
            is None && success.len() == 0,
        json::list_field(data, "failed"@) == Some(failed) || json::list_field(data, "failed"@)
            is None && failed.len() == 0,
    ensures
        t.landed ==> exists|i: int|
            0 <= i < success.len() && json::text_field(#[trigger] success[i], "type"@) != Some(
                "area"@,
            ) && json::text_field(success[i], "name"@) == Some(t.name),
        !t.landed ==> exists|i: int|
            0 <= i < failed.len() && json::text_field(#[trigger] failed[i], "type"@) != Some(
                "area"@,
            ) && json::text_field(failed[i], "name"@) == Some(t.name),
{
    let good = names_under(data_of(v), "success"@);
    let bad = names_under(data_of(v), "failed"@);
    let all = reached_by(v);
    let k = choose|k: int| 0 <= k < all.len() && all[k] == t;
    law_every_device_is_named(success, t.name);
    law_every_device_is_named(failed, t.name);
    if k < good.len() {
        assert(good[k] == t.name);
        assert(good.contains(t.name));
    } else {
        assert(bad[k - good.len()] == t.name);
        assert(bad.contains(t.name));
    }
}

/// What a result admits follows from what its two lists hold besides areas:
/// nothing worked where no success is a device, all worked where one is and no
/// failure is a device, and it partly worked where both lists hold one. A result
/// without either list admits nothing.
pub proof fn law_admission_counts_devices(
    v: JsonV,
    data: JsonV,
    success: Seq<JsonV>,
    failed: Seq<JsonV>,
)
    requires
        json::field(v, "data"@) == Some(data) || json::field(v, "data"@) is None && data == v,
        json::list_field(data, "success"@) == Some(success) || json::list_field(data, "success"@)
            is None && success.len() == 0,
        json::list_field(data, "failed"@) == Some(failed) || json::list_field(data, "failed"@)
            is None && failed.len() == 0,
    ensures
        ({
            let listed = json::list_field(data, "success"@) is Some || json::list_field(
                data,
                "failed"@,
            ) is Some;
            let touched = exists|i: int|
                0 <= i < success.len() && json::text_field(#[trigger] success[i], "type"@) != Some(
                    "area"@,
                );
            let missed = exists|i: int|
                0 <= i < failed.len() && json::text_field(#[trigger] failed[i], "type"@) != Some(
                    "area"@,
                );
            &&& admitted_by(v) is None <==> !listed
            &&& admitted_by(v) == Some(AdmissionV::NothingWorked) <==> listed && !touched
            &&& admitted_by(v) == Some(AdmissionV::Worked) <==> touched && !missed
            &&& (admitted_by(v) is Some && admitted_by(v)->0 is PartlyWorked) <==> touched && missed
        }),
{
    lemma_holds_device(success);
    lemma_holds_device(failed);
}

proof fn lemma_holds_device(list: Seq<JsonV>)
    ensures
        holds_device(list) <==> exists|i: int|
            0 <= i < list.len() && json::text_field(#[trigger] list[i], "type"@) != Some("area"@),
{
    if holds_device(list) {
        let i = choose|i: int| 0 <= i < list.len() && is_device(#[trigger] list[i]);
        assert(json::text_field(list[i], "type"@) != Some("area"@));
    }
    assert forall|i: int|
        0 <= i < list.len() && json::text_field(#[trigger] list[i], "type"@) != Some(
            "area"@,
        ) implies holds_device(list) by {
        assert(is_device(list[i]));
    }
}

/// A block of a reading starts with its device's name, which ends with the line.
/// The first line below it that starts with `state:`, blanks aside, gives the
/// state, without blanks and apostrophes round it; a block of a device that was
/// not asked about, that gives no state, or whose device is offline, is no
/// reading.
pub proof fn law_a_block_is_read(
    name: Seq<char>,
    rest: Seq<char>,
    j: int,
    state: Seq<char>,
    wanted: Seq<Seq<char>>,
)
    requires
        forall|i: int| 0 <= i < name.len() ==> #[trigger] name[i] != '\n',
        0 <= j < text::pieces(rest, Kind::Newline).len(),
        text::after_prefix(text::trimmed(text::pieces(rest, Kind::Newline)[j]), "state:"@) == Some(
            state,
        ),
        forall|i: int|
            0 <= i < j ==> text::after_prefix(
                text::trimmed(#[trigger] text::pieces(rest, Kind::Newline)[i]),
                "state:"@,
            ) is None,
    ensures
        ({
            let read = text::stripped(text::trimmed(state), Kind::Apostrophe);
            let known = read != "unavailable"@ && read != "unknown"@;
            block_reading(name + seq!['\n'] + rest, wanted) == (if wanted.contains(
                text::trimmed(name),
            ) && known {
                Some((text::trimmed(name), read))
            } else {
                None
            })
        }),
{
    let block = name + seq!['\n'] + rest;
    assert forall|i: int| 0 <= i < name.len() implies !text::of_kind(
        Kind::Newline,
        #[trigger] block[i],
    ) by {
        assert(block[i] == name[i]);
    }
    assert(block[name.len() as int] == '\n');
    text::lemma_first_of(block, Kind::Newline, name.len() as int);
    assert(block.take(name.len() as int) == name);
    assert(block.skip(name.len() as int + 1) == rest);
    lemma_state_in(text::pieces(rest, Kind::Newline), j);
}

proof fn lemma_state_in(lines: Seq<Seq<char>>, j: int)
    requires
        0 <= j < lines.len(),
        text::after_prefix(text::trimmed(lines[j]), "state:"@) is Some,
        forall|i: int|
            0 <= i < j ==> text::after_prefix(text::trimmed(#[trigger] lines[i]), "state:"@)
                is None,
    ensures
        state_in(lines) == Some(
            text::stripped(
                text::trimmed(text::after_prefix(text::trimmed(lines[j]), "state:"@)->0),
                Kind::Apostrophe,
            ),
        ),
    decreases lines.len(),
{
    if j > 0 {
        let t = lines.drop_first();
        assert(text::after_prefix(text::trimmed(lines[0]), "state:"@) is None);
        assert forall|i: int| 0 <= i < j - 1 implies text::after_prefix(
            text::trimmed(#[trigger] t[i]),
            "state:"@,
        ) is None by {
            assert(t[i] == lines[i + 1]);
        }
        lemma_state_in(t, j - 1);
    }
}

/// Every block that can be read is read, and no reading comes from nowhere.
pub proof fn law_every_block_is_read(
    blocks: Seq<Seq<char>>,
    wanted: Seq<Seq<char>>,
    p: (Seq<char>, Seq<char>),
)
    ensures
        blocks_reading(blocks, wanted).contains(p) <==> exists|i: int|
            0 <= i < blocks.len() && block_reading(#[trigger] blocks[i], wanted) == Some(p),
    decreases blocks.len(),
{
    if blocks.len() > 0 {
        let init = blocks.drop_last();
        law_every_block_is_read(init, wanted, p);
        let before = blocks_reading(init, wanted);
        let after = blocks_reading(blocks, wanted);
        if before.contains(p) {
            let k = choose|k: int| 0 <= k < before.len() && before[k] == p;
            assert(after[k] == p);
            let i = choose|i: int|
                0 <= i < init.len() && block_reading(#[trigger] init[i], wanted) == Some(p);
            assert(init[i] == blocks[i]);
        }
        if after.contains(p) && !before.contains(p) {
            let k = choose|k: int| 0 <= k < after.len() && after[k] == p;
            if k < before.len() {
                assert(before[k] == p);
            }
            assert(blocks[blocks.len() - 1] == blocks.last());
        }
        assert forall|i: int|
            0 <= i < blocks.len() && block_reading(#[trigger] blocks[i], wanted) == Some(
                p,
            ) implies after.contains(p) by {
            if i < init.len() {
                assert(init[i] == blocks[i]);
            } else {
                assert(after[after.len() - 1] == p);
            }
        }
    }
}

/// A device that was claimed and reads otherwise is never confirmed: wherever in
/// the reading its block stands, the command is contradicted.
pub proof fn law_one_device_astray_contradicts(
    tool: Seq<char>,
    result: JsonV,
    live: Seq<char>,
    i: int,
    n: Seq<char>,
    state: Seq<char>,
)
    requires
        tool == "HassTurnOn"@ || tool == "HassTurnOff"@,
        1 <= i < text::split_at_text(live, "- names: "@).len(),
        claimed_by(result).contains(n),
        block_reading(text::split_at_text(live, "- names: "@)[i], seq![n]) == Some((n, state)),
        tool == "HassTurnOn"@ ==> state != "on"@,
        tool == "HassTurnOff"@ ==> state != "off"@,
    ensures
        confirmed_by(tool, Some(result), live) == Some(Verdict::Contradicted),
{
    reveal_strlit("HassTurnOn");
    reveal_strlit("HassTurnOff");
    assert("HassTurnOn"@.len() != "HassTurnOff"@.len());
    let parts = text::split_at_text(live, "- names: "@);
    let blocks = parts.skip(1);
    let wanted = claimed_by(result);
    assert(blocks[i - 1] == parts[i]);
    assert(block_reading(blocks[i - 1], wanted) == Some((n, state)));
    law_every_block_is_read(blocks, wanted, (n, state));
    let states = observed(live, wanted);
    assert(states.contains((n, state)));
    let k = choose|k: int| 0 <= k < states.len() && states[k] == (n, state);
    assert(states[k].1 == state);
}

/// A command is confirmed where a block of the reading is of a claimed device,
/// and every such block that gives a state gives the one asked for. Where no
/// block is, nothing is said either way.
pub proof fn law_agreement_confirms(
    tool: Seq<char>,
    result: JsonV,
    live: Seq<char>,
    want: Seq<char>,
)
    requires
        tool == "HassTurnOn"@ && want == "on"@ || tool == "HassTurnOff"@ && want == "off"@,
        forall|i: int|
            1 <= i < text::split_at_text(live, "- names: "@).len() ==> (block_reading(
                #[trigger] text::split_at_text(live, "- names: "@)[i],
                claimed_by(result),
            ) matches Some(p) ==> p.1 == want),
    ensures
        confirmed_by(tool, Some(result), live) == (if exists|i: int|
            1 <= i < text::split_at_text(live, "- names: "@).len() && block_reading(
                #[trigger] text::split_at_text(live, "- names: "@)[i],
                claimed_by(result),
            ) is Some {
            Some(Verdict::Confirmed)
        } else {
            None
        }),
{
    reveal_strlit("HassTurnOn");
    reveal_strlit("HassTurnOff");
    assert("HassTurnOn"@.len() != "HassTurnOff"@.len());
    let parts = text::split_at_text(live, "- names: "@);
    let blocks = parts.skip(1);
    let wanted = claimed_by(result);
    let states = observed(live, wanted);
    assert forall|k: int| 0 <= k < states.len() implies (#[trigger] states[k]).1 == want by {
        assert(states.contains(states[k]));
        law_every_block_is_read(blocks, wanted, states[k]);
        let i = choose|i: int|
            0 <= i < blocks.len() && block_reading(#[trigger] blocks[i], wanted) == Some(states[k]);
        assert(blocks[i] == parts[i + 1]);
    }
    if states.len() > 0 {
        assert(states.contains(states[0]));
        law_every_block_is_read(blocks, wanted, states[0]);
        let i = choose|i: int|
            0 <= i < blocks.len() && block_reading(#[trigger] blocks[i], wanted) == Some(states[0]);
        assert(blocks[i] == parts[i + 1]);
        assert(wanted.contains(block_parts(blocks[i]).0));
        assert(wanted.len() > 0);
    }
    assert forall|i: int|
        1 <= i < parts.len() && block_reading(#[trigger] parts[i], wanted) is Some implies
        states.len() > 0 by {
        let p = block_reading(parts[i], wanted)->0;
        assert(blocks[i - 1] == parts[i]);
        law_every_block_is_read(blocks, wanted, p);
        assert(states.contains(p));
    }
}

/// A server is known by what it offers and by what it answers: one that offers a
/// tool whose name starts with `Hass`, and one whose answer has a response type
/// and, under its data, successes or failures.
pub proof fn law_a_server_is_known_by_its_shape(tools: Seq<Seq<char>>, v: JsonV)
    ensures
        family_offering(tools) == Family::HomeAssistant <==> exists|i: int|
            0 <= i < tools.len() && text::begins_with(#[trigger] tools[i], "Hass"@),
        family_of(Some(v)) == Family::HomeAssistant <==> json::field(v, "response_type"@) is Some
            && json::field(v, "data"@) is Some && (json::field(
            json::field(v, "data"@)->0,
            "success"@,
        ) is Some || json::field(json::field(v, "data"@)->0, "failed"@) is Some),
        family_of(None) == Family::Unknown,
{
}

/// A known server's answers are read as such: its two switching commands, and no
/// others, may be asked for again and can be confirmed.
pub proof fn law_switching_may_be_repeated(tool: Seq<char>, v: JsonV, live: Seq<char>)
    ensures
        family_repeats(Family::HomeAssistant, tool) <==> tool == "HassTurnOn"@ || tool
            == "HassTurnOff"@,
        tool != "HassTurnOn"@ && tool != "HassTurnOff"@ ==> family_confirms(
            Family::HomeAssistant,
            tool,
            Some(v),
            live,
        ) is None,
        family_admits(Family::HomeAssistant, Some(v)) == admitted_by(v),
        family_reaches(Family::HomeAssistant, Some(v)) == reached_by(v),
        family_confirms(Family::HomeAssistant, tool, Some(v), live) == confirmed_by(
            tool,
            Some(v),
            live,
        ),
        desired("HassTurnOn"@) == Some("on"@),
        desired("HassTurnOff"@) == Some("off"@),
{
    reveal_strlit("HassTurnOn");
    reveal_strlit("HassTurnOff");
    assert("HassTurnOn"@.len() != "HassTurnOff"@.len());
}

/// The home's state is the text under `result`, where the answer is an object
/// that has one, and the answer itself otherwise.
pub proof fn law_the_reading_is_unwrapped(v: JsonV, t: Seq<char>, raw: Seq<char>)
    ensures
        json::text_field(v, "result"@) == Some(t) ==> live_text(Some(v), raw) == t,
        json::text_field(v, "result"@) is None ==> live_text(Some(v), raw) == raw,
        live_text(None, raw) == raw,
{
}

/// A known server names a place, a wider place, a device and a kind in these
/// fields; an unknown one in none.
pub proof fn law_the_fields_of_a_known_server()
    ensures
        fields_of(Family::HomeAssistant).place == Some("area"@),
        fields_of(Family::HomeAssistant).wider_place == Some("floor"@),
        fields_of(Family::HomeAssistant).device == Some("name"@),
        fields_of(Family::HomeAssistant).kind == Some("domain"@),
        fields_of(Family::Unknown).place is None,
        fields_of(Family::Unknown).wider_place is None,
        fields_of(Family::Unknown).device is None,
        fields_of(Family::Unknown).kind is None,
{
}

/// The devices reached are told in order: those that landed, as the successes
/// have them, and then those that did not, as the failures have them.
pub proof fn law_those_that_landed_come_first(
    v: JsonV,
    success: Seq<JsonV>,
    failed: Seq<JsonV>,
    i: int,
)
    requires
        json::field(v, "data"@) is Some,
        json::list_field(json::field(v, "data"@)->0, "success"@) == Some(success),
        json::list_field(json::field(v, "data"@)->0, "failed"@) == Some(failed),
    ensures
        ({
            let n = device_names(success).len();
            let m = device_names(failed).len();
            &&& reached_by(v).len() == n + m
            &&& 0 <= i < n ==> reached_by(v)[i] == (TargetV {
                name: device_names(success)[i],
                landed: true,
            })
            &&& 0 <= i < m ==> reached_by(v)[n + i] == (TargetV {
                name: device_names(failed)[i],
                landed: false,
            })
        }),
{
}

/// A block that gives no state is no reading, whoever it is of.
pub proof fn law_a_block_without_a_state_is_no_reading(
    name: Seq<char>,
    rest: Seq<char>,
    wanted: Seq<Seq<char>>,
)
    requires
        forall|i: int| 0 <= i < name.len() ==> #[trigger] name[i] != '\n',
        forall|i: int|
            0 <= i < text::pieces(rest, Kind::Newline).len() ==> text::after_prefix(
                text::trimmed(#[trigger] text::pieces(rest, Kind::Newline)[i]),
                "state:"@,
            ) is None,
    ensures
        block_reading(name + seq!['\n'] + rest, wanted) is None,
{
    assert forall|i: int| 0 <= i < name.len() implies !text::of_kind(
        Kind::Newline,
        #[trigger] name[i],
    ) by {
        assert(name[i] != '\n');
    }
    text::law_pieces_are_what_stands_between(name, '\n', rest, Kind::Newline);
    lemma_no_state(text::pieces(rest, Kind::Newline));
}

proof fn lemma_no_state(lines: Seq<Seq<char>>)
    requires
        forall|i: int|
            0 <= i < lines.len() ==> text::after_prefix(
                text::trimmed(#[trigger] lines[i]),
                "state:"@,
            ) is None,
    ensures
        state_in(lines) is None,
    decreases lines.len(),
{
    if lines.len() > 0 {
        let t = lines.drop_first();
        assert(text::after_prefix(text::trimmed(lines[0]), "state:"@) is None);
        assert forall|i: int| 0 <= i < t.len() implies text::after_prefix(
            text::trimmed(#[trigger] t[i]),
            "state:"@,
        ) is None by {
            assert(t[i] == lines[i + 1]);
        }
        lemma_no_state(t);
    }
}

} // verus!
