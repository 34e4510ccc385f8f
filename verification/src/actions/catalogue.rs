//! The user's tool catalogue, turned into something a model can call — and into
//! something a page can show.
//!
//! Everything is assembled once per turn from data that already exists: the
//! servers in the configuration, the rows the user left switched on, and what
//! each house said about itself when it was connected. The page and the prompt
//! come from the same decisions, so the page cannot show something the model was
//! not told.

use vstd::prelude::*;

use super::arguments;
use super::arguments::ANY_KIND;
use super::hint;
use super::hint::{written_hint, HintArm};
use super::ladder;
use super::ladder::{clip, Runnable, RunnableV, VerifyClass};
use super::vendor;
use super::vendor::{for_catalogue, SlotFields, SlotFieldsV, Vendor};
use crate::json;
use crate::json::put;
use crate::order;
use crate::order::place;
use crate::text;
use crate::text::{copy_opt, copy_texts, count_text, has_text, join, own, same};
use crate::value;
use crate::value::{Json, JsonV};

verus! {

broadcast use crate::value::group_json_views;

/// One tool the user left switched on.
#[derive(Debug, Clone)]
pub struct ToolRow {
    pub source: String,
    pub name: String,
    pub description: String,
    pub schema: Json,
    pub verify: VerifyClass,
    pub readback: Option<String>,
}

/// What a [`ToolRow`] says.
pub struct ToolRowV {
    pub source: Seq<char>,
    pub name: Seq<char>,
    pub description: Seq<char>,
    pub schema: JsonV,
    pub verify: VerifyClass,
    pub readback: Option<Seq<char>>,
}

impl View for ToolRow {
    type V = ToolRowV;

    open spec fn view(&self) -> ToolRowV {
        ToolRowV {
            source: self.source@,
            name: self.name@,
            description: self.description@,
            schema: self.schema@,
            verify: self.verify,
            readback: text::opt_text(self.readback),
        }
    }
}

/// What a list of rows says.
pub open spec fn rows_say(v: Seq<ToolRow>) -> Seq<ToolRowV> {
    v.map_values(|r: ToolRow| r@)
}

// ---------------------------------------------------------------------------
// What is offered
// ---------------------------------------------------------------------------

/// What the user configured.
pub struct Configured {
    pub enabled: bool,
    /// The servers that are configured, by name.
    pub servers: Vec<String>,
    /// Whether the model is told the names in this home.
    pub place_names: bool,
}

/// The tools a turn may use.
pub struct ActionTools {
    /// What the model is shown of each tool.
    pub descriptors: Vec<Json>,
    /// What each tool needs to be judged.
    pub tools: Vec<(String, Runnable)>,
    /// What the model is told about this home.
    pub hint: Option<String>,
    /// The rails a local model is held to while it writes a command.
    pub grammar: Option<String>,
}

/// The rows that are offered: those whose server is configured.
pub open spec fn offered_rows(rows: Seq<ToolRowV>, servers: Seq<Seq<char>>) -> Seq<ToolRowV>
    decreases rows.len(),
{
    if rows.len() == 0 {
        Seq::empty()
    } else {
        let before = offered_rows(rows.drop_last(), servers);
        if servers.contains(rows.last().source) {
            before.push(rows.last())
        } else {
            before
        }
    }
}

/// What the model is shown of a tool.
pub open spec fn descriptor_of(r: ToolRowV) -> JsonV {
    JsonV::Object(
        seq![
            (
                "function"@,
                JsonV::Object(
                    seq![
                        ("description"@, JsonV::Text(r.description)),
                        ("name"@, JsonV::Text(r.name)),
                        ("parameters"@, r.schema),
                    ],
                ),
            ),
            ("type"@, JsonV::Text("function"@)),
        ],
    )
}

/// What a tool needs to be judged.
pub open spec fn runnable_of(r: ToolRowV) -> RunnableV {
    RunnableV { verify: r.verify, readback: r.readback, schema: r.schema, source: r.source }
}

/// Whether there is anything to offer.
pub open spec fn has_offer(enabled: bool, servers: Seq<Seq<char>>, rows: Seq<ToolRowV>) -> bool {
    enabled && servers.len() > 0 && offered_rows(rows, servers).len() > 0
}

fn describe(r: &ToolRow) -> (d: Json)
    ensures
        d@ == descriptor_of(r@),
{
    let mut inner: Vec<(String, Json)> = Vec::new();
    put(&mut inner, "description", Json::text(&r.description));
    put(&mut inner, "name", Json::text(&r.name));
    put(&mut inner, "parameters", r.schema.copy());
    assert(value::members(inner@) =~= seq![
        ("description"@, JsonV::Text(r@.description)),
        ("name"@, JsonV::Text(r@.name)),
        ("parameters"@, r@.schema),
    ]);
    let mut outer: Vec<(String, Json)> = Vec::new();
    put(&mut outer, "function", Json::Object(inner));
    put(&mut outer, "type", Json::text("function"));
    assert(value::members(outer@) =~= descriptor_of(r@)->Object_0);
    Json::Object(outer)
}

/// Build the tool set for this turn, or `None` when the user has no tools
/// switched on — in which case the turn stays conversation-only and costs
/// nothing extra.
///
/// `places` and `devices` are the names this home reported, absent where the
/// catalogue could not be read.
pub fn build(
    cfg: &Configured,
    rows: &Vec<ToolRow>,
    places: &Option<Vec<String>>,
    devices: &Option<Vec<String>>,
    arm: HintArm,
) -> (r: Option<ActionTools>)
    ensures
        ({
            let servers = text::texts(cfg.servers@);
            let offered = offered_rows(rows_say(rows@), servers);
            match r {
                None => !has_offer(cfg.enabled, servers, rows_say(rows@)),
                Some(t) => {
                    &&& has_offer(cfg.enabled, servers, rows_say(rows@))
                    &&& value::items(t.descriptors@) == offered.map_values(
                        |x: ToolRowV| descriptor_of(x),
                    )
                    &&& ladder::tools_say(t.tools@) == offered.map_values(
                        |x: ToolRowV| (x.name, runnable_of(x)),
                    )
                    &&& text::opt_text(t.hint) == home_hint(
                        cfg.place_names,
                        hint::opt_names(*places),
                        hint::opt_names(*devices),
                        arm,
                    )
                    &&& t.grammar is None
                },
            }
        }),
{
    let ghost servers = text::texts(cfg.servers@);
    let ghost all = rows_say(rows@);
    let ghost show = |x: ToolRowV| descriptor_of(x);
    let ghost run = |x: ToolRowV| (x.name, runnable_of(x));
    assert(servers.len() == cfg.servers@.len());
    if !cfg.enabled || cfg.servers.len() == 0 {
        return None;
    }
    let mut descriptors: Vec<Json> = Vec::new();
    let mut tools: Vec<(String, Runnable)> = Vec::new();
    assert(value::items(descriptors@) =~= offered_rows(all.take(0), servers).map_values(show));
    assert(ladder::tools_say(tools@) =~= offered_rows(all.take(0), servers).map_values(run));
    for i in 0..rows.len()
        invariant
            all == rows_say(rows@),
            servers == text::texts(cfg.servers@),
            show == (|x: ToolRowV| descriptor_of(x)),
            run == (|x: ToolRowV| (x.name, runnable_of(x))),
            value::items(descriptors@) == offered_rows(all.take(i as int), servers).map_values(
                show,
            ),
            ladder::tools_say(tools@) == offered_rows(all.take(i as int), servers).map_values(run),
    {
        let ghost before = offered_rows(all.take(i as int), servers);
        let ghost seen = value::items(descriptors@);
        let ghost had = ladder::tools_say(tools@);
        proof {
            assert(all.take(i + 1).drop_last() == all.take(i as int));
            assert(all[i as int] == rows@[i as int]@);
        }
        let row = &rows[i];
        if has_text(&cfg.servers, &row.source) {
            descriptors.push(describe(row));
            tools.push(
                (
                    own(&row.name),
                    Runnable {
                        verify: row.verify,
                        readback: copy_opt(&row.readback),
                        schema: row.schema.copy(),
                        source: own(&row.source),
                    },
                ),
            );
            proof {
                assert(value::items(descriptors@) =~= seen.push(descriptor_of(row@)));
                assert(ladder::tools_say(tools@) =~= had.push((row@.name, runnable_of(row@))));
                assert(before.push(row@).map_values(show) =~= before.map_values(show).push(
                    descriptor_of(row@),
                ));
                assert(before.push(row@).map_values(run) =~= before.map_values(run).push(
                    (row@.name, runnable_of(row@)),
                ));
            }
        }
    }
    assert(all.take(all.len() as int) == all);
    assert(value::items(descriptors@).len() == descriptors@.len());
    if descriptors.len() == 0 {
        return None;
    }
    let hint = page_hint(cfg.place_names, places, devices, arm);
    Some(ActionTools { descriptors, tools, hint, grammar: None })
}

/// What the model is told about this home, where it is told anything.
pub open spec fn home_hint(
    place_names: bool,
    places: Option<Seq<Seq<char>>>,
    devices: Option<Seq<Seq<char>>>,
    arm: HintArm,
) -> Option<Seq<char>> {
    match places {
        Some(names) => if place_names {
            hint::hint_said(names, devices, arm)
        } else {
            None
        },
        None => None,
    }
}

fn page_hint(
    place_names: bool,
    places: &Option<Vec<String>>,
    devices: &Option<Vec<String>>,
    arm: HintArm,
) -> (r: Option<String>)
    ensures
        text::opt_text(r) == home_hint(
            place_names,
            hint::opt_names(*places),
            hint::opt_names(*devices),
            arm,
        ),
{
    match places {
        Some(names) => if place_names {
            written_hint(names, devices, arm)
        } else {
            None
        },
        None => None,
    }
}

/// Said to the model when tools exist but the backend cannot reach them.
pub const CANNOT_ACT: &'static str = "You cannot control any devices or run any tools in this conversation. If asked to, say plainly that you are unable to, and do not claim to have done it.";

/// What the user's tools amount to once the chosen backend is taken into
/// account, plus anything extra the model needs told.
///
/// A backend that cannot invoke tools does not fail — it replies fluently,
/// having quietly ignored them. So the tools are withheld and the model is told
/// that it cannot act.
pub fn for_backend(actions: Option<ActionTools>, backend_can_act: bool) -> (r: (
    Option<ActionTools>,
    Option<String>,
))
    ensures
        match actions {
            None => r.0 is None && r.1 is None,
            Some(a) => if backend_can_act {
                r.0 == Some(a) && text::opt_text(r.1) == text::opt_text(a.hint)
            } else {
                r.0 is None && text::opt_text(r.1) == Some(CANNOT_ACT@)
            },
        },
{
    match actions {
        None => (None, None),
        Some(a) => if backend_can_act {
            let hint = copy_opt(&a.hint);
            (Some(a), hint)
        } else {
            (None, Some(own(CANNOT_ACT)))
        },
    }
}

// ---------------------------------------------------------------------------
// Servers
// ---------------------------------------------------------------------------

/// The names of the tools one server offers, in order.
pub open spec fn tools_of(rows: Seq<ToolRowV>, source: Seq<char>) -> Seq<Seq<char>>
    decreases rows.len(),
{
    if rows.len() == 0 {
        Seq::empty()
    } else {
        let before = tools_of(rows.drop_last(), source);
        if rows.last().source == source {
            before.push(rows.last().name)
        } else {
            before
        }
    }
}

/// Whether a row is of a server.
pub open spec fn offers(rows: Seq<ToolRowV>, source: Seq<char>) -> bool {
    exists|i: int| 0 <= i < rows.len() && (#[trigger] rows[i]).source == source
}

/// The servers of some rows, in order and each once.
pub open spec fn lists_servers(names: Seq<Seq<char>>, rows: Seq<ToolRowV>) -> bool {
    &&& order::ascending::<String>(names)
    &&& forall|s: Seq<char>| #[trigger] names.contains(s) <==> offers(rows, s)
}

fn servers_of(rows: &Vec<ToolRow>) -> (r: Vec<String>)
    ensures
        lists_servers(text::texts(r@), rows_say(rows@)),
{
    let ghost all = rows_say(rows@);
    let mut out: Vec<String> = Vec::new();
    assert(order::views(out@) =~= text::texts(out@));
    for i in 0..rows.len()
        invariant
            all == rows_say(rows@),
            order::ascending::<String>(order::views(out@)),
            forall|s: Seq<char>|
                #[trigger] order::views(out@).contains(s) <==> offers(all.take(i as int), s),
    {
        let ghost before = order::views(out@);
        proof {
            assert(all[i as int] == rows@[i as int]@);
        }
        place(&mut out, own(&rows[i].source));
        proof {
            let more = all.take(i + 1);
            let less = all.take(i as int);
            assert forall|s: Seq<char>| #[trigger] order::views(out@).contains(s) <==> offers(
                more,
                s,
            ) by {
                assert(order::views(out@).contains(s) <==> before.contains(s) || s
                    == all[i as int].source);
                assert(before.contains(s) <==> offers(less, s));
                if offers(less, s) {
                    let k = choose|k: int| 0 <= k < less.len() && (#[trigger] less[k]).source == s;
                    assert(more[k] == less[k]);
                }
                if s == all[i as int].source {
                    assert(more[i as int].source == s);
                }
                if offers(more, s) {
                    let k = choose|k: int| 0 <= k < more.len() && (#[trigger] more[k]).source == s;
                    if k < i {
                        assert(less[k] == more[k]);
                    }
                }
            }
        }
    }
    assert(all.take(all.len() as int) == all);
    assert(order::views(out@) =~= text::texts(out@));
    out
}

fn tools_named<'a>(rows: &'a Vec<ToolRow>, source: &str) -> (r: Vec<&'a str>)
    ensures
        text::texts(r@) == tools_of(rows_say(rows@), source@),
{
    let ghost all = rows_say(rows@);
    let mut out: Vec<&'a str> = Vec::new();
    assert(text::texts(out@) =~= tools_of(all.take(0), source@));
    for i in 0..rows.len()
        invariant
            all == rows_say(rows@),
            text::texts(out@) == tools_of(all.take(i as int), source@),
    {
        let ghost before = text::texts(out@);
        proof {
            assert(all.take(i + 1).drop_last() == all.take(i as int));
            assert(all[i as int] == rows@[i as int]@);
        }
        if same(&rows[i].source, source) {
            out.push(rows[i].name.as_str());
            assert(text::texts(out@) =~= before.push(all[i as int].name));
        }
    }
    assert(all.take(all.len() as int) == all);
    out
}

/// The field names of one server, asked of it alone: a tool of one house must
/// not make every server's tools look like that house.
pub open spec fn fields_for(rows: Seq<ToolRowV>, source: Seq<char>) -> SlotFieldsV {
    vendor::fields_of(vendor::family_offering(tools_of(rows, source)))
}

fn fields_at(rows: &Vec<ToolRow>, source: &str) -> (r: SlotFields)
    ensures
        r@ == fields_for(rows_say(rows@), source@),
{
    let names = tools_named(rows, source);
    for_catalogue(&names).slot_fields()
}

/// What one house said about itself when it was connected. Each list is absent
/// where the catalogue could not be read.
pub struct HomeNames {
    pub source: String,
    pub places: Option<Vec<String>>,
    pub devices: Option<Vec<String>>,
    pub kinds: Option<Vec<String>>,
}

/// What a [`HomeNames`] says.
pub struct HomeNamesV {
    pub source: Seq<char>,
    pub places: Option<Seq<Seq<char>>>,
    pub devices: Option<Seq<Seq<char>>>,
    pub kinds: Option<Seq<Seq<char>>>,
}

impl View for HomeNames {
    type V = HomeNamesV;

    open spec fn view(&self) -> HomeNamesV {
        HomeNamesV {
            source: self.source@,
            places: hint::opt_names(self.places),
            devices: hint::opt_names(self.devices),
            kinds: hint::opt_names(self.kinds),
        }
    }
}

/// What a list of houses says.
pub open spec fn homes_say(v: Seq<HomeNames>) -> Seq<HomeNamesV> {
    v.map_values(|h: HomeNames| h@)
}

/// What a server's house said, or nothing where none did.
pub open spec fn home_of(homes: Seq<HomeNamesV>, source: Seq<char>) -> HomeNamesV
    decreases homes.len(),
{
    if homes.len() == 0 {
        HomeNamesV { source, places: None, devices: None, kinds: None }
    } else if homes[0].source == source {
        homes[0]
    } else {
        home_of(homes.drop_first(), source)
    }
}

fn find_home(homes: &Vec<HomeNames>, source: &str) -> (r: Option<usize>)
    ensures
        match r {
            Some(i) => i < homes@.len() && homes@[i as int]@ == home_of(homes_say(homes@), source@),
            None => home_of(homes_say(homes@), source@) == (HomeNamesV {
                source: source@,
                places: None,
                devices: None,
                kinds: None,
            }),
        },
{
    let ghost all = homes_say(homes@);
    assert(all.skip(0) == all);
    for i in 0..homes.len()
        invariant
            all == homes_say(homes@),
            home_of(all, source@) == home_of(all.skip(i as int), source@),
    {
        proof {
            assert(all.skip(i as int).drop_first() == all.skip(i + 1));
            assert(all.skip(i as int)[0] == homes@[i as int]@);
        }
        if same(&homes[i].source, source) {
            return Some(i);
        }
    }
    None
}

// ---------------------------------------------------------------------------
// Rails
// ---------------------------------------------------------------------------

/// The values one field of one server may hold.
#[derive(Debug, Clone)]
pub struct Slot {
    pub field: String,
    pub values: Vec<String>,
}

/// What a [`Slot`] says.
pub struct SlotV {
    pub field: Seq<char>,
    pub values: Seq<Seq<char>>,
}

impl View for Slot {
    type V = SlotV;

    open spec fn view(&self) -> SlotV {
        SlotV { field: self.field@, values: text::texts(self.values@) }
    }
}

/// What one server's tools are held to.
#[derive(Debug, Clone)]
pub struct ServerRails {
    pub source: String,
    pub slots: Vec<Slot>,
    /// The same in words, for the log; empty where nothing is narrowed.
    pub said: String,
}

/// What a [`ServerRails`] says.
pub struct ServerRailsV {
    pub source: Seq<char>,
    pub slots: Seq<SlotV>,
    pub said: Seq<char>,
}

impl View for ServerRails {
    type V = ServerRailsV;

    open spec fn view(&self) -> ServerRailsV {
        ServerRailsV {
            source: self.source@,
            slots: self.slots@.map_values(|s: Slot| s@),
            said: self.said@,
        }
    }
}

/// One slot and its count in words, where the server has the field and the names
/// could be read.
pub open spec fn slot_for(
    field: Option<Seq<char>>,
    names: Option<Seq<Seq<char>>>,
    extra: Seq<Seq<char>>,
    unit: Seq<char>,
) -> Option<(SlotV, Seq<char>)> {
    match (field, names) {
        (Some(f), Some(n)) => Some(
            (SlotV { field: f, values: n + extra }, text::decimal(n.len()) + unit),
        ),
        _ => None,
    }
}

/// A list, one longer where there is something to add.
pub open spec fn with_some<T>(s: Seq<T>, o: Option<T>) -> Seq<T> {
    match o {
        Some(x) => s.push(x),
        None => s,
    }
}

/// The slots of one server: its areas, its devices, and the kinds this house
/// actually contains — with the word for everything beside them, or a required
/// kind would cost the user that sentence entirely.
pub open spec fn slots_for(fields: SlotFieldsV, home: HomeNamesV) -> Seq<(SlotV, Seq<char>)> {
    with_some(
        with_some(
            with_some(
                Seq::empty(),
                slot_for(fields.place, home.places, Seq::empty(), " areas"@),
            ),
            slot_for(fields.device, home.devices, Seq::empty(), " devices"@),
        ),
        slot_for(fields.kind, home.kinds, seq![arguments::any_kind()], " kinds of device"@),
    )
}

/// What one server's tools are held to.
pub open spec fn rails_for(
    rows: Seq<ToolRowV>,
    homes: Seq<HomeNamesV>,
    source: Seq<char>,
) -> ServerRailsV {
    let found = slots_for(fields_for(rows, source), home_of(homes, source));
    ServerRailsV {
        source,
        slots: found.map_values(|p: (SlotV, Seq<char>)| p.0),
        said: if found.len() == 0 {
            Seq::empty()
        } else {
            source + ": "@ + text::joined(
                found.map_values(|p: (SlotV, Seq<char>)| p.1),
                ", "@,
            )
        },
    }
}

/// Add one slot and its count in words.
fn add_slot(
    slots: &mut Vec<Slot>,
    said: &mut Vec<String>,
    field: Option<&'static str>,
    names: &Option<Vec<String>>,
    any: bool,
    unit: &str,
    Ghost(found): Ghost<Seq<(SlotV, Seq<char>)>>,
)
    requires
        old(slots)@.map_values(|s: Slot| s@) == found.map_values(|p: (SlotV, Seq<char>)| p.0),
        text::texts(old(said)@) == found.map_values(|p: (SlotV, Seq<char>)| p.1),
    ensures
        ({
            let extra = if any {
                seq![arguments::any_kind()]
            } else {
                Seq::empty()
            };
            let more = with_some(
                found,
                slot_for(text::opt_str(field), hint::opt_names(*names), extra, unit@),
            );
            &&& final(slots)@.map_values(|s: Slot| s@) == more.map_values(
                |p: (SlotV, Seq<char>)| p.0,
            )
            &&& text::texts(final(said)@) == more.map_values(|p: (SlotV, Seq<char>)| p.1)
        }),
{
    if let (Some(f), Some(n)) = (field, names) {
        let ghost extra = if any {
            seq![arguments::any_kind()]
        } else {
            Seq::empty()
        };
        let ghost base = text::texts(n@);
        assert(base.len() == n@.len());
        let mut words = count_text(n.len());
        words.append(unit);
        let mut values = copy_texts(n);
        let ghost first = values@;
        if any {
            values.push(own(ANY_KIND));
        }
        let slot = Slot { field: own(f), values };
        proof {
            assert(text::texts(values@) =~= base + extra);
        }
        let ghost made = slot@;
        let ghost count = words@;
        let ghost s0 = slots@.map_values(|s: Slot| s@);
        let ghost w0 = text::texts(said@);
        slots.push(slot);
        said.push(words);
        proof {
            let more = found.push((made, count));
            assert(slots@.map_values(|s: Slot| s@) =~= s0.push(made));
            assert(text::texts(said@) =~= w0.push(count));
            assert(more.map_values(|p: (SlotV, Seq<char>)| p.0) =~= found.map_values(
                |p: (SlotV, Seq<char>)| p.0,
            ).push(made));
            assert(more.map_values(|p: (SlotV, Seq<char>)| p.1) =~= found.map_values(
                |p: (SlotV, Seq<char>)| p.1,
            ).push(count));
        }
    }
}

fn rails_at(rows: &Vec<ToolRow>, homes: &Vec<HomeNames>, source: &str) -> (r: ServerRails)
    ensures
        r@ == rails_for(rows_say(rows@), homes_say(homes@), source@),
{
    let fields = fields_at(rows, source);
    let none = HomeNames { source: own(source), places: None, devices: None, kinds: None };
    let at = find_home(homes, source);
    let home = match at {
        Some(i) => &homes[i],
        None => &none,
    };
    let ghost base: Seq<(SlotV, Seq<char>)> = Seq::empty();
    let mut slots: Vec<Slot> = Vec::new();
    let mut said: Vec<String> = Vec::new();
    assert(slots@.map_values(|s: Slot| s@) =~= base.map_values(|p: (SlotV, Seq<char>)| p.0));
    assert(text::texts(said@) =~= base.map_values(|p: (SlotV, Seq<char>)| p.1));
    add_slot(&mut slots, &mut said, fields.place, &home.places, false, " areas", Ghost(base));
    let ghost one = with_some(
        base,
        slot_for(fields@.place, home@.places, Seq::empty(), " areas"@),
    );
    add_slot(&mut slots, &mut said, fields.device, &home.devices, false, " devices", Ghost(one));
    let ghost two = with_some(
        one,
        slot_for(fields@.device, home@.devices, Seq::empty(), " devices"@),
    );
    add_slot(
        &mut slots,
        &mut said,
        fields.kind,
        &home.kinds,
        true,
        " kinds of device",
        Ghost(two),
    );
    let ghost found = slots_for(fields@, home@);
    assert(text::texts(said@).len() == said@.len());
    let words = if said.len() == 0 {
        let empty = String::new();
        assert(empty@ =~= Seq::empty());
        empty
    } else {
        let mut out = own(source);
        out.append(": ");
        let list = join(&said, ", ");
        out.append(&list);
        out
    };
    ServerRails { source: own(source), slots, said: words }
}

/// What each server's tools are held to while a model writes a command.
///
/// Everything comes from each tool's own published schema and from what the
/// house said about itself. Asked once per server, not once over all of them
/// together.
pub fn rails(rows: &Vec<ToolRow>, homes: &Vec<HomeNames>) -> (r: Vec<ServerRails>)
    ensures
        lists_servers(
            r@.map_values(|s: ServerRails| s@.source),
            rows_say(rows@),
        ),
        forall|i: int|
            0 <= i < r@.len() ==> (#[trigger] r@[i])@ == rails_for(
                rows_say(rows@),
                homes_say(homes@),
                r@[i]@.source,
            ),
{
    let servers = servers_of(rows);
    let mut out: Vec<ServerRails> = Vec::new();
    for i in 0..servers.len()
        invariant
            out@.len() == i,
            forall|k: int|
                0 <= k < i ==> (#[trigger] out@[k])@ == rails_for(
                    rows_say(rows@),
                    homes_say(homes@),
                    servers@[k]@,
                ),
    {
        out.push(rails_at(rows, homes, &servers[i]));
    }
    assert(out@.map_values(|s: ServerRails| s@.source) =~= text::texts(servers@));
    out
}

// ---------------------------------------------------------------------------
// The page
// ---------------------------------------------------------------------------

/// How many names a list holds, where the server has a field for them. A list
/// that could not be read counts as empty; no field means nothing is narrowed,
/// and a number would read as though something were.
pub open spec fn counted(field: Option<Seq<char>>, names: Option<Seq<Seq<char>>>) -> JsonV {
    match field {
        Some(_) => json::whole_number(
            match names {
                Some(n) => n.len() as int,
                None => 0,
            },
        ),
        None => JsonV::Null,
    }
}

/// What the page states about one server.
pub open spec fn fact_for(fields: SlotFieldsV, home: HomeNamesV) -> JsonV {
    JsonV::Object(
        seq![
            ("areas"@, counted(fields.place, home.places)),
            ("device"@, json::text_or_null(fields.device)),
            ("devices"@, counted(fields.device, home.devices)),
            ("kind"@, json::text_or_null(fields.kind)),
            ("kinds"@, counted(fields.kind, home.kinds)),
            ("place"@, json::text_or_null(fields.place)),
        ],
    )
}

fn count_names(field: Option<&'static str>, names: &Option<Vec<String>>) -> (r: Json)
    ensures
        r@ == counted(text::opt_str(field), hint::opt_names(*names)),
{
    match field {
        Some(_) => match names {
            Some(n) => {
                assert(text::texts(n@).len() == n@.len());
                Json::count(n.len())
            },
            None => Json::count(0),
        },
        None => Json::Null,
    }
}

fn fact_at(rows: &Vec<ToolRow>, homes: &Vec<HomeNames>, source: &str) -> (r: Json)
    ensures
        r@ == fact_for(
            fields_for(rows_say(rows@), source@),
            home_of(homes_say(homes@), source@),
        ),
{
    let fields = fields_at(rows, source);
    let none = HomeNames { source: own(source), places: None, devices: None, kinds: None };
    let at = find_home(homes, source);
    let home = match at {
        Some(i) => &homes[i],
        None => &none,
    };
    let mut m: Vec<(String, Json)> = Vec::new();
    put(&mut m, "areas", count_names(fields.place, &home.places));
    put(&mut m, "device", Json::opt_str(fields.device));
    put(&mut m, "devices", count_names(fields.device, &home.devices));
    put(&mut m, "kind", Json::opt_str(fields.kind));
    put(&mut m, "kinds", count_names(fields.kind, &home.kinds));
    put(&mut m, "place", Json::opt_str(fields.place));
    assert(value::members(m@) =~= fact_for(fields@, home@)->Object_0);
    Json::Object(m)
}

/// The keys of an object's members.
pub open spec fn keys_of(m: Seq<(Seq<char>, JsonV)>) -> Seq<Seq<char>> {
    m.map_values(|p: (Seq<char>, JsonV)| p.0)
}

/// What each server's tools are held to, for the page to state once per server.
///
/// The same probe and the same readers as [`rails`], so the page cannot claim a
/// narrowing the model did not get.
pub fn rails_facts(rows: &Vec<ToolRow>, homes: &Vec<HomeNames>) -> (r: Json)
    ensures
        r@ is Object,
        lists_servers(keys_of(r@->Object_0), rows_say(rows@)),
        forall|i: int|
            0 <= i < r@->Object_0.len() ==> (#[trigger] r@->Object_0[i]).1 == fact_for(
                fields_for(rows_say(rows@), r@->Object_0[i].0),
                home_of(homes_say(homes@), r@->Object_0[i].0),
            ),
{
    let servers = servers_of(rows);
    let mut m: Vec<(String, Json)> = Vec::new();
    for i in 0..servers.len()
        invariant
            m@.len() == i,
            forall|k: int|
                0 <= k < i ==> (#[trigger] m@[k]).0@ == servers@[k]@ && m@[k].1@ == fact_for(
                    fields_for(rows_say(rows@), servers@[k]@),
                    home_of(homes_say(homes@), servers@[k]@),
                ),
    {
        m.push((own(&servers[i]), fact_at(rows, homes, &servers[i])));
    }
    proof {
        let all = value::members(m@);
        assert(keys_of(all) =~= text::texts(servers@));
        assert forall|i: int| 0 <= i < all.len() implies (#[trigger] all[i]).1 == fact_for(
            fields_for(rows_say(rows@), all[i].0),
            home_of(homes_say(homes@), all[i].0),
        ) by {
            assert(m@[i].0@ == servers@[i]@);
        }
    }
    Json::Object(m)
}

/// How many past invocations to show per tool. Enough to see whether a failure
/// is the standing state or a one-off, few enough that the panel stays a
/// summary.
pub const USES_PER_TOOL: usize = 4;

/// One past invocation, out of the transcript.
#[derive(Debug, Clone)]
pub struct ToolUse {
    pub tool: String,
    pub at: i64,
    pub args: String,
    pub said: Option<String>,
    pub speaker: Option<String>,
    pub result: Option<String>,
    pub ok: Option<bool>,
}

/// What a [`ToolUse`] says.
pub struct ToolUseV {
    pub tool: Seq<char>,
    pub at: i64,
    pub args: Seq<char>,
    pub said: Option<Seq<char>>,
    pub speaker: Option<Seq<char>>,
    pub result: Option<Seq<char>>,
    pub ok: Option<bool>,
}

impl View for ToolUse {
    type V = ToolUseV;

    open spec fn view(&self) -> ToolUseV {
        ToolUseV {
            tool: self.tool@,
            at: self.at,
            args: self.args@,
            said: text::opt_text(self.said),
            speaker: text::opt_text(self.speaker),
            result: text::opt_text(self.result),
            ok: self.ok,
        }
    }
}

/// What a list of invocations says.
pub open spec fn uses_say(v: Seq<ToolUse>) -> Seq<ToolUseV> {
    v.map_values(|u: ToolUse| u@)
}

/// An optional text, cut to `n` characters, visibly.
pub open spec fn clipped_or_null(o: Option<Seq<char>>, n: nat) -> JsonV {
    match o {
        Some(s) => JsonV::Text(ladder::clipped(s, n)),
        None => JsonV::Null,
    }
}

/// One invocation as the page shows it. Long payloads are cut, so the response
/// stays small.
pub open spec fn use_shown(u: ToolUseV) -> JsonV {
    JsonV::Object(
        seq![
            ("args"@, JsonV::Text(ladder::clipped(u.args, 400))),
            ("at"@, json::whole_number(u.at as int)),
            ("ok"@, json::bool_or_null(u.ok)),
            ("result"@, clipped_or_null(u.result, 600)),
            ("said"@, clipped_or_null(u.said, 240)),
            ("speaker"@, json::text_or_null(u.speaker)),
        ],
    )
}

/// The first few invocations of a tool, as the page shows them.
pub open spec fn shown_of(uses: Seq<ToolUseV>, tool: Seq<char>) -> Seq<JsonV>
    decreases uses.len(),
{
    if uses.len() == 0 {
        Seq::empty()
    } else {
        let before = shown_of(uses.drop_last(), tool);
        if uses.last().tool == tool && before.len() < USES_PER_TOOL {
            before.push(use_shown(uses.last()))
        } else {
            before
        }
    }
}

/// Whether a tool was used.
pub open spec fn was_used(uses: Seq<ToolUseV>, tool: Seq<char>) -> bool {
    exists|i: int| 0 <= i < uses.len() && (#[trigger] uses[i]).tool == tool
}

fn clip_opt(s: &Option<String>, n: usize) -> (r: Json)
    ensures
        r@ == clipped_or_null(text::opt_text(*s), n as nat),
{
    match s {
        Some(t) => Json::Text(clip(t, n)),
        None => Json::Null,
    }
}

fn show_use(u: &ToolUse) -> (r: Json)
    ensures
        r@ == use_shown(u@),
{
    let mut m: Vec<(String, Json)> = Vec::new();
    put(&mut m, "args", Json::Text(clip(&u.args, 400)));
    put(&mut m, "at", Json::whole(u.at));
    put(&mut m, "ok", Json::opt_bool(u.ok));
    put(&mut m, "result", clip_opt(&u.result, 600));
    put(&mut m, "said", clip_opt(&u.said, 240));
    put(&mut m, "speaker", Json::opt_text(&u.speaker));
    assert(value::members(m@) =~= use_shown(u@)->Object_0);
    Json::Object(m)
}

fn show_uses(uses: &Vec<ToolUse>, tool: &str) -> (r: Json)
    ensures
        r@ == JsonV::List(shown_of(uses_say(uses@), tool@)),
{
    let ghost all = uses_say(uses@);
    let mut out: Vec<Json> = Vec::new();
    assert(value::items(out@) =~= shown_of(all.take(0), tool@));
    for i in 0..uses.len()
        invariant
            all == uses_say(uses@),
            value::items(out@) == shown_of(all.take(i as int), tool@),
    {
        let ghost before = value::items(out@);
        proof {
            assert(all.take(i + 1).drop_last() == all.take(i as int));
            assert(all[i as int] == uses@[i as int]@);
            assert(before.len() == out@.len());
        }
        if same(&uses[i].tool, tool) && out.len() < USES_PER_TOOL {
            out.push(show_use(&uses[i]));
            assert(value::items(out@) =~= before.push(use_shown(all[i as int])));
        }
    }
    assert(all.take(all.len() as int) == all);
    Json::List(out)
}

/// Group past invocations by tool, in the order they come, keeping a handful
/// each.
pub fn uses_by_tool(uses: &Vec<ToolUse>) -> (r: Json)
    ensures
        r@ is Object,
        order::ascending::<String>(keys_of(r@->Object_0)),
        forall|t: Seq<char>|
            #[trigger] keys_of(r@->Object_0).contains(t) <==> was_used(uses_say(uses@), t),
        forall|i: int|
            0 <= i < r@->Object_0.len() ==> (#[trigger] r@->Object_0[i]).1 == JsonV::List(
                shown_of(uses_say(uses@), r@->Object_0[i].0),
            ),
{
    let ghost all = uses_say(uses@);
    let mut tools: Vec<String> = Vec::new();
    for i in 0..uses.len()
        invariant
            all == uses_say(uses@),
            order::ascending::<String>(order::views(tools@)),
            forall|s: Seq<char>|
                #[trigger] order::views(tools@).contains(s) <==> was_used(all.take(i as int), s),
    {
        let ghost before = order::views(tools@);
        proof {
            assert(all[i as int] == uses@[i as int]@);
        }
        place(&mut tools, own(&uses[i].tool));
        proof {
            let more = all.take(i + 1);
            let less = all.take(i as int);
            assert forall|s: Seq<char>| #[trigger] order::views(tools@).contains(s) <==> was_used(
                more,
                s,
            ) by {
                assert(order::views(tools@).contains(s) <==> before.contains(s) || s
                    == all[i as int].tool);
                assert(before.contains(s) <==> was_used(less, s));
                if was_used(less, s) {
                    let k = choose|k: int| 0 <= k < less.len() && (#[trigger] less[k]).tool == s;
                    assert(more[k] == less[k]);
                }
                if s == all[i as int].tool {
                    assert(more[i as int].tool == s);
                }
                if was_used(more, s) {
                    let k = choose|k: int| 0 <= k < more.len() && (#[trigger] more[k]).tool == s;
                    if k < i {
                        assert(less[k] == more[k]);
                    }
                }
            }
        }
    }
    assert(all.take(all.len() as int) == all);
    let mut m: Vec<(String, Json)> = Vec::new();
    for i in 0..tools.len()
        invariant
            all == uses_say(uses@),
            m@.len() == i,
            forall|k: int|
                0 <= k < i ==> (#[trigger] m@[k]).0@ == tools@[k]@ && m@[k].1@ == JsonV::List(
                    shown_of(all, tools@[k]@),
                ),
    {
        m.push((own(&tools[i]), show_uses(uses, &tools[i])));
    }
    proof {
        let members = value::members(m@);
        assert(keys_of(members) =~= order::views(tools@));
        assert forall|i: int| 0 <= i < members.len() implies (#[trigger] members[i]).1
            == JsonV::List(shown_of(all, members[i].0)) by {
            assert(m@[i].0@ == tools@[i]@);
        }
    }
    Json::Object(m)
}

// ---------------------------------------------------------------------------
// Phrases
// ---------------------------------------------------------------------------

/// One phrase that was written down, as the catalogue holds it.
pub struct Phrase {
    pub phrase: String,
    pub lang: String,
    pub source: String,
    pub tool: String,
    pub args: String,
    pub origin: String,
    /// The one word the page may put beside it, asked of the row itself.
    pub state: String,
    pub runs: i64,
    pub clean: i64,
    pub last_run: Option<i64>,
    pub last_ok: Option<bool>,
    pub last_ms: Option<i64>,
}

/// The first of some fields an object holds a text under.
pub open spec fn first_text(sent: JsonV, fields: Seq<Option<Seq<char>>>) -> Option<Seq<char>>
    decreases fields.len(),
{
    if fields.len() == 0 {
        None
    } else {
        match fields[0] {
            Some(f) => match json::text_field(sent, f) {
                Some(t) => Some(t),
                None => first_text(sent, fields.drop_first()),
            },
            None => first_text(sent, fields.drop_first()),
        }
    }
}

/// What in the home arguments name. A device wins over an area when both are
/// named, because it is the narrower answer to "what does this touch".
pub open spec fn target_of(fields: SlotFieldsV, sent: JsonV) -> Option<Seq<char>> {
    first_text(sent, seq![fields.device, fields.place, fields.wider_place])
}

/// What in the home a stored command names, given how its arguments read.
pub open spec fn target_said(tool: Seq<char>, sent: Option<JsonV>) -> Option<Seq<char>> {
    match sent {
        Some(v) => target_of(vendor::fields_of(vendor::family_offering(seq![tool])), v),
        None => None,
    }
}

/// What in the home some arguments name.
pub fn target_named(fields: &SlotFields, sent: &Json) -> (r: Option<String>)
    ensures
        text::opt_text(r) == target_of(fields@, sent@),
{
    proof {
        let all = seq![fields@.device, fields@.place, fields@.wider_place];
        reveal_with_fuel(first_text, 4);
        assert(all.drop_first() =~= seq![fields@.place, fields@.wider_place]);
        assert(all.drop_first().drop_first() =~= seq![fields@.wider_place]);
        assert(all.drop_first().drop_first().drop_first() =~= Seq::empty());
    }
    if let Some(f) = fields.device {
        if let Some(t) = sent.get_text(f) {
            return Some(own(t));
        }
    }
    if let Some(f) = fields.place {
        if let Some(t) = sent.get_text(f) {
            return Some(own(t));
        }
    }
    if let Some(f) = fields.wider_place {
        if let Some(t) = sent.get_text(f) {
            return Some(own(t));
        }
    }
    None
}

/// What in the home a stored command names, when the server's fields for it are
/// known. A server nobody has specific knowledge of yields nothing here.
pub fn target_in(tool: &str, args: &str) -> (r: Option<String>)
    ensures
        text::opt_text(r) == target_said(tool@, json::json_value(args@)),
{
    let tools: Vec<&str> = vec![tool];
    assert(text::texts(tools@) =~= seq![tool@]);
    let fields = for_catalogue(&tools).slot_fields();
    match Json::parse(args) {
        Some(sent) => target_named(&fields, &sent),
        None => None,
    }
}

/// One phrase as the page shows it.
pub open spec fn phrase_shown(p: Phrase) -> JsonV {
    JsonV::Object(
        seq![
            ("args"@, JsonV::Text(p.args@)),
            ("clean"@, json::whole_number(p.clean as int)),
            ("lang"@, JsonV::Text(p.lang@)),
            (
                "last_ms"@,
                json::number_or_null(
                    match p.last_ms {
                        Some(x) => Some(x as int),
                        None => None,
                    },
                ),
            ),
            ("last_ok"@, json::bool_or_null(p.last_ok)),
            (
                "last_run"@,
                json::number_or_null(
                    match p.last_run {
                        Some(x) => Some(x as int),
                        None => None,
                    },
                ),
            ),
            ("origin"@, JsonV::Text(p.origin@)),
            ("phrase"@, JsonV::Text(p.phrase@)),
            ("runs"@, json::whole_number(p.runs as int)),
            ("source"@, JsonV::Text(p.source@)),
            ("state"@, JsonV::Text(p.state@)),
            (
                "target"@,
                json::text_or_null(target_said(p.tool@, json::json_value(p.args@))),
            ),
            ("tool"@, JsonV::Text(p.tool@)),
        ],
    )
}

fn show_phrase(p: &Phrase) -> (r: Json)
    ensures
        r@ == phrase_shown(*p),
{
    let target = target_in(&p.tool, &p.args);
    let mut m: Vec<(String, Json)> = Vec::new();
    put(&mut m, "args", Json::text(&p.args));
    put(&mut m, "clean", Json::whole(p.clean));
    put(&mut m, "lang", Json::text(&p.lang));
    put(&mut m, "last_ms", Json::opt_whole(p.last_ms));
    put(&mut m, "last_ok", Json::opt_bool(p.last_ok));
    put(&mut m, "last_run", Json::opt_whole(p.last_run));
    put(&mut m, "origin", Json::text(&p.origin));
    put(&mut m, "phrase", Json::text(&p.phrase));
    put(&mut m, "runs", Json::whole(p.runs));
    put(&mut m, "source", Json::text(&p.source));
    put(&mut m, "state", Json::text(&p.state));
    put(&mut m, "target", Json::opt_text(&target));
    put(&mut m, "tool", Json::text(&p.tool));
    assert(value::members(m@) =~= phrase_shown(*p)->Object_0);
    Json::Object(m)
}

/// The phrases that were written down, each with the one word the page may put
/// beside it.
pub fn phrases(shortcuts: &Vec<Phrase>) -> (r: Json)
    ensures
        r@ == JsonV::List(shortcuts@.map_values(|p: Phrase| phrase_shown(p))),
{
    let mut out: Vec<Json> = Vec::new();
    for i in 0..shortcuts.len()
        invariant
            out@.len() == i,
            forall|k: int| 0 <= k < i ==> (#[trigger] out@[k])@ == phrase_shown(shortcuts@[k]),
    {
        out.push(show_phrase(&shortcuts[i]));
    }
    assert(value::items(out@) =~= shortcuts@.map_values(|p: Phrase| phrase_shown(p)));
    Json::List(out)
}

/// Everything read for the page.
pub struct Page {
    /// Whether the model is told the names in this home.
    pub place_names: bool,
    /// What each server's tools are held to; see [`rails_facts`].
    pub rails: Json,
    pub places: Vec<String>,
    /// The devices of the catalogue, as it lists them.
    pub devices: Json,
    pub kinds: Vec<String>,
    /// The sentences the model would be given about this home.
    pub hint: Option<String>,
    pub catalogue_hash: String,
    /// How many tools the model is offered.
    pub offered: usize,
    /// What each tool has been asked to do; see [`uses_by_tool`].
    pub uses: Json,
    pub history_kept: bool,
    /// The phrases that were written down; see [`phrases`].
    pub shortcuts: Json,
}

/// Everything the page needs beyond the tool list itself.
pub open spec fn page_shown(p: Page) -> JsonV {
    JsonV::Object(
        seq![
            ("any_kind"@, JsonV::Text(arguments::any_kind())),
            ("catalogue_hash"@, JsonV::Text(p.catalogue_hash@)),
            (
                "hint"@,
                if p.place_names {
                    json::text_or_null(text::opt_text(p.hint))
                } else {
                    JsonV::Null
                },
            ),
            ("history_kept"@, JsonV::Bool(p.history_kept)),
            (
                "house"@,
                JsonV::Object(
                    seq![
                        ("devices"@, p.devices@),
                        ("kinds"@, json::text_list(text::texts(p.kinds@))),
                        ("places"@, json::text_list(text::texts(p.places@))),
                    ],
                ),
            ),
            ("offered"@, json::whole_number(p.offered as int)),
            ("place_names"@, JsonV::Bool(p.place_names)),
            ("rails"@, p.rails@),
            ("shortcuts"@, p.shortcuts@),
            ("uses"@, p.uses@),
        ],
    )
}

/// Everything the page needs beyond the tool list itself.
///
/// The sentences about this home are shown verbatim, and only where the model is
/// given them: a page that shows sentences the model never received is worse
/// than no page.
pub fn page_extras(p: &Page) -> (r: Json)
    ensures
        r@ == page_shown(*p),
{
    let mut house: Vec<(String, Json)> = Vec::new();
    put(&mut house, "devices", p.devices.copy());
    put(&mut house, "kinds", Json::texts(&p.kinds));
    put(&mut house, "places", Json::texts(&p.places));
    assert(value::members(house@) =~= seq![
        ("devices"@, p.devices@),
        ("kinds"@, json::text_list(text::texts(p.kinds@))),
        ("places"@, json::text_list(text::texts(p.places@))),
    ]);
    let mut m: Vec<(String, Json)> = Vec::new();
    put(&mut m, "any_kind", Json::text(ANY_KIND));
    put(&mut m, "catalogue_hash", Json::text(&p.catalogue_hash));
    put(
        &mut m,
        "hint",
        if p.place_names {
            Json::opt_text(&p.hint)
        } else {
            Json::Null
        },
    );
    put(&mut m, "history_kept", Json::Bool(p.history_kept));
    put(&mut m, "house", Json::Object(house));
    put(&mut m, "offered", Json::count(p.offered));
    put(&mut m, "place_names", Json::Bool(p.place_names));
    put(&mut m, "rails", p.rails.copy());
    put(&mut m, "shortcuts", p.shortcuts.copy());
    put(&mut m, "uses", p.uses.copy());
    assert(value::members(m@) =~= page_shown(*p)->Object_0);
    Json::Object(m)
}

// ---------------------------------------------------------------------------
// Laws
// ---------------------------------------------------------------------------

/// A server is asked about alone: what another server offers changes nothing
/// about what this one's tools are held to.
pub proof fn law_rails_are_per_server(
    rows: Seq<ToolRowV>,
    other: ToolRowV,
    homes: Seq<HomeNamesV>,
    source: Seq<char>,
)
    requires
        other.source != source,
    ensures
        rails_for(rows.push(other), homes, source) == rails_for(rows, homes, source),
        fact_for(fields_for(rows.push(other), source), home_of(homes, source)) == fact_for(
            fields_for(rows, source),
            home_of(homes, source),
        ),
{
    assert(rows.push(other).drop_last() == rows);
    assert(tools_of(rows.push(other), source) == tools_of(rows, source));
}

/// Wherever a kind of device is held to what the house contains, the word for
/// everything is among the choices.
pub proof fn law_everything_can_still_be_said(fields: SlotFieldsV, home: HomeNamesV)
    requires
        fields.kind is Some,
        home.kinds is Some,
    ensures
        slots_for(fields, home).len() > 0,
        slots_for(fields, home).last().0.field == fields.kind->0,
        slots_for(fields, home).last().0.values == home.kinds->0.push(arguments::any_kind()),
{
    assert(home.kinds->0 + seq![arguments::any_kind()] =~= home.kinds->0.push(
        arguments::any_kind(),
    ));
}

/// A server whose catalogue is not recognised is held to nothing.
pub proof fn law_an_unknown_server_is_left_free(
    rows: Seq<ToolRowV>,
    homes: Seq<HomeNamesV>,
    source: Seq<char>,
)
    requires
        !vendor::is_house_catalogue(tools_of(rows, source)),
    ensures
        rails_for(rows, homes, source).slots.len() == 0,
        rails_for(rows, homes, source).said.len() == 0,
{
}

/// One busy tool cannot fill the page.
pub proof fn law_uses_are_capped(uses: Seq<ToolUseV>, tool: Seq<char>)
    ensures
        shown_of(uses, tool).len() <= USES_PER_TOOL,
    decreases uses.len(),
{
    if uses.len() > 0 {
        law_uses_are_capped(uses.drop_last(), tool);
    }
}

/// What is offered is what was switched on at a configured server, and the model
/// is never shown a tool that could not be run.
pub proof fn law_only_reachable_tools_are_offered(
    rows: Seq<ToolRowV>,
    servers: Seq<Seq<char>>,
    i: int,
)
    requires
        0 <= i < offered_rows(rows, servers).len(),
    ensures
        servers.contains(offered_rows(rows, servers)[i].source),
        rows.contains(offered_rows(rows, servers)[i]),
    decreases rows.len(),
{
    let before = offered_rows(rows.drop_last(), servers);
    if i < before.len() {
        law_only_reachable_tools_are_offered(rows.drop_last(), servers, i);
        let k = choose|k: int|
            0 <= k < rows.drop_last().len() && rows.drop_last()[k] == before[i];
        assert(rows[k] == before[i]);
    } else {
        assert(rows[rows.len() - 1] == rows.last());
    }
}

/// A tool is offered exactly where it is in the catalogue and its server is
/// configured.
pub proof fn law_what_is_offered(
    rows: Seq<ToolRowV>,
    servers: Seq<Seq<char>>,
    r: ToolRowV,
)
    ensures
        offered_rows(rows, servers).contains(r) <==> exists|i: int|
            0 <= i < rows.len() && (#[trigger] rows[i]) == r && servers.contains(r.source),
    decreases rows.len(),
{
    if rows.len() > 0 {
        let init = rows.drop_last();
        law_what_is_offered(init, servers, r);
        let before = offered_rows(init, servers);
        let after = offered_rows(rows, servers);
        if before.contains(r) {
            let k = choose|k: int| 0 <= k < before.len() && before[k] == r;
            assert(after[k] == r);
            let i = choose|i: int| 0 <= i < init.len() && (#[trigger] init[i]) == r && servers.contains(r.source);
            assert(init[i] == rows[i]);
        }
        if after.contains(r) && !before.contains(r) {
            let k = choose|k: int| 0 <= k < after.len() && after[k] == r;
            if k < before.len() {
                assert(before[k] == r);
            }
            assert(rows[rows.len() - 1] == rows.last());
        }
        assert forall|i: int| 0 <= i < rows.len() && (#[trigger] rows[i]) == r && servers.contains(r.source) implies after.contains(r) by {
            if i < init.len() {
                assert(init[i] == rows[i]);
            } else {
                assert(after[after.len() - 1] == r);
            }
        }
    }
}

/// What is offered comes in the order of the catalogue.
pub proof fn law_offers_come_in_order(
    a: Seq<ToolRowV>,
    b: Seq<ToolRowV>,
    servers: Seq<Seq<char>>,
)
    ensures
        offered_rows(a + b, servers) == offered_rows(a, servers) + offered_rows(b, servers),
    decreases b.len(),
{
    if b.len() == 0 {
        assert(a + b == a);
        assert(offered_rows(a, servers) + offered_rows(b, servers) == offered_rows(a, servers));
    } else {
        law_offers_come_in_order(a, b.drop_last(), servers);
        assert((a + b).drop_last() == a + b.drop_last());
        assert((a + b).last() == b.last());
    }
}

/// The tools of a server are those whose rows name it.
pub proof fn law_the_tools_of_a_server(
    rows: Seq<ToolRowV>,
    source: Seq<char>,
    n: Seq<char>,
)
    ensures
        tools_of(rows, source).contains(n) <==> exists|i: int|
            0 <= i < rows.len() && (#[trigger] rows[i]).source == source && rows[i].name == n,
    decreases rows.len(),
{
    if rows.len() > 0 {
        let init = rows.drop_last();
        law_the_tools_of_a_server(init, source, n);
        let before = tools_of(init, source);
        let after = tools_of(rows, source);
        if before.contains(n) {
            let k = choose|k: int| 0 <= k < before.len() && before[k] == n;
            assert(after[k] == n);
            let i = choose|i: int| 0 <= i < init.len() && (#[trigger] init[i]).source == source && init[i].name == n;
            assert(init[i] == rows[i]);
        }
        if after.contains(n) && !before.contains(n) {
            let k = choose|k: int| 0 <= k < after.len() && after[k] == n;
            if k < before.len() {
                assert(before[k] == n);
            }
            assert(rows[rows.len() - 1] == rows.last());
        }
        assert forall|i: int| 0 <= i < rows.len() && (#[trigger] rows[i]).source == source && rows[i].name == n implies after.contains(n) by {
            if i < init.len() {
                assert(init[i] == rows[i]);
            } else {
                assert(after[after.len() - 1] == n);
            }
        }
    }
}

/// They come in the order of the catalogue.
pub proof fn law_tools_come_in_order(
    a: Seq<ToolRowV>,
    b: Seq<ToolRowV>,
    source: Seq<char>,
)
    ensures
        tools_of(a + b, source) == tools_of(a, source) + tools_of(b, source),
    decreases b.len(),
{
    if b.len() == 0 {
        assert(a + b == a);
        assert(tools_of(a, source) + tools_of(b, source) == tools_of(a, source));
    } else {
        law_tools_come_in_order(a, b.drop_last(), source);
        assert((a + b).drop_last() == a + b.drop_last());
        assert((a + b).last() == b.last());
    }
}

/// There is something to offer exactly where tools are switched on and some
/// server that is configured has one.
pub proof fn law_one_tool_is_an_offer(
    enabled: bool,
    servers: Seq<Seq<char>>,
    rows: Seq<ToolRowV>,
)
    ensures
        has_offer(enabled, servers, rows) <==> enabled && exists|i: int|
            0 <= i < rows.len() && servers.contains((#[trigger] rows[i]).source),
{
    let all = offered_rows(rows, servers);
    if all.len() > 0 {
        assert(all.contains(all[0]));
        law_what_is_offered(rows, servers, all[0]);
    }
    assert forall|i: int|
        0 <= i < rows.len() && servers.contains((#[trigger] rows[i]).source) implies all.len() > 0
        && servers.len() > 0 by {
        law_what_is_offered(rows, servers, rows[i]);
        assert(all.contains(rows[i]));
    }
}

/// A tool is described to the model under its own name, with its description and
/// its parameters, and is run as its row says.
pub proof fn law_a_tool_is_described_as_its_row_says(r: ToolRowV)
    ensures
        json::text_field(descriptor_of(r), "type"@) == Some("function"@),
        ({
            let f = json::field(descriptor_of(r), "function"@);
            &&& f is Some
            &&& json::text_field(f->0, "name"@) == Some(r.name)
            &&& json::text_field(f->0, "description"@) == Some(r.description)
            &&& json::field(f->0, "parameters"@) == Some(r.schema)
        }),
        runnable_of(r).verify == r.verify,
        runnable_of(r).readback == r.readback,
        runnable_of(r).schema == r.schema,
        runnable_of(r).source == r.source,
{
    reveal_strlit("function");
    reveal_strlit("type");
    reveal_strlit("description");
    reveal_strlit("name");
    reveal_strlit("parameters");
    let m = descriptor_of(r)->Object_0;
    assert("function"@.len() == 8 && "type"@.len() == 4);
    json::lemma_key_at(m, "function"@, 0);
    json::lemma_key_at(m, "type"@, 1);
    let f = m[0].1->Object_0;
    assert("description"@.len() == 11 && "name"@.len() == 4 && "parameters"@.len() == 10);
    json::lemma_key_at(f, "description"@, 0);
    json::lemma_key_at(f, "name"@, 1);
    json::lemma_key_at(f, "parameters"@, 2);
}

/// The home is hinted at exactly where place names may be given and the places
/// are known, and then with all that is known.
pub proof fn law_place_names_are_given_by_leave(
    places: Option<Seq<Seq<char>>>,
    devices: Option<Seq<Seq<char>>>,
    arm: HintArm,
)
    ensures
        home_hint(false, places, devices, arm) is None,
        home_hint(true, None, devices, arm) is None,
        places is Some ==> home_hint(true, places, devices, arm) == hint::hint_said(
            places->0,
            devices,
            arm,
        ),
{
}

/// A server's home is the first one told for it, and one nobody told of is not
/// known at all.
pub proof fn law_a_home_is_the_first_told(homes: Seq<HomeNamesV>, source: Seq<char>, i: int)
    ensures
        0 <= i < homes.len() && homes[i].source == source && (forall|j: int|
            0 <= j < i ==> (#[trigger] homes[j]).source != source) ==> home_of(homes, source)
            == homes[i],
        (forall|j: int| 0 <= j < homes.len() ==> (#[trigger] homes[j]).source != source)
            ==> home_of(homes, source).places is None && home_of(homes, source).devices is None
            && home_of(homes, source).kinds is None,
    decreases homes.len(),
{
    if homes.len() > 0 && homes[0].source != source {
        let t = homes.drop_first();
        law_a_home_is_the_first_told(t, source, i - 1);
        if 0 <= i < homes.len() && homes[i].source == source && (forall|j: int|
            0 <= j < i ==> (#[trigger] homes[j]).source != source) {
            assert(t[i - 1] == homes[i]);
            assert forall|j: int| 0 <= j < i - 1 implies (#[trigger] t[j]).source != source by {
                assert(t[j] == homes[j + 1]);
            }
        }
        if forall|j: int| 0 <= j < homes.len() ==> (#[trigger] homes[j]).source != source {
            assert forall|j: int| 0 <= j < t.len() implies (#[trigger] t[j]).source != source by {
                assert(t[j] == homes[j + 1]);
            }
        }
    } else if homes.len() > 0 {
        if 0 < i < homes.len() && (forall|j: int|
            0 <= j < i ==> (#[trigger] homes[j]).source != source) {
            assert(homes[0].source != source);
        }
    }
}

/// What a server's arguments are held to, where every field and every list is
/// known: the places, the devices, and the kinds with the word for everything,
/// each under its own field and in that order, and all three are counted aloud.
pub proof fn law_arguments_are_held_to_the_house(fields: SlotFieldsV, home: HomeNamesV)
    requires
        fields.place is Some,
        fields.device is Some,
        fields.kind is Some,
        home.places is Some,
        home.devices is Some,
        home.kinds is Some,
    ensures
        ({
            let s = slots_for(fields, home);
            &&& s.len() == 3
            &&& s[0].0.field == fields.place->0 && s[0].0.values == home.places->0
            &&& s[1].0.field == fields.device->0 && s[1].0.values == home.devices->0
            &&& s[2].0.field == fields.kind->0 && s[2].0.values == home.kinds->0.push("__all__"@)
            &&& s[0].1 == text::decimal(home.places->0.len()) + " areas"@
            &&& s[1].1 == text::decimal(home.devices->0.len()) + " devices"@
            &&& s[2].1 == text::decimal(home.kinds->0.len()) + " kinds of device"@
        }),
{
    assert(home.places->0 + Seq::<Seq<char>>::empty() == home.places->0);
    assert(home.devices->0 + Seq::<Seq<char>>::empty() == home.devices->0);
}

/// A list that is not known holds no argument, whichever of the three it is, and
/// changes nothing for the others.
pub proof fn law_what_is_not_known_holds_nothing(fields: SlotFieldsV, home: HomeNamesV, i: int)
    ensures
        ({
            let known = |f: Option<Seq<char>>, n: Option<Seq<Seq<char>>>|
                if f is Some && n is Some {
                    1int
                } else {
                    0int
                };
            slots_for(fields, home).len() == known(fields.place, home.places) + known(
                fields.device,
                home.devices,
            ) + known(fields.kind, home.kinds)
        }),
        0 <= i < slots_for(fields, home).len() ==> ({
            let slot = slots_for(fields, home)[i].0;
            ||| fields.place == Some(slot.field) && home.places == Some(slot.values)
            ||| fields.device == Some(slot.field) && home.devices == Some(slot.values)
            ||| fields.kind == Some(slot.field) && home.kinds is Some && slot.values
                == home.kinds->0.push("__all__"@)
        }),
{
    if home.places is Some {
        assert(home.places->0 + Seq::<Seq<char>>::empty() == home.places->0);
    }
    if home.devices is Some {
        assert(home.devices->0 + Seq::<Seq<char>>::empty() == home.devices->0);
    }
}

/// A server's rails are the slots its fields and its home give, under its own
/// name, and what is said of them names the server.
pub proof fn law_rails_are_what_was_found(
    rows: Seq<ToolRowV>,
    homes: Seq<HomeNamesV>,
    source: Seq<char>,
    i: int,
)
    ensures
        ({
            let r = rails_for(rows, homes, source);
            let found = slots_for(
                vendor::fields_of(vendor::family_offering(tools_of(rows, source))),
                home_of(homes, source),
            );
            &&& r.source == source
            &&& r.slots.len() == found.len()
            &&& 0 <= i < found.len() ==> r.slots[i] == found[i].0
            &&& r.said.len() == 0 <==> found.len() == 0
            &&& found.len() > 0 ==> text::begins_with(r.said, source)
        }),
{
    reveal_strlit(": ");
    let r = rails_for(rows, homes, source);
    if r.said.len() > 0 {
        assert(r.said.subrange(0, source.len() as int) == source);
    }
}

/// What is told of a house's names: how many there are where the field is known,
/// none counted as nought, and null where it is not.
pub proof fn law_names_are_counted(f: Seq<char>, names: Seq<Seq<char>>)
    ensures
        counted(None, Some(names)) is Null,
        counted(Some(f), None) == json::whole_number(0),
        counted(Some(f), Some(names)) == json::whole_number(names.len() as int),
{
}

/// A page shows the first uses of a tool, four at most, in the order they are
/// told in, and uses of other tools take no room from them.
pub proof fn law_the_first_uses_are_shown(uses: Seq<ToolUseV>, u: ToolUseV, tool: Seq<char>)
    ensures
        u.tool != tool ==> shown_of(uses.push(u), tool) == shown_of(uses, tool),
        u.tool == tool && shown_of(uses, tool).len() < 4 ==> shown_of(uses.push(u), tool)
            == shown_of(uses, tool).push(use_shown(u)),
        shown_of(uses, tool).len() >= 4 ==> shown_of(uses.push(u), tool) == shown_of(uses, tool),
        shown_of(Seq::empty(), tool).len() == 0,
{
    assert(uses.push(u).drop_last() == uses);
}

/// What is shown of a use: its time, whether it worked, who spoke, and its
/// arguments, its result and what was said, each cut at its own length.
pub proof fn law_a_use_is_shown_whole(u: ToolUseV)
    ensures
        ({
            let m = use_shown(u)->Object_0;
            &&& use_shown(u) is Object
            &&& m.len() == 6
            &&& m.contains(("args"@, JsonV::Text(ladder::clipped(u.args, 400))))
            &&& m.contains(("at"@, json::whole_number(u.at as int)))
            &&& m.contains(("ok"@, json::bool_or_null(u.ok)))
            &&& m.contains(
                (
                    "result"@,
                    match u.result {
                        Some(t) => JsonV::Text(ladder::clipped(t, 600)),
                        None => JsonV::Null,
                    },
                ),
            )
            &&& m.contains(
                (
                    "said"@,
                    match u.said {
                        Some(t) => JsonV::Text(ladder::clipped(t, 240)),
                        None => JsonV::Null,
                    },
                ),
            )
            &&& m.contains(("speaker"@, json::text_or_null(u.speaker)))
        }),
{
    let m = use_shown(u)->Object_0;
    assert(m.contains(m[0]));
    assert(m.contains(m[1]));
    assert(m.contains(m[2]));
    assert(m.contains(m[3]));
    assert(m.contains(m[4]));
    assert(m.contains(m[5]));
}

/// A call is aimed at the device it names, else at the place, else at the wider
/// place, and at nothing where it names none of them as a text.
pub proof fn law_a_call_is_aimed_at_the_nearest(
    device: Seq<char>,
    place: Seq<char>,
    wider: Seq<char>,
    kind: Option<Seq<char>>,
    sent: JsonV,
)
    ensures
        ({
            let fields = SlotFieldsV {
                place: Some(place),
                wider_place: Some(wider),
                device: Some(device),
                kind,
            };
            target_of(fields, sent) == (if json::text_field(sent, device) is Some {
                json::text_field(sent, device)
            } else if json::text_field(sent, place) is Some {
                json::text_field(sent, place)
            } else {
                json::text_field(sent, wider)
            })
        }),
{
    reveal_with_fuel(first_text, 4);
    let all = seq![Some(device), Some(place), Some(wider)];
    assert(all.drop_first() == seq![Some(place), Some(wider)]);
    assert(all.drop_first().drop_first() == seq![Some(wider)]);
    assert(all.drop_first().drop_first().drop_first().len() == 0);
}

/// A server whose fields are not known is aimed at nothing that can be told.
pub proof fn law_no_fields_no_aim(sent: JsonV)
    ensures
        target_of(vendor::no_fields(), sent) is None,
{
    reveal_with_fuel(first_text, 4);
    let all = seq![None::<Seq<char>>, None::<Seq<char>>, None::<Seq<char>>];
    assert(all.drop_first() == seq![None::<Seq<char>>, None::<Seq<char>>]);
    assert(all.drop_first().drop_first() == seq![None::<Seq<char>>]);
    assert(all.drop_first().drop_first().drop_first().len() == 0);
}

/// What is shown of a phrase is what is kept of it, under the names of what it
/// is.
pub proof fn law_a_phrase_is_shown_whole(p: Phrase)
    ensures
        ({
            let m = phrase_shown(p)->Object_0;
            &&& phrase_shown(p) is Object
            &&& m.len() == 13
            &&& m.contains(("phrase"@, JsonV::Text(p.phrase@)))
            &&& m.contains(("lang"@, JsonV::Text(p.lang@)))
            &&& m.contains(("source"@, JsonV::Text(p.source@)))
            &&& m.contains(("tool"@, JsonV::Text(p.tool@)))
            &&& m.contains(("args"@, JsonV::Text(p.args@)))
            &&& m.contains(("origin"@, JsonV::Text(p.origin@)))
            &&& m.contains(("state"@, JsonV::Text(p.state@)))
            &&& m.contains(("runs"@, json::whole_number(p.runs as int)))
            &&& m.contains(("clean"@, json::whole_number(p.clean as int)))
            &&& m.contains(("last_ok"@, json::bool_or_null(p.last_ok)))
            &&& m.contains(
                (
                    "target"@,
                    json::text_or_null(target_said(p.tool@, json::json_value(p.args@))),
                ),
            )
            &&& m.contains(
                (
                    "last_ms"@,
                    match p.last_ms {
                        Some(x) => json::whole_number(x as int),
                        None => JsonV::Null,
                    },
                ),
            )
            &&& m.contains(
                (
                    "last_run"@,
                    match p.last_run {
                        Some(x) => json::whole_number(x as int),
                        None => JsonV::Null,
                    },
                ),
            )
        }),
{
    let m = phrase_shown(p)->Object_0;
    assert(m.contains(m[0]) && m.contains(m[1]) && m.contains(m[2]) && m.contains(m[3]));
    assert(m.contains(m[4]) && m.contains(m[5]) && m.contains(m[6]) && m.contains(m[7]));
    assert(m.contains(m[8]) && m.contains(m[9]) && m.contains(m[10]) && m.contains(m[11]));
    assert(m.contains(m[12]));
}

/// What a page shows is what it was given, and the hint only where place names
/// may be given.
pub proof fn law_a_page_is_shown_whole(p: Page)
    ensures
        ({
            let m = page_shown(p)->Object_0;
            &&& page_shown(p) is Object
            &&& m.len() == 10
            &&& m.contains(("any_kind"@, JsonV::Text("__all__"@)))
            &&& m.contains(("catalogue_hash"@, JsonV::Text(p.catalogue_hash@)))
            &&& m.contains(("history_kept"@, JsonV::Bool(p.history_kept)))
            &&& m.contains(("offered"@, json::whole_number(p.offered as int)))
            &&& m.contains(("place_names"@, JsonV::Bool(p.place_names)))
            &&& m.contains(("rails"@, p.rails@))
            &&& m.contains(
                (
                    "house"@,
                    JsonV::Object(
                        seq![
                            ("devices"@, p.devices@),
                            ("kinds"@, json::text_list(text::texts(p.kinds@))),
                            ("places"@, json::text_list(text::texts(p.places@))),
                        ],
                    ),
                ),
            )
            &&& m.contains(("shortcuts"@, p.shortcuts@))
            &&& m.contains(("uses"@, p.uses@))
            &&& m.contains(
                (
                    "hint"@,
                    match p.hint {
                        Some(h) => if p.place_names {
                            JsonV::Text(h@)
                        } else {
                            JsonV::Null
                        },
                        None => JsonV::Null,
                    },
                ),
            )
        }),
{
    let m = page_shown(p)->Object_0;
    assert(m.contains(m[0]) && m.contains(m[1]) && m.contains(m[2]) && m.contains(m[3]));
    assert(m.contains(m[4]) && m.contains(m[5]) && m.contains(m[6]) && m.contains(m[7]));
    assert(m.contains(m[8]) && m.contains(m[9]));
}

/// The facts about a server's house are the three fields it names things in and
/// how many of each are known.
pub proof fn law_the_facts_about_a_house(fields: SlotFieldsV, home: HomeNamesV)
    ensures
        ({
            let m = fact_for(fields, home)->Object_0;
            &&& fact_for(fields, home) is Object
            &&& m.len() == 6
            &&& m.contains(("place"@, json::text_or_null(fields.place)))
            &&& m.contains(("device"@, json::text_or_null(fields.device)))
            &&& m.contains(("kind"@, json::text_or_null(fields.kind)))
            &&& m.contains(("areas"@, counted(fields.place, home.places)))
            &&& m.contains(("devices"@, counted(fields.device, home.devices)))
            &&& m.contains(("kinds"@, counted(fields.kind, home.kinds)))
        }),
{
    let m = fact_for(fields, home)->Object_0;
    assert(m.contains(m[0]) && m.contains(m[1]) && m.contains(m[2]));
    assert(m.contains(m[3]) && m.contains(m[4]) && m.contains(m[5]));
}

/// What a remembered call is aimed at is told by what its tool's name says of the
/// server it is for, and not at all where its arguments cannot be read.
pub proof fn law_a_remembered_call_is_aimed(tool: Seq<char>, sent: JsonV)
    ensures
        target_said(tool, None) is None,
        text::begins_with(tool, "Hass"@) ==> target_said(tool, Some(sent)) == target_of(
            vendor::house_fields(),
            sent,
        ),
        !text::begins_with(tool, "Hass"@) ==> target_said(tool, Some(sent)) is None,
{
    let one = seq![tool];
    vendor::law_a_server_is_known_by_its_shape(one, sent);
    assert(one[0] == tool);
    law_no_fields_no_aim(sent);
}

/// The servers that are listed are those some row names, each once and in order;
/// the tools that are shown are those that were used.
pub proof fn law_who_is_listed(
    names: Seq<Seq<char>>,
    rows: Seq<ToolRowV>,
    uses: Seq<ToolUseV>,
    s: Seq<char>,
    i: int,
    j: int,
)
    requires
        lists_servers(names, rows),
    ensures
        names.contains(s) <==> exists|k: int| 0 <= k < rows.len() && (#[trigger] rows[k]).source == s,
        0 <= i < j < names.len() ==> order::text_order(names[i], names[j]) < 0,
        was_used(uses, s) <==> exists|k: int| 0 <= k < uses.len() && (#[trigger] uses[k]).tool == s,
{
    if 0 <= i < j < names.len() {
        order::law_a_row_in_order::<String>(names, i, j);
    }
}

/// An object's keys are those of its members, one for one.
pub proof fn law_the_keys_of_an_object(m: Seq<(Seq<char>, JsonV)>, i: int)
    ensures
        keys_of(m).len() == m.len(),
        0 <= i < m.len() ==> keys_of(m)[i] == m[i].0,
{
}

/// What a model that cannot act is told.
pub proof fn law_what_a_model_that_cannot_act_is_told()
    ensures
        CANNOT_ACT@
            == "You cannot control any devices or run any tools in this conversation. If asked to, say plainly that you are unable to, and do not claim to have done it."@,
        USES_PER_TOOL == 4,
{
}

} // verus!
