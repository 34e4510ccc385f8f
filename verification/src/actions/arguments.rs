//! What is done to a call's arguments before they leave.
//!
//! A model fills in fields because they are there, names a kind the house
//! contradicts, and writes values no server accepts. Three steps, in this
//! order, keep that from costing a command: blank fields are dropped, what the
//! house already stated is settled, and what is left is held against the schema
//! the model was shown.

use vstd::prelude::*;

use super::call::ToolCall;
use super::vendor::{for_catalogue, Family, SlotFields, SlotFieldsV, Vendor};
use super::vendor;
use crate::json;
use crate::json::position;
use crate::text;
use crate::text::{blank, has_text, join, lowercase, own, same, strip, trim, Kind};
use crate::value;
use crate::value::{Json, JsonV};

verus! {

broadcast use crate::value::group_json_views;

/// The word a model may write for "every kind of thing in this area".
pub open spec fn any_kind() -> Seq<char> {
    "__all__"@
}

/// The word a model may write for "every kind of thing in this area".
///
/// Nothing outside this library has ever heard of it, so it is taken back
/// before a call leaves.
pub const ANY_KIND: &'static str = "__all__";

// ---------------------------------------------------------------------------
// Dropping what says nothing
// ---------------------------------------------------------------------------

/// Whether a value says nothing: `null`, a blank text, an empty list or an
/// empty object.
pub open spec fn is_blank(v: JsonV) -> bool {
    match v {
        JsonV::Null => true,
        JsonV::Text(s) => text::is_blank_text(s),
        JsonV::List(a) => a.len() == 0,
        JsonV::Object(m) => m.len() == 0,
        _ => false,
    }
}

/// A value without the blank members of its objects, at any depth.
pub open spec fn without_blanks(v: JsonV) -> JsonV
    decreases v,
{
    match v {
        JsonV::Object(m) => JsonV::Object(members_without_blanks(m)),
        other => other,
    }
}

/// Members without the blank ones.
pub open spec fn members_without_blanks(m: Seq<(Seq<char>, JsonV)>) -> Seq<(Seq<char>, JsonV)>
    decreases m,
{
    if m.len() == 0 {
        Seq::empty()
    } else {
        let before = members_without_blanks(m.drop_last());
        let v = without_blanks(m.last().1);
        if is_blank(v) {
            before
        } else {
            before.push((m.last().0, v))
        }
    }
}

fn says_nothing(v: &Json) -> (r: bool)
    ensures
        r == is_blank(v@),
{
    match v {
        Json::Null => true,
        Json::Text(s) => blank(s),
        Json::List(a) => {
            assert(value::items(a@).len() == a@.len());
            a.len() == 0
        },
        Json::Object(m) => {
            assert(value::members(m@).len() == m@.len());
            m.len() == 0
        },
        _ => false,
    }
}

/// Drop arguments the model filled in with nothing.
///
/// A key the caller did not mean to set and a key it left blank are the same
/// request, so the blank ones are removed before the server sees them: `null`,
/// the empty string, the empty list and the empty object, at the top level and
/// inside nested objects. Anything with a value is passed through untouched.
pub fn drop_empty_arguments(args: &Json) -> (r: Json)
    ensures
        r@ == without_blanks(args@),
    decreases args,
{
    match args {
        Json::Object(m) => {
            let ghost all = value::members(m@);
            let mut out: Vec<(String, Json)> = Vec::new();
            assert(value::members(out@) =~= members_without_blanks(all.take(0)));
            for i in 0..m.len()
                invariant
                    args == Json::Object(*m),
                    all == value::members(m@),
                    value::members(out@) == members_without_blanks(all.take(i as int)),
            {
                assert(decreases_to!(*args => args->Object_0));
                let ghost before = value::members(out@);
                proof {
                    assert(all.take(i + 1).drop_last() == all.take(i as int));
                    assert(all[i as int] == (m@[i as int].0@, m@[i as int].1@));
                }
                let kept = drop_empty_arguments(&m[i].1);
                if !says_nothing(&kept) {
                    let ghost pair = (m@[i as int].0@, kept@);
                    out.push((m[i].0.clone(), kept));
                    assert(value::members(out@) =~= before.push(pair));
                }
            }
            assert(all.take(all.len() as int) == all);
            Json::Object(out)
        },
        other => other.copy(),
    }
}

/// A list without the word for everything.
pub open spec fn list_without_any(a: Seq<JsonV>) -> Seq<JsonV>
    decreases a.len(),
{
    if a.len() == 0 {
        Seq::empty()
    } else if a.last() == JsonV::Text(any_kind()) {
        list_without_any(a.drop_last())
    } else {
        list_without_any(a.drop_last()).push(a.last())
    }
}

/// A field's value without the word for everything: nothing where it is the
/// word itself, and the other items where it is a list.
pub open spec fn field_without_any(v: JsonV) -> JsonV {
    match v {
        JsonV::Text(s) => if s == any_kind() {
            JsonV::Null
        } else {
            v
        },
        JsonV::List(a) => JsonV::List(list_without_any(a)),
        other => other,
    }
}

/// Arguments without the word for everything.
pub open spec fn without_any(v: JsonV) -> JsonV {
    match v {
        JsonV::Object(m) => JsonV::Object(
            m.map_values(|p: (Seq<char>, JsonV)| (p.0, field_without_any(p.1))),
        ),
        other => other,
    }
}

fn is_any(v: &Json) -> (r: bool)
    ensures
        r == (v@ == JsonV::Text(any_kind())),
{
    match v {
        Json::Text(s) => same(s, ANY_KIND),
        _ => false,
    }
}

fn strip_any(v: &Json) -> (r: Json)
    ensures
        r@ == field_without_any(v@),
{
    match v {
        Json::Text(s) => if same(s, ANY_KIND) {
            Json::Null
        } else {
            Json::Text(s.clone())
        },
        Json::List(a) => {
            let ghost all = value::items(a@);
            let mut out: Vec<Json> = Vec::new();
            assert(value::items(out@) =~= list_without_any(all.take(0)));
            for i in 0..a.len()
                invariant
                    all == value::items(a@),
                    value::items(out@) == list_without_any(all.take(i as int)),
            {
                let ghost before = value::items(out@);
                proof {
                    assert(all.take(i + 1).drop_last() == all.take(i as int));
                    assert(all[i as int] == a@[i as int]@);
                }
                if !is_any(&a[i]) {
                    out.push(a[i].copy());
                    assert(value::items(out@) =~= before.push(all[i as int]));
                }
            }
            assert(all.take(all.len() as int) == all);
            Json::List(out)
        },
        other => other.copy(),
    }
}

/// Take back the one word the model was offered that no server accepts.
///
/// The field goes back to being blank, which [`drop_empty_arguments`] reads as
/// absent — and absent is exactly what "everything" has always meant to a
/// server.
pub fn drop_any_kind(args: &Json) -> (r: Json)
    ensures
        r@ == without_any(args@),
{
    match args {
        Json::Object(m) => {
            let mut out: Vec<(String, Json)> = Vec::new();
            for i in 0..m.len()
                invariant
                    out@.len() == i,
                    forall|k: int|
                        0 <= k < i ==> out@[k].0@ == m@[k].0@ && out@[k].1@ == field_without_any(
                            m@[k].1@,
                        ),
            {
                out.push((m[i].0.clone(), strip_any(&m[i].1)));
            }
            assert(value::members(out@) =~= value::members(m@).map_values(
                |p: (Seq<char>, JsonV)| (p.0, field_without_any(p.1)),
            ));
            Json::Object(out)
        },
        other => other.copy(),
    }
}

// ---------------------------------------------------------------------------
// What the house already stated
// ---------------------------------------------------------------------------

/// One device of the catalogue.
#[derive(Debug, Clone)]
pub struct Device {
    pub name: String,
    pub domain: String,
}

/// What a [`Device`] says.
pub struct DeviceV {
    pub name: Seq<char>,
    pub domain: Seq<char>,
}

impl View for Device {
    type V = DeviceV;

    open spec fn view(&self) -> DeviceV {
        DeviceV { name: self.name@, domain: self.domain@ }
    }
}

/// What a list of devices says.
pub open spec fn devices_say(v: Seq<Device>) -> Seq<DeviceV> {
    v.map_values(|d: Device| d@)
}

/// A name folded for comparison.
pub open spec fn folded(name: Seq<char>) -> Seq<char> {
    text::lowered(text::trimmed(name))
}

fn fold(name: &str) -> (r: String)
    ensures
        r@ == folded(name@),
{
    let t = trim(name);
    lowercase(&t)
}

/// What this home already told us about the things in it.
#[derive(Debug, Clone)]
pub struct HouseFacts {
    /// Which published argument carries a device name and which carries a kind,
    /// asked of the vendor rather than assumed. A server naming neither leaves
    /// everything below inert.
    pub slots: SlotFields,
    /// Device name, folded for comparison, to the single kind it is. A name
    /// this home uses for two kinds of thing is left out.
    pub kind_of: Vec<(String, String)>,
    /// Names this home uses for exactly one device. Such a name is the whole
    /// address of a thing. A name two devices share is left out — there the
    /// area is the only thing telling them apart.
    pub sole: Vec<String>,
}

/// What a [`HouseFacts`] says.
pub struct HouseFactsV {
    pub slots: SlotFieldsV,
    pub kind_of: Seq<(Seq<char>, Seq<char>)>,
    pub sole: Seq<Seq<char>>,
}

impl View for HouseFacts {
    type V = HouseFactsV;

    open spec fn view(&self) -> HouseFactsV {
        HouseFactsV {
            slots: self.slots@,
            kind_of: self.kind_of@.map_values(|p: (String, String)| (p.0@, p.1@)),
            sole: text::texts(self.sole@),
        }
    }
}

/// The kind recorded for a name.
pub open spec fn kind_for(pairs: Seq<(Seq<char>, Seq<char>)>, key: Seq<char>) -> Option<Seq<char>>
    decreases pairs.len(),
{
    if pairs.len() == 0 {
        None
    } else if pairs[0].0 == key {
        Some(pairs[0].1)
    } else {
        kind_for(pairs.drop_first(), key)
    }
}

/// How many devices answer to a folded name.
pub open spec fn bearers(devices: Seq<DeviceV>, key: Seq<char>) -> nat
    decreases devices.len(),
{
    if devices.len() == 0 {
        0
    } else {
        bearers(devices.drop_last(), key) + (if folded(devices.last().name) == key {
            1nat
        } else {
            0nat
        })
    }
}

/// Whether every device that answers to a folded name is of one kind, and one
/// does.
pub open spec fn one_kind(devices: Seq<DeviceV>, key: Seq<char>, kind: Seq<char>) -> bool {
    &&& bearers(devices, key) > 0
    &&& forall|i: int|
        0 <= i < devices.len() && folded((#[trigger] devices[i]).name) == key ==> devices[i].domain
            == kind
}

proof fn lemma_bearers(devices: Seq<DeviceV>, key: Seq<char>)
    ensures
        bearers(devices, key) > 0 <==> exists|i: int|
            0 <= i < devices.len() && folded((#[trigger] devices[i]).name) == key,
    decreases devices.len(),
{
    if devices.len() > 0 {
        let rest = devices.drop_last();
        lemma_bearers(rest, key);
        if bearers(rest, key) > 0 {
            let i = choose|i: int| 0 <= i < rest.len() && folded((#[trigger] rest[i]).name) == key;
            assert(devices[i] == rest[i]);
        }
        if folded(devices.last().name) == key {
            assert(devices[devices.len() - 1] == devices.last());
        }
        if exists|i: int| 0 <= i < devices.len() && folded((#[trigger] devices[i]).name) == key {
            let i = choose|i: int|
                0 <= i < devices.len() && folded((#[trigger] devices[i]).name) == key;
            if i < rest.len() {
                assert(rest[i] == devices[i]);
            }
        }
    }
}

fn count_bearers(keys: &Vec<String>, key: &str, Ghost(devices): Ghost<Seq<DeviceV>>) -> (r: usize)
    requires
        text::texts(keys@) == devices.map_values(|d: DeviceV| folded(d.name)),
    ensures
        r == bearers(devices, key@),
{
    let mut n: usize = 0;
    let ghost all = text::texts(keys@);
    for i in 0..keys.len()
        invariant
            all == text::texts(keys@),
            all == devices.map_values(|d: DeviceV| folded(d.name)),
            all.len() == keys@.len(),
            devices.len() == all.len(),
            n <= i,
            n == bearers(devices.take(i as int), key@),
    {
        proof {
            assert(devices.take(i + 1).drop_last() == devices.take(i as int));
            assert(all[i as int] == keys@[i as int]@);
            assert(all[i as int] == folded(devices[i as int].name));
        }
        if same(&keys[i], key) {
            n = n + 1;
        }
    }
    assert(devices.take(devices.len() as int) == devices);
    n
}

proof fn lemma_kind_pushed(
    pairs: Seq<(Seq<char>, Seq<char>)>,
    key: Seq<char>,
    kind: Seq<char>,
    other: Seq<char>,
)
    ensures
        kind_for(pairs.push((key, kind)), other) == (if kind_for(pairs, other) is Some {
            kind_for(pairs, other)
        } else if other == key {
            Some(kind)
        } else {
            None
        }),
    decreases pairs.len(),
{
    let more = pairs.push((key, kind));
    if pairs.len() == 0 {
        assert(more.drop_first() =~= Seq::empty());
    } else {
        assert(more.drop_first() == pairs.drop_first().push((key, kind)));
        lemma_kind_pushed(pairs.drop_first(), key, kind, other);
    }
}

/// The kind recorded for a name.
fn look_up(pairs: &Vec<(String, String)>, key: &str) -> (r: Option<String>)
    ensures
        text::opt_text(r) == kind_for(
            pairs@.map_values(|p: (String, String)| (p.0@, p.1@)),
            key@,
        ),
{
    let ghost all = pairs@.map_values(|p: (String, String)| (p.0@, p.1@));
    assert(all.skip(0) == all);
    for i in 0..pairs.len()
        invariant
            all == pairs@.map_values(|p: (String, String)| (p.0@, p.1@)),
            kind_for(all, key@) == kind_for(all.skip(i as int), key@),
    {
        proof {
            assert(all.skip(i as int).drop_first() == all.skip(i + 1));
            assert(all.skip(i as int)[0] == (pairs@[i as int].0@, pairs@[i as int].1@));
        }
        if same(&pairs[i].0, key) {
            return Some(pairs[i].1.clone());
        }
    }
    None
}

/// Whether every device under a folded name is of the kind given.
fn all_of_kind(
    devices: &Vec<Device>,
    keys: &Vec<String>,
    key: &str,
    kind: &str,
) -> (r: bool)
    requires
        text::texts(keys@) == devices_say(devices@).map_values(|d: DeviceV| folded(d.name)),
    ensures
        r == forall|i: int|
            0 <= i < devices@.len() && folded((#[trigger] devices_say(devices@)[i]).name) == key@
                ==> devices_say(devices@)[i].domain == kind@,
{
    let ghost all = devices_say(devices@);
    let ghost folds = text::texts(keys@);
    assert(folds.len() == keys@.len() && folds.len() == all.len());
    for i in 0..devices.len()
        invariant
            all == devices_say(devices@),
            folds == text::texts(keys@),
            folds == all.map_values(|d: DeviceV| folded(d.name)),
            keys@.len() == devices@.len(),
            forall|k: int|
                0 <= k < i && folded((#[trigger] all[k]).name) == key@ ==> all[k].domain == kind@,
    {
        proof {
            assert(folds[i as int] == keys@[i as int]@);
            assert(folds[i as int] == folded(all[i as int].name));
            assert(all[i as int] == devices@[i as int]@);
        }
        if same(&keys[i], key) && !same(&devices[i].domain, kind) {
            return false;
        }
    }
    true
}

/// Whether a kind is recorded for a name exactly where the devices are of one
/// kind and one of the first `n` answers to the name.
spec fn kind_known(
    pairs: Seq<(Seq<char>, Seq<char>)>,
    all: Seq<DeviceV>,
    n: int,
    key: Seq<char>,
    kind: Seq<char>,
) -> bool {
    kind_for(pairs, key) == Some(kind) <==> (one_kind(all, key, kind) && bearers(all.take(n), key)
        > 0)
}

spec fn kinds_so_far(pairs: Seq<(Seq<char>, Seq<char>)>, all: Seq<DeviceV>, n: int) -> bool {
    forall|key: Seq<char>, kind: Seq<char>| #[trigger] kind_known(pairs, all, n, key, kind)
}

proof fn lemma_kinds_step(
    before: Seq<(Seq<char>, Seq<char>)>,
    after: Seq<(Seq<char>, Seq<char>)>,
    all: Seq<DeviceV>,
    n: int,
)
    requires
        0 <= n < all.len(),
        kinds_so_far(before, all, n),
        ({
            let key = folded(all[n].name);
            let kind = all[n].domain;
            if kind_for(before, key) is None && one_kind(all, key, kind) {
                after == before.push((key, kind))
            } else {
                after == before
            }
        }),
    ensures
        kinds_so_far(after, all, n + 1),
{
    let key = folded(all[n].name);
    let kind = all[n].domain;
    assert(all.take(n + 1).drop_last() == all.take(n));
    assert forall|k: Seq<char>, d: Seq<char>| #[trigger] kind_known(after, all, n + 1, k, d) by {
        assert(kind_known(before, all, n, k, d));
        lemma_kind_pushed(before, key, kind, k);
        if k == key {
            if kind_for(before, key) is Some {
                assert(kind_known(before, all, n, key, kind_for(before, key)->0));
            }
            if one_kind(all, key, d) {
                assert(folded(all[n].name) == key);
                assert(d == kind);
            }
        }
    }
}

/// The facts the catalogue's devices amount to.
pub open spec fn learned_from(
    facts: HouseFactsV,
    devices: Seq<DeviceV>,
    tools: Seq<Seq<char>>,
) -> bool {
    &&& facts.slots == vendor::fields_of(vendor::family_offering(tools))
    &&& forall|key: Seq<char>, kind: Seq<char>|
        #![trigger one_kind(devices, key, kind)]
        kind_for(facts.kind_of, key) == Some(kind) <==> one_kind(devices, key, kind)
    &&& forall|key: Seq<char>|
        #[trigger] facts.sole.contains(key) <==> bearers(devices, key) == 1
}

impl HouseFacts {
    /// Facts that leave every call exactly as written.
    pub fn none() -> (r: HouseFacts)
        ensures
            r@.slots == vendor::no_fields(),
            r@.kind_of.len() == 0,
            r@.sole.len() == 0,
    {
        HouseFacts { slots: SlotFields::default(), kind_of: Vec::new(), sole: Vec::new() }
    }

    /// Learn which kind each named device is, and which names belong to one
    /// device alone, from the devices the catalogue holds.
    pub fn learn(devices: &Vec<Device>, tools: &Vec<&str>) -> (r: HouseFacts)
        ensures
            learned_from(r@, devices_say(devices@), text::texts(tools@)),
    {
        let slots = for_catalogue(tools).slot_fields();
        let ghost all = devices_say(devices@);
        let mut keys: Vec<String> = Vec::new();
        for i in 0..devices.len()
            invariant
                keys@.len() == i,
                forall|k: int| 0 <= k < i ==> keys@[k]@ == folded(devices@[k]@.name),
        {
            keys.push(fold(&devices[i].name));
        }
        assert(text::texts(keys@) =~= all.map_values(|d: DeviceV| folded(d.name)));
        let mut kind_of: Vec<(String, String)> = Vec::new();
        let mut sole: Vec<String> = Vec::new();
        let ghost mut pairs: Seq<(Seq<char>, Seq<char>)> = Seq::empty();
        assert(kind_of@.map_values(|p: (String, String)| (p.0@, p.1@)) =~= pairs);
        assert(text::texts(sole@) =~= Seq::empty());
        assert(kinds_so_far(pairs, all, 0)) by {
            assert forall|key: Seq<char>, kind: Seq<char>| #[trigger]
                kind_known(pairs, all, 0, key, kind) by {
                assert(all.take(0).len() == 0);
            }
        }
        for i in 0..devices.len()
            invariant
                all == devices_say(devices@),
                keys@.len() == devices@.len(),
                text::texts(keys@) == all.map_values(|d: DeviceV| folded(d.name)),
                forall|k: int| 0 <= k < keys@.len() ==> keys@[k]@ == folded(devices@[k]@.name),
                pairs == kind_of@.map_values(|p: (String, String)| (p.0@, p.1@)),
                kinds_so_far(pairs, all, i as int),
                forall|key: Seq<char>|
                    #[trigger] text::texts(sole@).contains(key) <==> bearers(all, key) == 1
                        && bearers(all.take(i as int), key) > 0,
        {
            let ghost key = keys@[i as int]@;
            let ghost kind = devices@[i as int].domain@;
            proof {
                assert(all.take(i + 1).drop_last() == all.take(i as int));
                assert(all[i as int] == devices@[i as int]@);
                lemma_bearers(all, key);
                assert(folded(all[i as int].name) == key);
            }
            let ghost before_pairs = pairs;
            if look_up(&kind_of, &keys[i]).is_none() && all_of_kind(
                devices,
                &keys,
                &keys[i],
                &devices[i].domain,
            ) {
                kind_of.push((keys[i].clone(), devices[i].domain.clone()));
                proof {
                    pairs = pairs.push((key, kind));
                    assert(kind_of@.map_values(|p: (String, String)| (p.0@, p.1@)) =~= pairs);
                    assert(one_kind(all, key, kind));
                }
            }
            proof {
                lemma_kinds_step(before_pairs, pairs, all, i as int);
            }
            let ghost before = text::texts(sole@);
            let n = count_bearers(&keys, &keys[i], Ghost(all));
            if n == 1 {
                sole.push(keys[i].clone());
                assert(text::texts(sole@) =~= before.push(key));
            }
            proof {
                assert forall|k: Seq<char>| #[trigger] text::texts(sole@).contains(k) <==> bearers(
                    all,
                    k,
                ) == 1 && bearers(all.take(i + 1), k) > 0 by {
                    if n == 1 {
                        lemma_contains_pushed(before, key, k);
                    }
                    assert(before.contains(k) <==> bearers(all, k) == 1 && bearers(
                        all.take(i as int),
                        k,
                    ) > 0);
                }
            }
        }
        assert(all.take(all.len() as int) == all);
        let facts = HouseFacts { slots, kind_of, sole };
        proof {
            assert forall|key: Seq<char>, kind: Seq<char>|
                #![trigger one_kind(all, key, kind)]
                kind_for(facts@.kind_of, key) == Some(kind) <==> one_kind(all, key, kind) by {
                assert(kind_known(pairs, all, all.len() as int, key, kind));
            }
        }
        facts
    }
}

proof fn lemma_contains_pushed(s: Seq<Seq<char>>, x: Seq<char>, y: Seq<char>)
    ensures
        s.push(x).contains(y) <==> s.contains(y) || y == x,
{
    if s.contains(y) {
        let i = choose|i: int| 0 <= i < s.len() && s[i] == y;
        assert(s.push(x)[i] == y);
    }
    assert(s.push(x)[s.len() as int] == x);
    if s.push(x).contains(y) {
        let i = choose|i: int| 0 <= i < s.push(x).len() && s.push(x)[i] == y;
        if i < s.len() {
            assert(s[i] == y);
        }
    }
}

// ---------------------------------------------------------------------------
// Settling it
// ---------------------------------------------------------------------------

/// Members with the value under `key` replaced.
pub open spec fn with_value(m: Seq<(Seq<char>, JsonV)>, key: Seq<char>, v: JsonV) -> Seq<
    (Seq<char>, JsonV),
> {
    let i = json::key_at(m, key);
    if 0 <= i < m.len() {
        m.update(i, (key, v))
    } else {
        m
    }
}

/// Members without those under `key`.
pub open spec fn without_key(m: Seq<(Seq<char>, JsonV)>, key: Seq<char>) -> Seq<(Seq<char>, JsonV)>
    decreases m.len(),
{
    if m.len() == 0 {
        Seq::empty()
    } else if m.last().0 == key {
        without_key(m.drop_last(), key)
    } else {
        without_key(m.drop_last(), key).push(m.last())
    }
}

/// Whether the kind written for a device is the one the house states. Nothing
/// is claimed of a value that is neither a text nor a list.
pub open spec fn kind_agrees(written: JsonV, kind: Seq<char>) -> bool {
    match written {
        JsonV::Text(s) => s == kind,
        JsonV::List(a) => a.len() == 1 && a[0] == JsonV::Text(kind),
        _ => true,
    }
}

/// The kind the house states, in the shape the written one had.
pub open spec fn in_shape(written: JsonV, kind: Seq<char>) -> JsonV {
    match written {
        JsonV::List(_) => JsonV::List(seq![JsonV::Text(kind)]),
        _ => JsonV::Text(kind),
    }
}

/// What is written down about a kind that was put right.
pub open spec fn kind_note(
    field: Seq<char>,
    written: JsonV,
    named: Seq<char>,
    kind: Seq<char>,
) -> Seq<char> {
    field + " was "@ + text::stripped(json::compact(written), Kind::DoubleQuote)
        + ", but this home says "@ + named + " is a "@ + kind
}

/// What is written down about a field that was dropped.
pub open spec fn drop_note(field: Seq<char>, named: Seq<char>) -> Seq<char> {
    field + " was dropped: "@ + named + " is one device in this home"@
}

/// Members and what was noted about them so far.
pub struct Settled {
    pub members: Seq<(Seq<char>, JsonV)>,
    pub notes: Seq<Seq<char>>,
}

/// The kind of the named device, put right where the house contradicts it.
pub open spec fn settle_kind(
    m: Seq<(Seq<char>, JsonV)>,
    field: Option<Seq<char>>,
    kind: Option<Seq<char>>,
    named: Seq<char>,
) -> Settled {
    match (field, kind) {
        (Some(f), Some(k)) => match json::field(JsonV::Object(m), f) {
            Some(w) => if kind_agrees(w, k) {
                Settled { members: m, notes: Seq::empty() }
            } else {
                Settled {
                    members: with_value(m, f, in_shape(w, k)),
                    notes: seq![kind_note(f, w, named, k)],
                }
            },
            None => Settled { members: m, notes: Seq::empty() },
        },
        _ => Settled { members: m, notes: Seq::empty() },
    }
}

/// One field dropped, where the call carries it.
pub open spec fn settle_place(s: Settled, field: Option<Seq<char>>, named: Seq<char>) -> Settled {
    match field {
        Some(f) => if json::key_at(s.members, f) >= 0 {
            Settled {
                members: without_key(s.members, f),
                notes: s.notes.push(drop_note(f, named)),
            }
        } else {
            s
        },
        None => s,
    }
}

/// What the house makes of a call that names a device.
pub open spec fn settled(facts: HouseFactsV, m: Seq<(Seq<char>, JsonV)>, named: Seq<char>) -> Settled {
    let key = folded(named);
    let a = settle_kind(m, facts.slots.kind, kind_for(facts.kind_of, key), named);
    if facts.sole.contains(key) {
        settle_place(
            settle_place(a, facts.slots.place, named),
            facts.slots.wider_place,
            named,
        )
    } else {
        a
    }
}

/// The device a call names, where the server has a field for one.
pub open spec fn named_in(facts: HouseFactsV, args: JsonV) -> Option<Seq<char>> {
    match facts.slots.device {
        Some(f) => json::text_field(args, f),
        None => None,
    }
}

/// The arguments as the house has them.
pub open spec fn agreed(facts: HouseFactsV, args: JsonV) -> JsonV {
    match (args, named_in(facts, args)) {
        (JsonV::Object(m), Some(named)) => JsonV::Object(settled(facts, m, named).members),
        _ => args,
    }
}

/// What was put right.
pub open spec fn agreed_notes(facts: HouseFactsV, args: JsonV) -> Seq<Seq<char>> {
    match (args, named_in(facts, args)) {
        (JsonV::Object(m), Some(named)) => settled(facts, m, named).notes,
        _ => Seq::empty(),
    }
}

/// Notes as one sentence, or none where there are none.
pub open spec fn noted(notes: Seq<Seq<char>>) -> Option<Seq<char>> {
    if notes.len() == 0 {
        None
    } else {
        Some(text::joined(notes, "; "@))
    }
}

fn copy_members(m: &Vec<(String, Json)>) -> (r: Vec<(String, Json)>)
    ensures
        value::members(r@) == value::members(m@),
{
    let mut out: Vec<(String, Json)> = Vec::new();
    for i in 0..m.len()
        invariant
            out@.len() == i,
            forall|k: int| 0 <= k < i ==> out@[k].0@ == m@[k].0@ && out@[k].1@ == m@[k].1@,
    {
        out.push((m[i].0.clone(), m[i].1.copy()));
    }
    assert(value::members(out@) =~= value::members(m@));
    out
}

fn drop_key(m: &Vec<(String, Json)>, key: &str) -> (r: Vec<(String, Json)>)
    ensures
        value::members(r@) == without_key(value::members(m@), key@),
{
    let ghost all = value::members(m@);
    let mut out: Vec<(String, Json)> = Vec::new();
    assert(value::members(out@) =~= without_key(all.take(0), key@));
    for i in 0..m.len()
        invariant
            all == value::members(m@),
            value::members(out@) == without_key(all.take(i as int), key@),
    {
        let ghost before = value::members(out@);
        proof {
            assert(all.take(i + 1).drop_last() == all.take(i as int));
            assert(all[i as int] == (m@[i as int].0@, m@[i as int].1@));
        }
        if !same(&m[i].0, key) {
            out.push((m[i].0.clone(), m[i].1.copy()));
            assert(value::members(out@) =~= before.push(all[i as int]));
        }
    }
    assert(all.take(all.len() as int) == all);
    out
}

fn agrees(written: &Json, kind: &str) -> (r: bool)
    ensures
        r == kind_agrees(written@, kind@),
{
    match written {
        Json::Text(s) => same(s, kind),
        Json::List(a) => {
            assert(value::items(a@).len() == a@.len());
            if a.len() != 1 {
                return false;
            }
            assert(value::items(a@)[0] == a@[0]@);
            match a[0].as_text() {
                Some(t) => same(t, kind),
                None => false,
            }
        },
        _ => true,
    }
}

fn shaped(written: &Json, kind: &str) -> (r: Json)
    ensures
        r@ == in_shape(written@, kind@),
{
    match written {
        Json::List(_) => {
            let mut list: Vec<Json> = Vec::new();
            list.push(Json::Text(own(kind)));
            assert(value::items(list@) =~= seq![JsonV::Text(kind@)]);
            Json::List(list)
        },
        _ => Json::Text(own(kind)),
    }
}

fn note_kind(field: &str, written: &Json, named: &str, kind: &str) -> (r: String)
    ensures
        r@ == kind_note(field@, written@, named@, kind@),
{
    let mut out = own(field);
    out.append(" was ");
    let whole = written.to_text();
    let bare = strip(&whole, Kind::DoubleQuote);
    out.append(&bare);
    out.append(", but this home says ");
    out.append(named);
    out.append(" is a ");
    out.append(kind);
    out
}

fn note_drop(field: &str, named: &str) -> (r: String)
    ensures
        r@ == drop_note(field@, named@),
{
    let mut out = own(field);
    out.append(" was dropped: ");
    out.append(named);
    out.append(" is one device in this home");
    out
}

/// [`settle_place`].
fn drop_place(
    m: Vec<(String, Json)>,
    notes: &mut Vec<String>,
    field: Option<&'static str>,
    named: &str,
) -> (r: Vec<(String, Json)>)
    ensures
        ({
            let before = Settled { members: value::members(m@), notes: text::texts(old(notes)@) };
            let after = settle_place(before, text::opt_str(field), named@);
            &&& value::members(r@) == after.members
            &&& text::texts(final(notes)@) == after.notes
        }),
{
    match field {
        Some(f) => if position(&m, f).is_some() {
            let ghost before = text::texts(notes@);
            let note = note_drop(f, named);
            notes.push(note);
            assert(text::texts(notes@) =~= before.push(note@));
            drop_key(&m, f)
        } else {
            m
        },
        None => m,
    }
}

/// [`settle_kind`].
fn put_kind_right(
    m: &Vec<(String, Json)>,
    notes: &mut Vec<String>,
    field: Option<&'static str>,
    kind: &Option<String>,
    named: &str,
) -> (r: Vec<(String, Json)>)
    requires
        old(notes)@.len() == 0,
    ensures
        ({
            let after = settle_kind(
                value::members(m@),
                text::opt_str(field),
                text::opt_text(*kind),
                named@,
            );
            &&& value::members(r@) == after.members
            &&& text::texts(final(notes)@) == after.notes
        }),
{
    let ghost all = value::members(m@);
    let mut out = copy_members(m);
    assert(text::texts(notes@) =~= Seq::empty());
    if let (Some(f), Some(k)) = (field, kind) {
        if let Some(i) = position(&out, f) {
            assert(all[i as int].1 == out@[i as int].1@);
            assert(json::field(JsonV::Object(all), f@) == Some(out@[i as int].1@));
            if !agrees(&out[i].1, k) {
                let note = note_kind(f, &out[i].1, named, k);
                let fixed = shaped(&out[i].1, k);
                let ghost value = fixed@;
                let ghost before = out@;
                notes.push(note);
                assert(text::texts(notes@) =~= seq![note@]);
                out.set(i, (own(f), fixed));
                assert(value::members(out@) =~= all.update(i as int, (f@, value)));
            }
        }
    }
    out
}

impl HouseFacts {
    /// Make the call agree with the house that was published.
    ///
    /// Two things a command says about a device are not the model's to decide,
    /// because this home already stated them: what kind of thing the device is,
    /// and — when the name belongs to one device only — where it is. A kind that
    /// contradicts the house is corrected, keeping whichever shape it was
    /// written in; an area beside a name only one device answers to is dropped,
    /// along with anything an area is itself inside.
    ///
    /// Silent when the named device is unknown, when the name is shared by two
    /// devices, when the kind already agrees, and for any server whose field
    /// names are not known. In each of those the call goes out as written.
    pub fn agree(&self, args: &Json) -> (r: (Json, Option<String>))
        ensures
            r.0@ == agreed(self@, args@),
            text::opt_text(r.1) == noted(agreed_notes(self@, args@)),
    {
        let field = match self.slots.device {
            Some(f) => f,
            None => {
                return (args.copy(), None);
            },
        };
        let named = match args.get_text(field) {
            Some(n) => n,
            None => {
                return (args.copy(), None);
            },
        };
        match args {
            Json::Object(m) => {
                let key = fold(named);
                let kind = look_up(&self.kind_of, &key);
                let mut notes: Vec<String> = Vec::new();
                let mut out = put_kind_right(m, &mut notes, self.slots.kind, &kind, named);
                if has_text(&self.sole, &key) {
                    out = drop_place(out, &mut notes, self.slots.place, named);
                    out = drop_place(out, &mut notes, self.slots.wider_place, named);
                }
                assert(text::texts(notes@).len() == notes@.len());
                let note = if notes.len() == 0 {
                    None
                } else {
                    Some(join(&notes, "; "))
                };
                (Json::Object(out), note)
            },
            _ => (args.copy(), None),
        }
    }
}

// ---------------------------------------------------------------------------
// The schema
// ---------------------------------------------------------------------------

/// Whether a value is of a type the schema language names. A type word that is
/// not understood refuses nothing.
pub open spec fn of_type(want: Seq<char>, v: JsonV) -> bool {
    if want == "string"@ {
        v is Text
    } else if want == "number"@ {
        v is Number
    } else if want == "integer"@ {
        v is Number && json::is_whole(v->Number_0)
    } else if want == "boolean"@ {
        v is Bool
    } else if want == "array"@ {
        v is List
    } else if want == "object"@ {
        v is Object
    } else if want == "null"@ {
        v is Null
    } else {
        true
    }
}

/// Whether a value is one of those allowed.
pub open spec fn is_allowed(allowed: Seq<JsonV>, v: JsonV) -> bool {
    exists|i: int| 0 <= i < allowed.len() && json::same_json(#[trigger] allowed[i], v)
}

/// What is wrong with one argument, held against what was published for it.
pub open spec fn argument_complaint(key: Seq<char>, published: JsonV, v: JsonV) -> Option<Seq<char>> {
    let allowed = json::list_field(published, "enum"@);
    if allowed is Some && !is_allowed(allowed->0, v) {
        Some(key + " must be one of "@ + text::joined(json::compact_items(allowed->0), ", "@))
    } else {
        match json::text_field(published, "type"@) {
            Some(want) => if of_type(want, v) {
                None
            } else {
                Some(key + " must be a "@ + want)
            },
            None => None,
        }
    }
}

/// What is wrong with the arguments given, in their order. An argument the tool
/// never published is passed over: servers extend themselves.
pub open spec fn complaints(props: JsonV, given: Seq<(Seq<char>, JsonV)>) -> Seq<Seq<char>>
    decreases given.len(),
{
    if given.len() == 0 {
        Seq::empty()
    } else {
        let before = complaints(props, given.drop_last());
        match json::field(props, given.last().0) {
            Some(published) => match argument_complaint(
                given.last().0,
                published,
                given.last().1,
            ) {
                Some(c) => before.push(c),
                None => before,
            },
            None => before,
        }
    }
}

/// What the schema has against the arguments.
pub open spec fn objections(schema: JsonV, args: JsonV) -> Seq<Seq<char>> {
    match (json::field(schema, "properties"@), args) {
        (Some(props), JsonV::Object(given)) => if props is Object {
            complaints(props, given)
        } else {
            Seq::empty()
        },
        _ => Seq::empty(),
    }
}

/// Does a value match a type the schema language names?
///
/// `integer` accepts any number without a fractional part: a model that writes
/// `21.0` for a whole number of degrees is not making the mistake this check is
/// looking for.
pub fn matches_json_type(want: &str, v: &Json) -> (r: bool)
    ensures
        r == of_type(want@, v@),
{
    if same(want, "string") {
        matches!(v, Json::Text(_))
    } else if same(want, "number") {
        matches!(v, Json::Number(_))
    } else if same(want, "integer") {
        v.is_whole_number()
    } else if same(want, "boolean") {
        matches!(v, Json::Bool(_))
    } else if same(want, "array") {
        matches!(v, Json::List(_))
    } else if same(want, "object") {
        matches!(v, Json::Object(_))
    } else if same(want, "null") {
        matches!(v, Json::Null)
    } else {
        true
    }
}

fn allowed_holds(allowed: &Vec<Json>, v: &Json) -> (r: bool)
    ensures
        r == is_allowed(value::items(allowed@), v@),
{
    let ghost all = value::items(allowed@);
    for i in 0..allowed.len()
        invariant
            all == value::items(allowed@),
            forall|k: int| 0 <= k < i ==> !json::same_json(#[trigger] all[k], v@),
    {
        assert(all[i as int] == allowed@[i as int]@);
        if allowed[i].equals(v) {
            return true;
        }
    }
    false
}

fn written_out(list: &Vec<Json>) -> (r: Vec<String>)
    ensures
        text::texts(r@) == json::compact_items(value::items(list@)),
{
    let ghost all = value::items(list@);
    let mut out: Vec<String> = Vec::new();
    assert(text::texts(out@) =~= json::compact_items(all.take(0)));
    for i in 0..list.len()
        invariant
            all == value::items(list@),
            text::texts(out@) == json::compact_items(all.take(i as int)),
    {
        let ghost before = text::texts(out@);
        proof {
            assert(all.take(i + 1).drop_last() == all.take(i as int));
            assert(all[i as int] == list@[i as int]@);
        }
        out.push(list[i].to_text());
        assert(text::texts(out@) =~= before.push(json::compact(all[i as int])));
    }
    assert(all.take(all.len() as int) == all);
    out
}

fn complain(key: &str, published: &Json, v: &Json) -> (r: Option<String>)
    ensures
        text::opt_text(r) == argument_complaint(key@, published@, v@),
{
    if let Some(allowed) = published.get_list("enum") {
        if !allowed_holds(allowed, v) {
            let names = written_out(allowed);
            let list = join(&names, ", ");
            let mut out = own(key);
            out.append(" must be one of ");
            out.append(&list);
            return Some(out);
        }
    }
    match published.get_text("type") {
        Some(want) => if matches_json_type(want, v) {
            None
        } else {
            let mut out = own(key);
            out.append(" must be a ");
            out.append(want);
            Some(out)
        },
        None => None,
    }
}

/// Check the arguments against what the server said it accepts.
///
/// Returns the server's own vocabulary for what is wrong, or `None` when
/// nothing obviously is. Deliberately shallow: only the type of a value and
/// membership of an enumeration are checked, because those are the server's own
/// unambiguous statements about itself. Required fields are not enforced: an
/// advertised schema is routinely stricter than the behaviour behind it.
pub fn schema_complaint(schema: &Json, args: &Json) -> (r: Option<String>)
    ensures
        text::opt_text(r) == noted(objections(schema@, args@)),
{
    let props = match schema.get("properties") {
        Some(p) => p,
        None => {
            return None;
        },
    };
    if !matches!(props, Json::Object(_)) {
        return None;
    }
    match args {
        Json::Object(given) => {
            let ghost all = value::members(given@);
            let mut bad: Vec<String> = Vec::new();
            assert(text::texts(bad@) =~= complaints(props@, all.take(0)));
            for i in 0..given.len()
                invariant
                    all == value::members(given@),
                    text::texts(bad@) == complaints(props@, all.take(i as int)),
            {
                let ghost before = text::texts(bad@);
                proof {
                    assert(all.take(i + 1).drop_last() == all.take(i as int));
                    assert(all[i as int] == (given@[i as int].0@, given@[i as int].1@));
                }
                if let Some(published) = props.get(&given[i].0) {
                    if let Some(c) = complain(&given[i].0, published, &given[i].1) {
                        let ghost said = c@;
                        bad.push(c);
                        assert(text::texts(bad@) =~= before.push(said));
                    }
                }
            }
            assert(all.take(all.len() as int) == all);
            assert(text::texts(bad@).len() == bad@.len());
            if bad.len() == 0 {
                None
            } else {
                Some(join(&bad, "; "))
            }
        },
        _ => None,
    }
}

// ---------------------------------------------------------------------------
// All three
// ---------------------------------------------------------------------------

/// The arguments as they will be sent, before the schema is asked.
pub open spec fn prepared(facts: HouseFactsV, args: JsonV) -> JsonV {
    agreed(facts, without_blanks(without_any(args)))
}

/// What the house put right along the way.
pub open spec fn prepared_notes(facts: HouseFactsV, args: JsonV) -> Seq<Seq<char>> {
    agreed_notes(facts, without_blanks(without_any(args)))
}

/// The arguments a model wrote: nothing at all where they are not JSON.
pub open spec fn written_args(parsed: Option<JsonV>) -> JsonV {
    match parsed {
        Some(v) => v,
        None => JsonV::Null,
    }
}

/// The complaint that keeps a call at home.
pub open spec fn not_sent(tool: Seq<char>, complaint: Seq<char>) -> Seq<char> {
    tool + " was not sent: "@ + complaint + "."@
}

/// Arguments ready to leave, and what was done to them.
pub struct Prepared {
    /// The arguments as they will be sent.
    pub args: Json,
    /// What the house put right, in words.
    pub corrected: Option<String>,
    /// What the schema has against them, in words.
    pub complaint: Option<String>,
}

/// Drop what says nothing, let the house settle what it already knows about the
/// device named, and only then hold the arguments against the schema.
pub fn prepare(schema: &Json, house: &HouseFacts, args: &Json) -> (r: Prepared)
    ensures
        r.args@ == prepared(house@, args@),
        text::opt_text(r.corrected) == noted(prepared_notes(house@, args@)),
        text::opt_text(r.complaint) == noted(objections(schema@, prepared(house@, args@))),
{
    let named = drop_any_kind(args);
    let filled = drop_empty_arguments(&named);
    let (args, corrected) = house.agree(&filled);
    let complaint = schema_complaint(schema, &args);
    Prepared { args, corrected, complaint }
}

/// The arguments a model wrote, read.
pub fn read_args(arguments: &str) -> (r: Json)
    ensures
        r@ == written_args(json::json_value(arguments@)),
{
    match Json::parse(arguments) {
        Some(v) => v,
        None => Json::Null,
    }
}

/// The arguments as they will actually be sent, or the complaint that keeps the
/// call at home.
///
/// The `Err` carries what *would* have been sent beside the complaint, because a
/// run is recorded by the arguments it used whether or not they travelled.
pub fn prepare_args(schema: &Json, house: &HouseFacts, call: &ToolCall) -> (r: Result<
    Json,
    (String, String),
>)
    ensures
        ({
            let args = prepared(house@, written_args(json::json_value(call@.arguments)));
            match noted(objections(schema@, args)) {
                None => r is Ok && r->Ok_0@ == args,
                Some(c) => r is Err && r->Err_0.0@ == json::compact(args) && r->Err_0.1@
                    == not_sent(call@.name, c),
            }
        }),
{
    let written = read_args(&call.arguments);
    let ready = prepare(schema, house, &written);
    match ready.complaint {
        Some(c) => {
            let mut out = own(&call.name);
            out.append(" was not sent: ");
            out.append(&c);
            out.append(".");
            Err((ready.args.to_text(), out))
        },
        None => Ok(ready.args),
    }
}

// ---------------------------------------------------------------------------
// Laws
// ---------------------------------------------------------------------------

/// Whether no object in a value has a blank member, at any depth.
pub open spec fn no_blanks(v: JsonV) -> bool
    decreases v,
{
    match v {
        JsonV::Object(m) => no_blank_members(m),
        _ => true,
    }
}

/// Whether no member is blank, nor any below it.
pub open spec fn no_blank_members(m: Seq<(Seq<char>, JsonV)>) -> bool
    decreases m,
{
    if m.len() == 0 {
        true
    } else {
        no_blank_members(m.drop_last()) && !is_blank(m.last().1) && no_blanks(m.last().1)
    }
}

/// No blank argument is ever sent.
pub proof fn law_no_blank_is_sent(v: JsonV)
    ensures
        no_blanks(without_blanks(v)),
    decreases v,
{
    if let JsonV::Object(m) = v {
        lemma_members_cleared(m);
    }
}

proof fn lemma_members_cleared(m: Seq<(Seq<char>, JsonV)>)
    ensures
        no_blank_members(members_without_blanks(m)),
    decreases m,
{
    if m.len() > 0 {
        lemma_members_cleared(m.drop_last());
        law_no_blank_is_sent(m.last().1);
        let before = members_without_blanks(m.drop_last());
        let x = (m.last().0, without_blanks(m.last().1));
        assert(before.push(x).drop_last() == before);
    }
}

/// What was really asked for goes out untouched: where nothing is blank,
/// nothing is dropped.
pub proof fn law_real_arguments_stay(v: JsonV)
    requires
        no_blanks(v),
    ensures
        without_blanks(v) == v,
    decreases v,
{
    if let JsonV::Object(m) = v {
        lemma_members_stay(m);
    }
}

proof fn lemma_members_stay(m: Seq<(Seq<char>, JsonV)>)
    requires
        no_blank_members(m),
    ensures
        members_without_blanks(m) == m,
    decreases m,
{
    if m.len() > 0 {
        lemma_members_stay(m.drop_last());
        law_real_arguments_stay(m.last().1);
        assert(m =~= m.drop_last().push(m.last()));
    } else {
        assert(m =~= Seq::empty());
    }
}

/// Dropping blanks twice is dropping them once.
pub proof fn law_dropping_twice_is_once(v: JsonV)
    ensures
        without_blanks(without_blanks(v)) == without_blanks(v),
{
    law_no_blank_is_sent(v);
    law_real_arguments_stay(without_blanks(v));
}

/// Whether a field's value neither is the word for everything nor lists it.
pub open spec fn free_of_any(v: JsonV) -> bool {
    &&& v != JsonV::Text(any_kind())
    &&& v matches JsonV::List(a) ==> !a.contains(JsonV::Text(any_kind()))
}

proof fn lemma_list_without_any(a: Seq<JsonV>)
    ensures
        !list_without_any(a).contains(JsonV::Text(any_kind())),
    decreases a.len(),
{
    let word = JsonV::Text(any_kind());
    if a.len() > 0 {
        let before = list_without_any(a.drop_last());
        lemma_list_without_any(a.drop_last());
        if before.push(a.last()).contains(word) && a.last() != word {
            let i = choose|i: int|
                0 <= i < before.push(a.last()).len() && before.push(a.last())[i] == word;
            if i < before.len() {
                assert(before[i] == word);
            }
        }
    }
}

proof fn lemma_cleared_member(m: Seq<(Seq<char>, JsonV)>, i: int)
    requires
        0 <= i < members_without_blanks(m).len(),
    ensures
        exists|j: int|
            0 <= j < m.len() && (members_without_blanks(m)[i].1 == without_blanks(
                (#[trigger] m[j]).1,
            )),
    decreases m,
{
    let before = members_without_blanks(m.drop_last());
    if i < before.len() {
        lemma_cleared_member(m.drop_last(), i);
        let j = choose|j: int|
            0 <= j < m.drop_last().len() && (before[i].1 == without_blanks(
                (#[trigger] m.drop_last()[j]).1,
            ));
        assert(m[j] == m.drop_last()[j]);
        assert(members_without_blanks(m)[i] == before[i]);
    } else {
        assert(m[m.len() - 1] == m.last());
    }
}

/// The word for everything never reaches a server: no argument left after both
/// rules have run is the word or lists it.
pub proof fn law_the_word_for_everything_stays_here(m: Seq<(Seq<char>, JsonV)>, i: int)
    requires
        0 <= i < members_without_blanks(without_any(JsonV::Object(m))->Object_0).len(),
    ensures
        without_blanks(without_any(JsonV::Object(m))) == JsonV::Object(
            members_without_blanks(without_any(JsonV::Object(m))->Object_0),
        ),
        free_of_any(members_without_blanks(without_any(JsonV::Object(m))->Object_0)[i].1),
{
    let mid = without_any(JsonV::Object(m))->Object_0;
    lemma_cleared_member(mid, i);
    let j = choose|j: int|
        0 <= j < mid.len() && (members_without_blanks(mid)[i].1 == without_blanks(
            (#[trigger] mid[j]).1,
        ));
    assert(mid[j].1 == field_without_any(m[j].1));
    if let JsonV::List(a) = m[j].1 {
        lemma_list_without_any(a);
    }
}

/// Whether a device's name and its kind stand in fields of their own, so that
/// putting the kind right does not rename the device.
pub open spec fn name_beside_kind(s: SlotFieldsV) -> bool {
    s.device is Some ==> s.device != s.kind
}

/// Every family of servers that is known names a device and its kind in fields
/// of their own.
pub proof fn law_known_servers_name_beside_kind(f: Family)
    ensures
        name_beside_kind(vendor::fields_of(f)),
{
    reveal_strlit("name");
    reveal_strlit("domain");
    assert("name"@ != "domain"@) by {
        assert("name"@.len() == 4);
        assert("domain"@.len() == 6);
    }
}

proof fn lemma_field_by_key(m: Seq<(Seq<char>, JsonV)>, key: Seq<char>, i: int)
    requires
        0 <= i < m.len(),
        m[i].0 == key,
        forall|j: int| 0 <= j < i ==> (#[trigger] m[j]).0 != key,
    ensures
        json::field(JsonV::Object(m), key) == Some(m[i].1),
{
    json::lemma_key_at(m, key, i);
}

proof fn lemma_with_value(
    m: Seq<(Seq<char>, JsonV)>,
    f: Seq<char>,
    v: JsonV,
    g: Seq<char>,
)
    ensures
        f != g ==> json::field(JsonV::Object(with_value(m, f, v)), g) == json::field(
            JsonV::Object(m),
            g,
        ),
        json::key_at(m, f) >= 0 ==> json::field(JsonV::Object(with_value(m, f, v)), f) == Some(v),
{
    json::lemma_key_found(m, f);
    json::lemma_key_found(m, g);
    let w = with_value(m, f, v);
    if json::key_at(m, f) >= 0 {
        let i = json::key_at(m, f);
        assert forall|j: int| 0 <= j < i implies (#[trigger] w[j]).0 != f by {
            assert(w[j] == m[j]);
        }
        lemma_field_by_key(w, f, i);
    }
    if f != g {
        let i = json::key_at(m, g);
        if i >= 0 {
            assert forall|j: int| 0 <= j < i implies (#[trigger] w[j]).0 != g by {
                assert(m[j].0 != g);
            }
            lemma_field_by_key(w, g, i);
        } else {
            assert forall|j: int| 0 <= j < w.len() implies (#[trigger] w[j]).0 != g by {
                assert(m[j].0 != g);
            }
            json::lemma_key_absent(w, g);
        }
    }
}

proof fn lemma_without_key_members(m: Seq<(Seq<char>, JsonV)>, f: Seq<char>)
    ensures
        forall|j: int|
            0 <= j < without_key(m, f).len() ==> (#[trigger] without_key(m, f)[j]).0 != f,
    decreases m.len(),
{
    if m.len() > 0 {
        lemma_without_key_members(m.drop_last(), f);
        let before = without_key(m.drop_last(), f);
        assert forall|j: int| 0 <= j < without_key(m, f).len() implies (#[trigger] without_key(
            m,
            f,
        )[j]).0 != f by {
            if j < before.len() {
                assert(without_key(m, f)[j] == before[j]);
            }
        }
    }
}

proof fn lemma_key_at_drop_last(m: Seq<(Seq<char>, JsonV)>, g: Seq<char>)
    requires
        m.len() > 0,
    ensures
        json::field(JsonV::Object(m), g) == (if json::key_at(m.drop_last(), g) >= 0 {
            json::field(JsonV::Object(m.drop_last()), g)
        } else if m.last().0 == g {
            Some(m.last().1)
        } else {
            None
        }),
        json::key_at(m, g) >= 0 <==> json::key_at(m.drop_last(), g) >= 0 || m.last().0 == g,
{
    let d = m.drop_last();
    json::lemma_key_found(d, g);
    let i = json::key_at(d, g);
    if i >= 0 {
        assert(m[i] == d[i]);
        assert forall|j: int| 0 <= j < i implies (#[trigger] m[j]).0 != g by {
            assert(m[j] == d[j]);
        }
        json::lemma_key_at(m, g, i);
    } else {
        assert forall|j: int| 0 <= j < m.len() - 1 implies (#[trigger] m[j]).0 != g by {
            assert(m[j] == d[j]);
        }
        if m.last().0 == g {
            json::lemma_key_at(m, g, m.len() - 1);
        } else {
            json::lemma_key_absent(m, g);
        }
    }
}

proof fn lemma_without_key(m: Seq<(Seq<char>, JsonV)>, f: Seq<char>, g: Seq<char>)
    ensures
        f != g ==> json::field(JsonV::Object(without_key(m, f)), g) == json::field(
            JsonV::Object(m),
            g,
        ),
        f != g ==> (json::key_at(without_key(m, f), g) >= 0 <==> json::key_at(m, g) >= 0),
        json::key_at(without_key(m, f), f) < 0,
    decreases m.len(),
{
    lemma_without_key_members(m, f);
    json::lemma_key_absent(without_key(m, f), f);
    if f != g && m.len() > 0 {
        lemma_without_key(m.drop_last(), f, g);
        lemma_key_at_drop_last(m, g);
        json::lemma_key_found(m.drop_last(), g);
        if m.last().0 != f {
            let w = without_key(m, f);
            assert(w.drop_last() == without_key(m.drop_last(), f));
            lemma_key_at_drop_last(w, g);
        }
    }
}

/// Nothing is corrected without grounds: where no device is named, or the house
/// says nothing of the one named and it is not the only one of its name, or the
/// kind agrees and no area is given, the call goes out exactly as written.
pub proof fn law_no_grounds_no_correction(facts: HouseFactsV, args: JsonV)
    requires
        match named_in(facts, args) {
            None => true,
            Some(named) => {
                let key = folded(named);
                &&& match (facts.slots.kind, kind_for(facts.kind_of, key)) {
                    (Some(f), Some(k)) => match json::field(args, f) {
                        Some(w) => kind_agrees(w, k),
                        None => true,
                    },
                    _ => true,
                }
                &&& facts.sole.contains(key) ==> {
                    &&& facts.slots.place matches Some(f) ==> json::field(args, f) is None
                    &&& facts.slots.wider_place matches Some(f) ==> json::field(args, f) is None
                }
            },
        },
    ensures
        agreed(facts, args) == args,
        agreed_notes(facts, args).len() == 0,
{
    if let JsonV::Object(m) = args {
        if let Some(f) = facts.slots.place {
            json::lemma_key_found(m, f);
        }
        if let Some(f) = facts.slots.wider_place {
            json::lemma_key_found(m, f);
        }
    }
}

proof fn lemma_without_key_len(m: Seq<(Seq<char>, JsonV)>, f: Seq<char>)
    ensures
        without_key(m, f).len() <= m.len(),
        json::key_at(m, f) >= 0 ==> without_key(m, f).len() < m.len(),
    decreases m.len(),
{
    if m.len() > 0 {
        lemma_without_key_len(m.drop_last(), f);
        lemma_key_at_drop_last(m, f);
    }
}

proof fn lemma_settle_place(s: Settled, field: Option<Seq<char>>, named: Seq<char>)
    ensures
        ({
            let after = settle_place(s, field, named);
            &&& after.notes.len() >= s.notes.len()
            &&& after.members.len() <= s.members.len()
            &&& after.notes.len() > s.notes.len() ==> after.members.len() < s.members.len()
            &&& after.notes.len() == s.notes.len() ==> after == s
        }),
{
    if let Some(f) = field {
        lemma_without_key_len(s.members, f);
    }
}

/// Every correction is noted, and nothing is noted but a correction: there is a
/// note exactly where the call goes out otherwise than it was written.
pub proof fn law_a_note_for_every_correction(facts: HouseFactsV, args: JsonV)
    ensures
        noted(agreed_notes(facts, args)) is None <==> agreed(facts, args) == args,
{
    if let (JsonV::Object(m), Some(named)) = (args, named_in(facts, args)) {
        let key = folded(named);
        let kind = kind_for(facts.kind_of, key);
        let a = settle_kind(m, facts.slots.kind, kind, named);
        let b = settle_place(a, facts.slots.place, named);
        lemma_settle_place(a, facts.slots.place, named);
        lemma_settle_place(b, facts.slots.wider_place, named);
        if a.notes.len() > 0 {
            let f = facts.slots.kind->0;
            let k = kind->0;
            let i = json::key_at(m, f);
            json::lemma_key_found(m, f);
            assert(a.members[i].1 == in_shape(m[i].1, k));
            assert(!kind_agrees(m[i].1, k));
            if let JsonV::List(l) = m[i].1 {
                assert(seq![JsonV::Text(k)][0] == JsonV::Text(k));
            }
            assert(a.members[i].1 != m[i].1);
            assert(a.members != m);
        }
        let out = settled(facts, m, named);
        assert(agreed(facts, args) == JsonV::Object(out.members));
        if out.members == m {
            assert(out.members.len() == m.len());
        }
    }
}

/// No argument but the kind, the place and the wider place is the house's to
/// settle: every other field is sent as it was written.
pub proof fn law_nothing_else_is_touched(facts: HouseFactsV, args: JsonV, field: Seq<char>)
    requires
        facts.slots.kind != Some(field),
        facts.slots.place != Some(field),
        facts.slots.wider_place != Some(field),
    ensures
        json::field(agreed(facts, args), field) == json::field(args, field),
{
    if let (JsonV::Object(m), Some(named)) = (args, named_in(facts, args)) {
        let kind = kind_for(facts.kind_of, folded(named));
        let a = settle_kind(m, facts.slots.kind, kind, named);
        if let (Some(f), Some(k)) = (facts.slots.kind, kind) {
            if let Some(w) = json::field(args, f) {
                lemma_with_value(m, f, in_shape(w, k), field);
            }
        }
        let b = settle_place(a, facts.slots.place, named);
        if let Some(p) = facts.slots.place {
            lemma_without_key(a.members, p, field);
        }
        if let Some(w) = facts.slots.wider_place {
            lemma_without_key(b.members, w, field);
        }
    }
}

/// A call that names no device the house knows goes out exactly as written.
pub proof fn law_an_unknown_device_is_left_alone(facts: HouseFactsV, args: JsonV)
    requires
        named_in(facts, args) matches Some(named) ==> kind_for(
            facts.kind_of,
            folded(named),
        ) is None && !facts.sole.contains(folded(named)),
    ensures
        agreed(facts, args) == args,
        noted(agreed_notes(facts, args)) is None,
{
}

/// A call the house has settled is settled: it would put nothing right the
/// second time.
pub proof fn law_agreeing_twice_is_once(facts: HouseFactsV, args: JsonV)
    requires
        name_beside_kind(facts.slots),
    ensures
        agreed(facts, agreed(facts, args)) == agreed(facts, args),
        noted(agreed_notes(facts, agreed(facts, args))) is None,
{
    if let (JsonV::Object(m), Some(named)) = (args, named_in(facts, args)) {
        let key = folded(named);
        let device = facts.slots.device->0;
        let kind = kind_for(facts.kind_of, key);
        let a = settle_kind(m, facts.slots.kind, kind, named);
        if let (Some(f), Some(k)) = (facts.slots.kind, kind) {
            if let Some(w) = json::field(args, f) {
                json::lemma_key_found(m, f);
                lemma_with_value(m, f, in_shape(w, k), device);
                lemma_with_value(m, f, in_shape(w, k), f);
            }
        }
        assert(json::field(JsonV::Object(a.members), device) == json::field(args, device));
        let b = if facts.sole.contains(key) {
            settle_place(a, facts.slots.place, named)
        } else {
            a
        };
        if let Some(p) = facts.slots.place {
            lemma_without_key(a.members, p, device);
            lemma_without_key(a.members, p, p);
            if let Some(f) = facts.slots.kind {
                lemma_without_key(a.members, p, f);
            }
        }
        let c = if facts.sole.contains(key) {
            settle_place(b, facts.slots.wider_place, named)
        } else {
            b
        };
        if let Some(w) = facts.slots.wider_place {
            lemma_without_key(b.members, w, device);
            lemma_without_key(b.members, w, w);
            if let Some(f) = facts.slots.kind {
                lemma_without_key(b.members, w, f);
            }
            if let Some(p) = facts.slots.place {
                lemma_without_key(b.members, w, p);
                json::lemma_key_found(b.members, p);
                json::lemma_key_found(c.members, p);
            }
            json::lemma_key_found(c.members, w);
            json::lemma_key_found(b.members, w);
        }
        if let Some(p) = facts.slots.place {
            json::lemma_key_found(b.members, p);
            json::lemma_key_found(a.members, p);
        }
        assert(agreed(facts, args) == JsonV::Object(c.members));
        let after = JsonV::Object(c.members);
        if facts.sole.contains(key) && (facts.slots.place == Some(device)
            || facts.slots.wider_place == Some(device)) {
            // The name itself was dropped, so there is nothing left to settle.
            assert(json::field(after, device) is None);
        } else {
            assert(named_in(facts, after) == Some(named));
        }
        law_no_grounds_no_correction(facts, JsonV::Object(c.members));
    }
}

/// An argument that is a member of its published enumeration draws no complaint
/// about it: it is objected to only where it is not of the published type.
pub proof fn law_a_listed_argument_is_accepted(
    key: Seq<char>,
    published: JsonV,
    allowed: Seq<JsonV>,
    i: int,
    v: JsonV,
)
    requires
        json::list_field(published, "enum"@) == Some(allowed),
        0 <= i < allowed.len(),
        json::same_json(allowed[i], v),
    ensures
        json::text_field(published, "type"@) is None ==> argument_complaint(key, published, v)
            is None,
        json::text_field(published, "type"@) matches Some(want) ==> argument_complaint(
            key,
            published,
            v,
        ) == (if of_type(want, v) {
            None
        } else {
            Some(key + " must be a "@ + want)
        }),
{
    assert(is_allowed(allowed, v));
}

/// An argument that equals no member of its published enumeration is always
/// objected to, whatever its type, and the complaint lists the members.
pub proof fn law_an_unlisted_argument_is_objected_to(
    key: Seq<char>,
    published: JsonV,
    allowed: Seq<JsonV>,
    v: JsonV,
)
    requires
        json::list_field(published, "enum"@) == Some(allowed),
        forall|i: int| 0 <= i < allowed.len() ==> !json::same_json(#[trigger] allowed[i], v),
    ensures
        argument_complaint(key, published, v) == Some(
            key + " must be one of "@ + text::joined(json::compact_items(allowed), ", "@),
        ),
{
    assert(!is_allowed(allowed, v));
}

/// Without an enumeration the type alone decides, and without either nothing is
/// objected to.
pub proof fn law_the_type_decides(key: Seq<char>, published: JsonV, v: JsonV, want: Seq<char>)
    requires
        json::list_field(published, "enum"@) is None,
    ensures
        json::text_field(published, "type"@) is None ==> argument_complaint(key, published, v)
            is None,
        json::text_field(published, "type"@) == Some(want) && of_type(want, v)
            ==> argument_complaint(key, published, v) is None,
        json::text_field(published, "type"@) == Some(want) && !of_type(want, v)
            ==> argument_complaint(key, published, v) == Some(key + " must be a "@ + want),
{
}

/// The types a schema may name, and what is of each: a value is of exactly one of
/// the seven, but that a whole number is also a number; a type nobody knows
/// excludes nothing.
pub proof fn law_a_value_is_of_its_type(v: JsonV, want: Seq<char>)
    ensures
        of_type("string"@, v) <==> v is Text,
        of_type("number"@, v) <==> v is Number,
        of_type("integer"@, v) <==> v is Number && json::is_whole(v->Number_0),
        of_type("boolean"@, v) <==> v is Bool,
        of_type("array"@, v) <==> v is List,
        of_type("object"@, v) <==> v is Object,
        of_type("null"@, v) <==> v is Null,
        want != "string"@ && want != "number"@ && want != "integer"@ && want != "boolean"@ && want
            != "array"@ && want != "object"@ && want != "null"@ ==> of_type(want, v),
{
    reveal_strlit("string");
    reveal_strlit("number");
    reveal_strlit("integer");
    reveal_strlit("boolean");
    reveal_strlit("array");
    reveal_strlit("object");
    reveal_strlit("null");
    assert("string"@[0] == 's');
    assert("number"@[0] == 'n' && "number"@.len() == 6);
    assert("integer"@[0] == 'i');
    assert("boolean"@[0] == 'b');
    assert("array"@[0] == 'a');
    assert("object"@[0] == 'o');
    assert("null"@[0] == 'n' && "null"@.len() == 4);
}

/// Each argument that was given is held against what was published for it, and
/// every complaint comes from one of them.
pub proof fn law_every_argument_is_looked_at(
    props: JsonV,
    given: Seq<(Seq<char>, JsonV)>,
    c: Seq<char>,
)
    ensures
        complaints(props, given).contains(c) <==> exists|i: int|
            0 <= i < given.len() && json::field(props, (#[trigger] given[i]).0) is Some
                && argument_complaint(
                given[i].0,
                json::field(props, given[i].0)->0,
                given[i].1,
            ) == Some(c),
    decreases given.len(),
{
    if given.len() > 0 {
        let init = given.drop_last();
        law_every_argument_is_looked_at(props, init, c);
        let before = complaints(props, init);
        let after = complaints(props, given);
        if before.contains(c) {
            let k = choose|k: int| 0 <= k < before.len() && before[k] == c;
            assert(after[k] == c);
            let i = choose|i: int|
                0 <= i < init.len() && json::field(props, (#[trigger] init[i]).0) is Some
                    && argument_complaint(
                    init[i].0,
                    json::field(props, init[i].0)->0,
                    init[i].1,
                ) == Some(c);
            assert(init[i] == given[i]);
        }
        if after.contains(c) && !before.contains(c) {
            let k = choose|k: int| 0 <= k < after.len() && after[k] == c;
            if k < before.len() {
                assert(before[k] == c);
            }
            assert(given[given.len() - 1] == given.last());
        }
        assert forall|i: int|
            0 <= i < given.len() && json::field(props, (#[trigger] given[i]).0) is Some
                && argument_complaint(
                given[i].0,
                json::field(props, given[i].0)->0,
                given[i].1,
            ) == Some(c) implies after.contains(c) by {
            if i < init.len() {
                assert(init[i] == given[i]);
            } else {
                assert(after[after.len() - 1] == c);
            }
        }
    }
}

/// The complaints come in the order of the arguments.
pub proof fn law_complaints_come_in_order(
    props: JsonV,
    a: Seq<(Seq<char>, JsonV)>,
    b: Seq<(Seq<char>, JsonV)>,
)
    ensures
        complaints(props, a + b) == complaints(props, a) + complaints(props, b),
    decreases b.len(),
{
    if b.len() == 0 {
        assert(a + b == a);
        assert(complaints(props, a) + complaints(props, b) == complaints(props, a));
    } else {
        law_complaints_come_in_order(props, a, b.drop_last());
        assert((a + b).drop_last() == a + b.drop_last());
        assert((a + b).last() == b.last());
    }
}

/// A call whose every argument is as published, or is not published at all, is
/// not objected to; one wrong argument is enough for an objection. A schema that
/// publishes no properties objects to nothing, nor is there anything to object to
/// in what is no object.
pub proof fn law_one_wrong_argument_is_enough(
    schema: JsonV,
    props: JsonV,
    given: Seq<(Seq<char>, JsonV)>,
    v: JsonV,
)
    requires
        json::field(schema, "properties"@) == Some(props),
        props is Object,
        !(v is Object),
    ensures
        objections(schema, JsonV::Object(given)).len() > 0 <==> exists|i: int|
            0 <= i < given.len() && json::field(props, (#[trigger] given[i]).0) is Some
                && argument_complaint(
                given[i].0,
                json::field(props, given[i].0)->0,
                given[i].1,
            ) is Some,
        objections(schema, v).len() == 0,
        objections(v, JsonV::Object(given)).len() == 0,
{
    let all = objections(schema, JsonV::Object(given));
    assert(all == complaints(props, given));
    if all.len() > 0 {
        assert(all.contains(all[0]));
        law_every_argument_is_looked_at(props, given, all[0]);
    }
    assert forall|i: int|
        0 <= i < given.len() && json::field(props, (#[trigger] given[i]).0) is Some
            && argument_complaint(
            given[i].0,
            json::field(props, given[i].0)->0,
            given[i].1,
        ) is Some implies all.len() > 0 by {
        let c = argument_complaint(given[i].0, json::field(props, given[i].0)->0, given[i].1)->0;
        law_every_argument_is_looked_at(props, given, c);
        assert(all.contains(c));
    }
}

/// What is blank: null, a text of blanks, an empty list and an empty object, and
/// nothing else. A number or a truth value never is, whatever it says.
pub proof fn law_what_is_blank(v: JsonV)
    ensures
        v is Null ==> is_blank(v),
        v is Bool || v is Number ==> !is_blank(v),
        v matches JsonV::Text(s) ==> (is_blank(v) <==> text::is_blank_text(s)),
        v matches JsonV::List(a) ==> (is_blank(v) <==> a.len() == 0),
        v matches JsonV::Object(m) ==> (is_blank(v) <==> m.len() == 0),
{
}

/// An argument stays exactly where something is left of it once its own blanks
/// are dropped, under its own name and with what is left.
pub proof fn law_what_is_left_stays(m: Seq<(Seq<char>, JsonV)>, p: (Seq<char>, JsonV))
    ensures
        without_blanks(JsonV::Object(m)) is Object,
        members_without_blanks(m) == without_blanks(JsonV::Object(m))->Object_0,
        members_without_blanks(m).contains(p) <==> exists|i: int|
            0 <= i < m.len() && (#[trigger] m[i]).0 == p.0 && without_blanks(m[i].1) == p.1
                && !is_blank(p.1),
    decreases m.len(),
{
    if m.len() > 0 {
        let init = m.drop_last();
        law_what_is_left_stays(init, p);
        let before = members_without_blanks(init);
        let after = members_without_blanks(m);
        if before.contains(p) {
            let k = choose|k: int| 0 <= k < before.len() && before[k] == p;
            assert(after[k] == p);
            let i = choose|i: int|
                0 <= i < init.len() && (#[trigger] init[i]).0 == p.0 && without_blanks(init[i].1)
                    == p.1 && !is_blank(p.1);
            assert(init[i] == m[i]);
        }
        if after.contains(p) && !before.contains(p) {
            let k = choose|k: int| 0 <= k < after.len() && after[k] == p;
            if k < before.len() {
                assert(before[k] == p);
            }
            assert(m[m.len() - 1] == m.last());
        }
        assert forall|i: int|
            0 <= i < m.len() && (#[trigger] m[i]).0 == p.0 && without_blanks(m[i].1) == p.1
                && !is_blank(p.1) implies after.contains(p) by {
            if i < init.len() {
                assert(init[i] == m[i]);
            } else {
                assert(after[after.len() - 1] == p);
            }
        }
    }
}

/// What stays stays in order, and what is no object is left as it is.
pub proof fn law_what_stays_is_in_order(
    a: Seq<(Seq<char>, JsonV)>,
    b: Seq<(Seq<char>, JsonV)>,
    v: JsonV,
)
    ensures
        members_without_blanks(a + b) == members_without_blanks(a) + members_without_blanks(b),
        !(v is Object) ==> without_blanks(v) == v,
    decreases b.len(),
{
    if b.len() == 0 {
        assert(a + b == a);
        assert(members_without_blanks(a) + members_without_blanks(b) == members_without_blanks(a));
    } else {
        law_what_stays_is_in_order(a, b.drop_last(), v);
        assert((a + b).drop_last() == a + b.drop_last());
        assert((a + b).last() == b.last());
    }
}

/// The word for everything is taken out of a list wherever it stands, and
/// nothing else is; alone it becomes null, and any other value is left as it is.
pub proof fn law_only_the_word_for_everything_goes(a: Seq<JsonV>, b: Seq<JsonV>, v: JsonV)
    ensures
        list_without_any(a + b) == list_without_any(a) + list_without_any(b),
        list_without_any(a).contains(v) <==> a.contains(v) && v != JsonV::Text("__all__"@),
        field_without_any(JsonV::List(a)) == JsonV::List(list_without_any(a)),
        field_without_any(JsonV::Text("__all__"@)) == JsonV::Null,
        !(v is List) && v != JsonV::Text("__all__"@) ==> field_without_any(v) == v,
    decreases a.len() + b.len(),
{
    if b.len() == 0 {
        assert(a + b == a);
        assert(list_without_any(a) + list_without_any(b) == list_without_any(a));
    } else {
        law_only_the_word_for_everything_goes(a, b.drop_last(), v);
        assert((a + b).drop_last() == a + b.drop_last());
        assert((a + b).last() == b.last());
    }
    if a.len() > 0 {
        let init = a.drop_last();
        law_only_the_word_for_everything_goes(init, Seq::empty(), v);
        let before = list_without_any(init);
        let after = list_without_any(a);
        if before.contains(v) {
            let k = choose|k: int| 0 <= k < before.len() && before[k] == v;
            assert(after[k] == v);
            let i = choose|i: int| 0 <= i < init.len() && init[i] == v;
            assert(a[i] == v);
        }
        if after.contains(v) && !before.contains(v) {
            let k = choose|k: int| 0 <= k < after.len() && after[k] == v;
            if k < before.len() {
                assert(before[k] == v);
            }
            assert(a[a.len() - 1] == v);
        }
        if a.contains(v) && v != JsonV::Text("__all__"@) {
            let i = choose|i: int| 0 <= i < a.len() && a[i] == v;
            if i < init.len() {
                assert(init[i] == v);
            } else {
                assert(after[after.len() - 1] == v);
            }
        }
    }
}

/// A name is borne where some device has it, blanks round it and case aside, and
/// by one device alone where no second one does.
pub proof fn law_bearers_are_counted(devices: Seq<DeviceV>, key: Seq<char>)
    ensures
        bearers(devices, key) > 0 <==> exists|i: int|
            0 <= i < devices.len() && text::lowered(text::trimmed((#[trigger] devices[i]).name))
                == key,
        bearers(devices, key) >= 2 <==> exists|i: int, j: int|
            0 <= i < j < devices.len() && text::lowered(
                text::trimmed((#[trigger] devices[i]).name),
            ) == key && text::lowered(text::trimmed((#[trigger] devices[j]).name)) == key,
    decreases devices.len(),
{
    if devices.len() > 0 {
        let init = devices.drop_last();
        let last = devices.len() - 1;
        law_bearers_are_counted(init, key);
        if bearers(init, key) > 0 {
            let i = choose|i: int|
                0 <= i < init.len() && text::lowered(text::trimmed((#[trigger] init[i]).name))
                    == key;
            assert(init[i] == devices[i]);
            if text::lowered(text::trimmed(devices[last].name)) == key {
                assert(0 <= i < last < devices.len());
            }
        }
        if bearers(init, key) >= 2 {
            let (i, j) = choose|i: int, j: int|
                0 <= i < j < init.len() && text::lowered(
                    text::trimmed((#[trigger] init[i]).name),
                ) == key && text::lowered(text::trimmed((#[trigger] init[j]).name)) == key;
            assert(init[i] == devices[i] && init[j] == devices[j]);
        }
        assert forall|i: int|
            0 <= i < devices.len() && text::lowered(
                text::trimmed((#[trigger] devices[i]).name),
            ) == key implies bearers(devices, key) > 0 by {
            if i < last {
                assert(init[i] == devices[i]);
            }
        }
        assert forall|i: int, j: int|
            0 <= i < j < devices.len() && text::lowered(
                text::trimmed((#[trigger] devices[i]).name),
            ) == key && text::lowered(text::trimmed((#[trigger] devices[j]).name))
                == key implies bearers(devices, key) >= 2 by {
            assert(init[i] == devices[i]);
            if j < last {
                assert(init[j] == devices[j]);
            }
        }
    }
}

/// What a house teaches of a name: its kind where every device of that name is of
/// one kind, and that it is one device where only one bears it. Two devices of
/// one name and different kinds teach no kind, and no name that nobody bears
/// teaches anything.
pub proof fn law_a_house_teaches_what_it_holds(
    facts: HouseFactsV,
    devices: Seq<DeviceV>,
    tools: Seq<Seq<char>>,
    key: Seq<char>,
    kind: Seq<char>,
    i: int,
    j: int,
)
    requires
        learned_from(facts, devices, tools),
        0 <= i < devices.len(),
        text::lowered(text::trimmed(devices[i].name)) == key,
        0 <= j < devices.len(),
        text::lowered(text::trimmed(devices[j].name)) == key,
    ensures
        (forall|k: int|
            0 <= k < devices.len() && text::lowered(text::trimmed((#[trigger] devices[k]).name))
                == key ==> devices[k].domain == kind) ==> kind_for(facts.kind_of, key) == Some(kind),
        devices[i].domain != devices[j].domain ==> kind_for(facts.kind_of, key) is None,
        kind_for(facts.kind_of, key) matches Some(k) ==> devices[i].domain == k,
        i != j ==> !facts.sole.contains(key),
        (forall|k: int|
            0 <= k < devices.len() && text::lowered(text::trimmed((#[trigger] devices[k]).name))
                == key ==> k == i) ==> facts.sole.contains(key),
{
    law_bearers_are_counted(devices, key);
    if forall|k: int|
        0 <= k < devices.len() && text::lowered(text::trimmed((#[trigger] devices[k]).name)) == key
            ==> devices[k].domain == kind {
        assert(one_kind(devices, key, kind));
    }
    if kind_for(facts.kind_of, key) is Some {
        let k = kind_for(facts.kind_of, key)->0;
        assert(one_kind(devices, key, k));
        assert(folded(devices[i].name) == key);
        assert(folded(devices[j].name) == key);
    }
    if i != j {
        let (lo, hi) = if i < j {
            (i, j)
        } else {
            (j, i)
        };
        assert(text::lowered(text::trimmed(devices[lo].name)) == key && text::lowered(
            text::trimmed(devices[hi].name),
        ) == key);
        assert(bearers(devices, key) >= 2);
    }
}

/// A name that no device bears teaches nothing.
pub proof fn law_an_unborne_name_teaches_nothing(
    facts: HouseFactsV,
    devices: Seq<DeviceV>,
    tools: Seq<Seq<char>>,
    key: Seq<char>,
)
    requires
        learned_from(facts, devices, tools),
        forall|i: int|
            0 <= i < devices.len() ==> text::lowered(text::trimmed((#[trigger] devices[i]).name))
                != key,
    ensures
        kind_for(facts.kind_of, key) is None,
        !facts.sole.contains(key),
{
    law_bearers_are_counted(devices, key);
    if kind_for(facts.kind_of, key) is Some {
        assert(one_kind(devices, key, kind_for(facts.kind_of, key)->0));
    }
}

/// A kind that is written and is not the one the house knows is put right, in the
/// shape it was written in: a text becomes the kind, a list becomes one that
/// holds the kind alone. A kind that is written otherwise, or not at all, is left
/// as it is.
pub proof fn law_a_kind_is_put_right(
    facts: HouseFactsV,
    m: Seq<(Seq<char>, JsonV)>,
    device: Seq<char>,
    field: Seq<char>,
    named: Seq<char>,
    kind: Seq<char>,
)
    requires
        facts.slots.device == Some(device),
        facts.slots.kind == Some(field),
        facts.slots.place != Some(field),
        facts.slots.wider_place != Some(field),
        json::field(JsonV::Object(m), device) == Some(JsonV::Text(named)),
        kind_for(facts.kind_of, text::lowered(text::trimmed(named))) == Some(kind),
    ensures
        ({
            let after = json::field(agreed(facts, JsonV::Object(m)), field);
            match json::field(JsonV::Object(m), field) {
                Some(JsonV::Text(_)) => after == Some(JsonV::Text(kind)),
                Some(JsonV::List(_)) => after == Some(JsonV::List(seq![JsonV::Text(kind)])),
                other => after == other,
            }
        }),
{
    let key = folded(named);
    let a = settle_kind(m, facts.slots.kind, kind_for(facts.kind_of, key), named);
    json::lemma_key_found(m, field);
    if let Some(w) = json::field(JsonV::Object(m), field) {
        lemma_with_value(m, field, in_shape(w, kind), field);
        if let JsonV::List(l) = w {
            if l.len() == 1 && l[0] == JsonV::Text(kind) {
                assert(l == seq![JsonV::Text(kind)]);
            }
        }
    }
    if facts.slots.place is Some {
        lemma_without_key(a.members, facts.slots.place->0, field);
    }
    let b = settle_place(a, facts.slots.place, named);
    if facts.slots.wider_place is Some {
        lemma_without_key(b.members, facts.slots.wider_place->0, field);
    }
}

/// Where a name is that of one device alone, neither a place nor a wider place is
/// sent beside it; where more than one device bears it, both stay as written.
pub proof fn law_one_device_needs_no_place(
    facts: HouseFactsV,
    m: Seq<(Seq<char>, JsonV)>,
    device: Seq<char>,
    field: Seq<char>,
    named: Seq<char>,
)
    requires
        facts.slots.device == Some(device),
        facts.slots.place == Some(field) || facts.slots.wider_place == Some(field),
        facts.slots.kind != Some(field),
        json::field(JsonV::Object(m), device) == Some(JsonV::Text(named)),
    ensures
        ({
            let after = json::field(agreed(facts, JsonV::Object(m)), field);
            &&& facts.sole.contains(text::lowered(text::trimmed(named))) ==> after is None
            &&& !facts.sole.contains(text::lowered(text::trimmed(named))) ==> after == json::field(
                JsonV::Object(m),
                field,
            )
        }),
{
    let key = folded(named);
    let a = settle_kind(m, facts.slots.kind, kind_for(facts.kind_of, key), named);
    if facts.slots.kind is Some {
        let f = facts.slots.kind->0;
        if kind_for(facts.kind_of, key) is Some && json::field(JsonV::Object(m), f) is Some {
            let w = json::field(JsonV::Object(m), f)->0;
            lemma_with_value(m, f, in_shape(w, kind_for(facts.kind_of, key)->0), field);
        }
    }
    json::lemma_key_found(a.members, field);
    if facts.slots.place is Some {
        lemma_without_key(a.members, facts.slots.place->0, field);
    }
    let b = settle_place(a, facts.slots.place, named);
    json::lemma_key_found(b.members, field);
    if facts.slots.wider_place is Some {
        lemma_without_key(b.members, facts.slots.wider_place->0, field);
    }
}

/// Arguments are made ready by three rules, one after the other: the word for
/// everything goes, then what is blank goes, and then what is left is brought to
/// agree with the house; arguments that cannot be read are taken for none.
pub proof fn law_arguments_are_made_ready_in_three_steps(facts: HouseFactsV, args: JsonV)
    ensures
        facts.slots.device is None ==> prepared(facts, args) == without_blanks(without_any(args)),
        prepared(facts, args) == agreed(facts, without_blanks(without_any(args))),
        prepared_notes(facts, args) == agreed_notes(facts, without_blanks(without_any(args))),
        written_args(Some(args)) == args,
        written_args(None) == JsonV::Null,
{
}

/// The notes on what was corrected: a kind that was put right is told with what
/// was written, the device and its kind, and each place that was dropped with the
/// device, the place before the wider one.
pub proof fn law_what_the_notes_say(
    facts: HouseFactsV,
    m: Seq<(Seq<char>, JsonV)>,
    device: Seq<char>,
    named: Seq<char>,
    kf: Seq<char>,
    kind: Seq<char>,
    pf: Seq<char>,
    wf: Seq<char>,
    w: JsonV,
)
    requires
        facts.slots.device == Some(device),
        facts.slots.kind == Some(kf),
        facts.slots.place == Some(pf),
        facts.slots.wider_place == Some(wf),
        kf != pf && kf != wf && pf != wf,
        json::field(JsonV::Object(m), device) == Some(JsonV::Text(named)),
        json::field(JsonV::Object(m), kf) == Some(w),
        json::field(JsonV::Object(m), pf) is Some,
        json::field(JsonV::Object(m), wf) is Some,
        kind_for(facts.kind_of, text::lowered(text::trimmed(named))) == Some(kind),
        facts.sole.contains(text::lowered(text::trimmed(named))),
        w != JsonV::Text(kind),
        w is Text,
    ensures
        agreed_notes(facts, JsonV::Object(m)) == seq![
            kf + " was "@ + text::stripped(json::compact(w), Kind::DoubleQuote)
                + ", but this home says "@ + named + " is a "@ + kind,
            pf + " was dropped: "@ + named + " is one device in this home"@,
            wf + " was dropped: "@ + named + " is one device in this home"@,
        ],
{
    let key = folded(named);
    let a = settle_kind(m, facts.slots.kind, kind_for(facts.kind_of, key), named);
    json::lemma_key_found(m, kf);
    json::lemma_key_found(m, pf);
    json::lemma_key_found(m, wf);
    lemma_with_value(m, kf, in_shape(w, kind), pf);
    lemma_with_value(m, kf, in_shape(w, kind), wf);
    json::lemma_key_found(a.members, pf);
    json::lemma_key_found(a.members, wf);
    let b = settle_place(a, facts.slots.place, named);
    lemma_without_key(a.members, pf, wf);
    json::lemma_key_found(b.members, wf);
}

/// Notes are told together, and a call that is objected to says so under its
/// tool's name.
pub proof fn law_notes_are_told_together(notes: Seq<Seq<char>>, tool: Seq<char>, c: Seq<char>)
    ensures
        noted(notes) is None <==> notes.len() == 0,
        notes.len() > 0 ==> noted(notes) == Some(text::joined(notes, "; "@)),
        not_sent(tool, c) == tool + " was not sent: "@ + c + "."@,
{
}

/// What is corrected is corrected in its place, and what is dropped leaves the
/// rest in order.
pub proof fn law_the_rest_stays_in_its_place(
    m: Seq<(Seq<char>, JsonV)>,
    n: Seq<(Seq<char>, JsonV)>,
    key: Seq<char>,
    v: JsonV,
    i: int,
)
    ensures
        with_value(m, key, v).len() == m.len(),
        0 <= i < m.len() ==> with_value(m, key, v)[i].0 == m[i].0,
        0 <= i < m.len() && m[i].0 != key ==> with_value(m, key, v)[i] == m[i],
        without_key(m + n, key) == without_key(m, key) + without_key(n, key),
        (forall|j: int| 0 <= j < n.len() ==> (#[trigger] n[j]).0 != key) ==> without_key(n, key)
            == n,
    decreases n.len(),
{
    json::lemma_key_found(m, key);
    if n.len() == 0 {
        assert(m + n == m);
        assert(without_key(m, key) + without_key(n, key) == without_key(m, key));
    } else {
        let init = n.drop_last();
        law_the_rest_stays_in_its_place(m, init, key, v, i);
        assert((m + n).drop_last() == m + init);
        assert((m + n).last() == n.last());
        if forall|j: int| 0 <= j < n.len() ==> (#[trigger] n[j]).0 != key {
            assert forall|j: int| 0 <= j < init.len() implies (#[trigger] init[j]).0 != key by {
                assert(init[j] == n[j]);
            }
            assert(n[n.len() - 1].0 != key);
            assert(without_key(n, key) == n);
        }
    }
}

/// The kind known for a name is that of the first pair that has it, to the letter.
pub proof fn law_the_kind_known_for_a_name(
    pairs: Seq<(Seq<char>, Seq<char>)>,
    key: Seq<char>,
    i: int,
)
    ensures
        0 <= i < pairs.len() && pairs[i].0 == key && (forall|j: int|
            0 <= j < i ==> (#[trigger] pairs[j]).0 != key) ==> kind_for(pairs, key) == Some(
            pairs[i].1,
        ),
        (forall|j: int| 0 <= j < pairs.len() ==> (#[trigger] pairs[j]).0 != key) ==> kind_for(
            pairs,
            key,
        ) is None,
    decreases pairs.len(),
{
    if pairs.len() > 0 {
        let t = pairs.drop_first();
        law_the_kind_known_for_a_name(t, key, i - 1);
        if 0 < i < pairs.len() && (forall|j: int| 0 <= j < i ==> (#[trigger] pairs[j]).0 != key) {
            assert(pairs[0].0 != key);
            assert(t[i - 1] == pairs[i]);
            assert forall|j: int| 0 <= j < i - 1 implies (#[trigger] t[j]).0 != key by {
                assert(t[j] == pairs[j + 1]);
            }
        }
        if forall|j: int| 0 <= j < pairs.len() ==> (#[trigger] pairs[j]).0 != key {
            assert(pairs[0].0 != key);
            assert forall|j: int| 0 <= j < t.len() implies (#[trigger] t[j]).0 != key by {
                assert(t[j] == pairs[j + 1]);
            }
        }
    }
}

} // verus!
