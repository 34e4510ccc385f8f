//! The house as it describes itself.
//!
//! A live reading is prose-ish, one block per entity. It is scraped block by
//! block rather than by a schema: anything unrecognised yields no entities,
//! which surfaces as every fixture skipping — visibly wrong, rather than quietly
//! scoring against an empty house.
//!
//! Entities come out sorted and without repeats, so that two runs over one
//! house choose the same lamp.

use vstd::prelude::*;

use crate::decimal;
use crate::decimal::{Amount, ATTOS};
use crate::json;
use crate::order;
use crate::order::{
    order_opt_texts, order_pair_lists, order_text_lists, order_texts, place, Ranked,
};
use crate::text;
use crate::text::{
    bytes_in, copy_opt, copy_texts, cut, eq_ignore_case, has_text, holds, holds_any, loose_eq,
    lowercase, own, same, split_once, strip, strip_prefix, trim, words, Kind,
};
use crate::value::{Json, JsonV};

verus! {

/// One entity as the house describes itself.
#[derive(Debug, Clone)]
pub struct Entity {
    /// The first name the reading lists, and the only one sent back to the
    /// server. Compared first, so selection order is by name.
    pub name: String,
    pub domain: String,
    /// The remaining names on the same entity. A speaker recorded as
    /// `Office display, Boxa birou` is one device with two names.
    pub aliases: Vec<String>,
    /// Every area the entity is listed under, aliases included.
    pub areas: Vec<String>,
    /// The state string exactly as reported, when the reading carried one.
    pub state: Option<String>,
    /// Attributes seen on the block, by key and in order of their keys.
    pub attributes: Vec<(String, String)>,
}

/// What an [`Entity`] says.
#[verifier::ext_equal]
pub struct EntityV {
    pub name: Seq<char>,
    pub domain: Seq<char>,
    pub aliases: Seq<Seq<char>>,
    pub areas: Seq<Seq<char>>,
    pub state: Option<Seq<char>>,
    pub attributes: Seq<(Seq<char>, Seq<char>)>,
}

impl View for Entity {
    type V = EntityV;

    open spec fn view(&self) -> EntityV {
        EntityV {
            name: self.name@,
            domain: self.domain@,
            aliases: text::texts(self.aliases@),
            areas: text::texts(self.areas@),
            state: text::opt_text(self.state),
            attributes: order::pair_texts(self.attributes@),
        }
    }
}

// ---------------------------------------------------------------------------
// The order of entities
// ---------------------------------------------------------------------------

/// The order of two entities: by name, then domain, then the other names, the
/// areas, the state and the attributes.
pub open spec fn entity_order(a: EntityV, b: EntityV) -> int {
    order::first_told(
        order::text_order(a.name, b.name),
        order::first_told(
            order::text_order(a.domain, b.domain),
            order::first_told(
                order::texts_order(a.aliases, b.aliases),
                order::first_told(
                    order::texts_order(a.areas, b.areas),
                    order::first_told(
                        order::opt_text_order(a.state, b.state),
                        order::pairs_order(a.attributes, b.attributes),
                    ),
                ),
            ),
        ),
    )
}

/// An entity as nested pairs.
spec fn nested(e: EntityV) -> (
    Seq<char>,
    (
        Seq<char>,
        (
            Seq<Seq<char>>,
            (Seq<Seq<char>>, (Option<Seq<char>>, Seq<(Seq<char>, Seq<char>)>)),
        ),
    ),
) {
    (e.name, (e.domain, (e.aliases, (e.areas, (e.state, e.attributes)))))
}

/// Entities are in a total order.
pub proof fn lemma_entity_order()
    ensures
        order::is_order(|a: EntityV, b: EntityV| entity_order(a, b)),
{
    order::lemma_text_order();
    let ft = |a: Seq<char>, b: Seq<char>| order::text_order(a, b);
    order::lemma_list_order(ft);
    let fts = |a: Seq<Seq<char>>, b: Seq<Seq<char>>| order::list_order(a, b, ft);
    order::lemma_opt_order(ft);
    let fo = |a: Option<Seq<char>>, b: Option<Seq<char>>| order::opt_order(a, b, ft);
    order::lemma_pair_order(ft, ft);
    let fp = |p: (Seq<char>, Seq<char>), q: (Seq<char>, Seq<char>)|
        order::pair_order(p, q, ft, ft);
    order::lemma_list_order(fp);
    let fps = |a: Seq<(Seq<char>, Seq<char>)>, b: Seq<(Seq<char>, Seq<char>)>|
        order::list_order(a, b, fp);
    order::lemma_pair_order(fo, fps);
    let f5 = |p: (Option<Seq<char>>, Seq<(Seq<char>, Seq<char>)>), q: (
        Option<Seq<char>>,
        Seq<(Seq<char>, Seq<char>)>,
    )| order::pair_order(p, q, fo, fps);
    order::lemma_pair_order(fts, f5);
    let f4 = |p: (Seq<Seq<char>>, (Option<Seq<char>>, Seq<(Seq<char>, Seq<char>)>)), q: (
        Seq<Seq<char>>,
        (Option<Seq<char>>, Seq<(Seq<char>, Seq<char>)>),
    )| order::pair_order(p, q, fts, f5);
    order::lemma_pair_order(fts, f4);
    let f3 = |
        p: (Seq<Seq<char>>, (Seq<Seq<char>>, (Option<Seq<char>>, Seq<(Seq<char>, Seq<char>)>))),
        q: (Seq<Seq<char>>, (Seq<Seq<char>>, (Option<Seq<char>>, Seq<(Seq<char>, Seq<char>)>))),
    | order::pair_order(p, q, fts, f4);
    order::lemma_pair_order(ft, f3);
    let f2 = |
        p: (
            Seq<char>,
            (Seq<Seq<char>>, (Seq<Seq<char>>, (Option<Seq<char>>, Seq<(Seq<char>, Seq<char>)>))),
        ),
        q: (
            Seq<char>,
            (Seq<Seq<char>>, (Seq<Seq<char>>, (Option<Seq<char>>, Seq<(Seq<char>, Seq<char>)>))),
        ),
    | order::pair_order(p, q, ft, f3);
    order::lemma_pair_order(ft, f2);
    let f1 = |
        p: (
            Seq<char>,
            (
                Seq<char>,
                (
                    Seq<Seq<char>>,
                    (Seq<Seq<char>>, (Option<Seq<char>>, Seq<(Seq<char>, Seq<char>)>)),
                ),
            ),
        ),
        q: (
            Seq<char>,
            (
                Seq<char>,
                (
                    Seq<Seq<char>>,
                    (Seq<Seq<char>>, (Option<Seq<char>>, Seq<(Seq<char>, Seq<char>)>)),
                ),
            ),
        ),
    | order::pair_order(p, q, ft, f2);
    assert(order::is_order(f1));
    let h = |a: EntityV, b: EntityV| entity_order(a, b);
    assert forall|a: EntityV, b: EntityV| #[trigger] h(a, b) == f1(nested(a), nested(b)) by {}
    assert forall|a: EntityV, b: EntityV| (#[trigger] h(a, b)) == 0 <==> a == b by {
        assert(f1(nested(a), nested(b)) == 0 <==> nested(a) == nested(b));
    }
    assert forall|a: EntityV, b: EntityV| (#[trigger] h(a, b)) < 0 <==> h(b, a) > 0 by {
        assert(f1(nested(a), nested(b)) < 0 <==> f1(nested(b), nested(a)) > 0);
    }
    assert forall|a: EntityV, b: EntityV, c: EntityV|
        (#[trigger] h(a, b)) < 0 && (#[trigger] h(b, c)) < 0 implies h(a, c) < 0 by {
        assert(f1(nested(a), nested(b)) < 0);
        assert(f1(nested(b), nested(c)) < 0);
        assert(f1(nested(a), nested(c)) < 0);
    }
}

impl Ranked for Entity {
    open spec fn rank(a: EntityV, b: EntityV) -> int {
        entity_order(a, b)
    }

    proof fn rank_is_order() {
        lemma_entity_order();
        let g = |a: EntityV, b: EntityV| entity_order(a, b);
        let h = |a: EntityV, b: EntityV| <Entity as Ranked>::rank(a, b);
        assert(g =~= h);
    }

    fn rank_against(&self, other: &Entity) -> (r: i8) {
        let a = order_texts(&self.name, &other.name);
        if a != 0 {
            return a;
        }
        let b = order_texts(&self.domain, &other.domain);
        if b != 0 {
            return b;
        }
        let c = order_text_lists(&self.aliases, &other.aliases);
        if c != 0 {
            return c;
        }
        let d = order_text_lists(&self.areas, &other.areas);
        if d != 0 {
            return d;
        }
        let e = order_opt_texts(&self.state, &other.state);
        if e != 0 {
            return e;
        }
        order_pair_lists(&self.attributes, &other.attributes)
    }
}

fn copy_pairs(v: &Vec<(String, String)>) -> (r: Vec<(String, String)>)
    ensures
        order::pair_texts(r@) == order::pair_texts(v@),
{
    let mut out: Vec<(String, String)> = Vec::new();
    for i in 0..v.len()
        invariant
            out@.len() == i,
            forall|k: int| 0 <= k < i ==> out@[k].0@ == v@[k].0@ && out@[k].1@ == v@[k].1@,
    {
        out.push((v[i].0.clone(), v[i].1.clone()));
    }
    assert(order::pair_texts(out@) =~= order::pair_texts(v@));
    out
}

impl Entity {
    /// An entity of its own that says the same.
    pub fn copy(&self) -> (r: Entity)
        ensures
            r@ == self@,
    {
        Entity {
            name: self.name.clone(),
            domain: self.domain.clone(),
            aliases: copy_texts(&self.aliases),
            areas: copy_texts(&self.areas),
            state: copy_opt(&self.state),
            attributes: copy_pairs(&self.attributes),
        }
    }
}

// ---------------------------------------------------------------------------
// What may be aimed at
// ---------------------------------------------------------------------------

/// Every name an entity answers to, leading name first.
pub open spec fn names_of(e: EntityV) -> Seq<Seq<char>> {
    seq![e.name] + e.aliases
}

/// Whether one of an entity's names passes a test.
pub open spec fn any_name(e: EntityV, p: spec_fn(Seq<char>) -> bool) -> bool {
    exists|i: int| 0 <= i < names_of(e).len() && p(#[trigger] names_of(e)[i])
}

/// Domains a benchmark never selects as a target, whatever the house says.
///
/// Not configurable on purpose: a setting that has to be switched on to be safe
/// is a setting that is off on the machine where it mattered.
pub open spec fn is_unsafe_domain(domain: Seq<char>) -> bool {
    domain == "lock"@ || domain == "alarm_control_panel"@
}

/// Domains that report the world rather than change it. A command addressed to
/// one is refused by the house, whoever sends it.
pub open spec fn is_reading_domain(domain: Seq<char>) -> bool {
    domain == "sensor"@ || domain == "binary_sensor"@ || domain == "person"@ || domain == "sun"@
        || domain == "device_tracker"@ || domain == "weather"@ || domain == "todo"@
}

/// Words that mark a cover as something heavier than a blind.
pub open spec fn garage_words() -> Seq<Seq<char>> {
    seq!["garage"@, "gate"@, "door"@, "poarta"@, "poartă"@, "garaj"@]
}

/// Whether a name is that of something heavier than a blind.
pub open spec fn garage_name(name: Seq<char>) -> bool {
    text::has_any(text::lowered(name), garage_words())
}

/// Whether a benchmark, which runs unattended and repeatedly, may aim at an
/// entity: not at a lock, not at a reading, and not at a cover any of whose
/// names is that of a garage.
pub open spec fn is_safe(e: EntityV) -> bool {
    &&& !is_unsafe_domain(e.domain)
    &&& !is_reading_domain(e.domain)
    &&& !(e.domain == "cover"@ && any_name(e, |n: Seq<char>| garage_name(n)))
}

/// Whether the home can act on an entity right now. An `unavailable` entity
/// accepts every command and does nothing.
pub open spec fn answers(e: EntityV) -> bool {
    e.state matches Some(s) ==> !text::same_but_case(s, "unavailable"@)
}

fn looks_like_a_garage(name: &str) -> (r: bool)
    ensures
        r == garage_name(name@),
{
    let lower = lowercase(name);
    let list: Vec<&'static str> = vec!["garage", "gate", "door", "poarta", "poartă", "garaj"];
    assert(text::texts(list@) =~= garage_words());
    holds_any(&lower, &list)
}

/// A setting beyond on/off, already in the units the tool that sets it wants.
#[derive(Debug, Clone, Copy, PartialEq, Eq, Structural)]
pub enum Level {
    /// Brightness, as `HassLightSet` wants it.
    BrightnessPct(u8),
    /// Volume, as `HassSetVolume` wants it.
    VolumePct(u8),
    /// The temperature a climate device is aiming at, in its own units.
    TargetTemperature(Amount),
    /// How far open a cover is, as `HassSetPosition` wants it.
    PositionPct(u8),
}

/// How far apart two numbers are.
pub open spec fn gap(a: int, b: int) -> int {
    if a <= b {
        b - a
    } else {
        a - b
    }
}

/// Whether two temperatures are more than a twentieth of a degree apart. What is
/// infinite is that far from everything but itself, and a word that is no number
/// is apart from nothing.
pub open spec fn temperatures_differ(a: Amount, b: Amount) -> bool {
    match (a, b) {
        (Amount::Attos(x), Amount::Attos(y)) => 20 * gap(x as int, y as int) > ATTOS,
        (Amount::NotANumber, _) => false,
        (_, Amount::NotANumber) => false,
        _ => a != b,
    }
}

/// Whether two levels are far enough apart to be worth writing back: more than a
/// percent, or more than a twentieth of a degree, or of different kinds.
pub open spec fn levels_differ(a: Level, b: Level) -> bool {
    match (a, b) {
        (Level::BrightnessPct(x), Level::BrightnessPct(y)) => gap(x as int, y as int) > 1,
        (Level::VolumePct(x), Level::VolumePct(y)) => gap(x as int, y as int) > 1,
        (Level::PositionPct(x), Level::PositionPct(y)) => gap(x as int, y as int) > 1,
        (Level::TargetTemperature(x), Level::TargetTemperature(y)) => temperatures_differ(x, y),
        _ => true,
    }
}

fn apart(x: u8, y: u8) -> (r: bool)
    ensures
        r == (gap(x as int, y as int) > 1),
{
    if x <= y {
        y - x > 1
    } else {
        x - y > 1
    }
}

fn degrees_apart(x: i128, y: i128) -> (r: bool)
    ensures
        r == (20 * gap(x as int, y as int) > ATTOS),
{
    let (lo, hi) = if x <= y {
        (x, y)
    } else {
        (y, x)
    };
    // More than a twentieth: the larger is past the smaller by more than that.
    match lo.checked_add(ATTOS / 20) {
        Some(edge) => hi > edge,
        None => false,
    }
}

impl Level {
    /// Whether two readings are far enough apart to be worth writing back.
    ///
    /// A lamp reports its brightness rounded, so restoring on every difference
    /// would end every run by nudging every device it looked at, forever.
    pub fn differs_from(self, other: Level) -> (r: bool)
        ensures
            r == levels_differ(self, other),
    {
        match (self, other) {
            (Level::BrightnessPct(x), Level::BrightnessPct(y)) => apart(x, y),
            (Level::VolumePct(x), Level::VolumePct(y)) => apart(x, y),
            (Level::PositionPct(x), Level::PositionPct(y)) => apart(x, y),
            (Level::TargetTemperature(x), Level::TargetTemperature(y)) => match (x, y) {
                (Amount::Attos(a), Amount::Attos(b)) => degrees_apart(a, b),
                (Amount::NotANumber, _) => false,
                (_, Amount::NotANumber) => false,
                _ => x != y,
            },
            _ => true,
        }
    }
}

/// The whole percentage of `full` attos that an amount is, rounded to the
/// nearest and held between none and all.
pub open spec fn percent_of(a: Amount, full: int) -> int {
    match a {
        Amount::Attos(x) => if x <= 0 {
            0
        } else if x >= full {
            100
        } else {
            (200 * x + full) / (2 * full)
        },
        Amount::Infinite { negative } => if negative {
            0
        } else {
            100
        },
        Amount::NotANumber => 0,
    }
}

fn as_pct(a: Amount, full: i128) -> (r: u8)
    requires
        0 < full <= 1_000_000_000_000_000_000_000,
    ensures
        r == percent_of(a, full as int),
        r <= 100,
{
    match a {
        Amount::Attos(x) => if x <= 0 {
            0
        } else if x >= full {
            100
        } else {
            let q: i128 = (200 * x + full) / (2 * full);
            proof {
                assert(0 <= q <= 100) by (nonlinear_arith)
                    requires
                        q == (200 * x + full) / (2 * full),
                        0 < x < full,
                ;
            }
            q as u8
        },
        Amount::Infinite { negative } => if negative {
            0
        } else {
            100
        },
        Amount::NotANumber => 0,
    }
}

/// The value of an attribute.
pub open spec fn attribute(attrs: Seq<(Seq<char>, Seq<char>)>, key: Seq<char>) -> Option<Seq<char>>
    decreases attrs.len(),
{
    if attrs.len() == 0 {
        None
    } else if attrs[0].0 == key {
        Some(attrs[0].1)
    } else {
        attribute(attrs.drop_first(), key)
    }
}

/// The number an attribute holds, where it holds one.
pub open spec fn attribute_amount(e: EntityV, key: Seq<char>) -> Option<Amount> {
    match attribute(e.attributes, key) {
        Some(v) => decimal::amount_in(text::trimmed(v)),
        None => None,
    }
}

/// The setting an entity carries beyond being on or off. Brightness is reported
/// as a byte and volume as a fraction, and both are set as a percentage; a
/// position is a percentage already, and a temperature is left in its own units.
pub open spec fn level_of(e: EntityV) -> Option<Level> {
    if e.domain == "light"@ {
        match attribute_amount(e, "brightness"@) {
            Some(a) => Some(Level::BrightnessPct(percent_of(a, 255 * ATTOS) as u8)),
            None => None,
        }
    } else if e.domain == "media_player"@ {
        match attribute_amount(e, "volume_level"@) {
            Some(a) => Some(Level::VolumePct(percent_of(a, ATTOS as int) as u8)),
            None => None,
        }
    } else if e.domain == "climate"@ {
        match attribute_amount(e, "temperature"@) {
            Some(a) => Some(Level::TargetTemperature(a)),
            None => None,
        }
    } else if e.domain == "cover"@ {
        match attribute_amount(e, "current_position"@) {
            Some(a) => Some(Level::PositionPct(percent_of(a, 100 * ATTOS) as u8)),
            None => None,
        }
    } else {
        None
    }
}

fn attribute_at(attrs: &Vec<(String, String)>, key: &str) -> (r: Option<usize>)
    ensures
        match r {
            Some(i) => i < attrs@.len() && attribute(order::pair_texts(attrs@), key@) == Some(
                attrs@[i as int].1@,
            ),
            None => attribute(order::pair_texts(attrs@), key@) is None,
        },
{
    let ghost all = order::pair_texts(attrs@);
    assert(all.skip(0) == all);
    for i in 0..attrs.len()
        invariant
            all == order::pair_texts(attrs@),
            attribute(all, key@) == attribute(all.skip(i as int), key@),
    {
        proof {
            assert(all.skip(i as int).drop_first() == all.skip(i + 1));
            assert(all.skip(i as int)[0] == (attrs@[i as int].0@, attrs@[i as int].1@));
        }
        if same(&attrs[i].0, key) {
            return Some(i);
        }
    }
    None
}

impl Entity {
    /// Every name this entity answers to, leading name first.
    pub fn every_name(&self) -> (r: Vec<&str>)
        ensures
            text::texts(r@) == names_of(self@),
    {
        let mut out: Vec<&str> = Vec::new();
        out.push(self.name.as_str());
        for i in 0..self.aliases.len()
            invariant
                out@.len() == i + 1,
                out@[0]@ == self.name@,
                forall|k: int| 0 <= k < i ==> (#[trigger] out@[k + 1])@ == self.aliases@[k]@,
        {
            out.push(self.aliases[i].as_str());
        }
        assert(text::texts(out@) =~= names_of(self@)) by {
            assert forall|k: int| 0 <= k < out@.len() implies (#[trigger] out@[k])@ == names_of(
                self@,
            )[k] by {
                if k > 0 {
                    assert(out@[(k - 1) + 1]@ == self.aliases@[k - 1]@);
                }
            }
        }
        out
    }

    /// Whether this entity reports the world rather than changes it.
    pub fn is_reading(&self) -> (r: bool)
        ensures
            r == is_reading_domain(self@.domain),
    {
        same(&self.domain, "sensor") || same(&self.domain, "binary_sensor") || same(
            &self.domain,
            "person",
        ) || same(&self.domain, "sun") || same(&self.domain, "device_tracker") || same(
            &self.domain,
            "weather",
        ) || same(&self.domain, "todo")
    }

    /// Whether this entity is one a benchmark may aim at.
    ///
    /// The exclusion is on *targeting only* and says nothing about what the
    /// model may call.
    pub fn safe_to_target(&self) -> (r: bool)
        ensures
            r == is_safe(self@),
    {
        if same(&self.domain, "lock") || same(&self.domain, "alarm_control_panel") {
            return false;
        }
        if self.is_reading() {
            return false;
        }
        if same(&self.domain, "cover") {
            let names = self.every_name();
            let ghost all = names_of(self@);
            for i in 0..names.len()
                invariant
                    all == text::texts(names@),
                    all == names_of(self@),
                    self@.domain == "cover"@,
                    forall|k: int| 0 <= k < i ==> !garage_name(#[trigger] all[k]),
            {
                assert(all[i as int] == names@[i as int]@);
                if looks_like_a_garage(names[i]) {
                    assert((|n: Seq<char>| garage_name(n))(names_of(self@)[i as int]));
                    return false;
                }
            }
        }
        true
    }

    /// Whether the home can act on this entity at all right now.
    ///
    /// `unknown` does not count as out of reach: it means the state has not been
    /// reported yet.
    pub fn is_available(&self) -> (r: bool)
        ensures
            r == answers(self@),
    {
        match &self.state {
            Some(s) => !eq_ignore_case(s, "unavailable"),
            None => true,
        }
    }

    fn amount(&self, key: &str) -> (r: Option<Amount>)
        ensures
            r == attribute_amount(self@, key@),
    {
        match attribute_at(&self.attributes, key) {
            Some(i) => {
                let t = trim(&self.attributes[i].1);
                Amount::read(&t)
            },
            None => None,
        }
    }

    /// The setting this entity carries beyond being on or off.
    pub fn level(&self) -> (r: Option<Level>)
        ensures
            r == level_of(self@),
    {
        if same(&self.domain, "light") {
            match self.amount("brightness") {
                Some(a) => Some(Level::BrightnessPct(as_pct(a, 255 * ATTOS))),
                None => None,
            }
        } else if same(&self.domain, "media_player") {
            match self.amount("volume_level") {
                Some(a) => Some(Level::VolumePct(as_pct(a, ATTOS))),
                None => None,
            }
        } else if same(&self.domain, "climate") {
            match self.amount("temperature") {
                Some(a) => Some(Level::TargetTemperature(a)),
                None => None,
            }
        } else if same(&self.domain, "cover") {
            match self.amount("current_position") {
                Some(a) => Some(Level::PositionPct(as_pct(a, 100 * ATTOS))),
                None => None,
            }
        } else {
            None
        }
    }

    /// Whether the entity has a setting beyond on/off that a command could
    /// name — a lamp's brightness, a speaker's volume, a blind's position.
    pub fn is_adjustable(&self) -> (r: bool)
        ensures
            r == (level_of(self@) is Some),
    {
        self.level().is_some()
    }
}

// ---------------------------------------------------------------------------
// Reading a dump
// ---------------------------------------------------------------------------

/// A value without blanks and quotes around it.
pub open spec fn unquoted(s: Seq<char>) -> Seq<char> {
    text::trimmed(text::stripped(text::trimmed(s), Kind::Quote))
}

/// The filled entries of a comma-separated list.
pub open spec fn listed(s: Seq<char>) -> Seq<Seq<char>> {
    text::pieces(s, Kind::Comma).map_values(|p: Seq<char>| unquoted(p)).filter(
        |n: Seq<char>| n.len() > 0,
    )
}

/// The areas of a list: entries that long are not names.
pub open spec fn listed_areas(s: Seq<char>) -> Seq<Seq<char>> {
    listed(s).filter(|n: Seq<char>| text::byte_len(n) < 64)
}

/// Attributes with one more, in the order of their keys, the last value given
/// for a key being the one kept.
pub open spec fn with_attribute(
    attrs: Seq<(Seq<char>, Seq<char>)>,
    key: Seq<char>,
    v: Seq<char>,
) -> Seq<(Seq<char>, Seq<char>)>
    decreases attrs.len(),
{
    if attrs.len() == 0 {
        seq![(key, v)]
    } else if attrs[0].0 == key {
        seq![(key, v)] + attrs.drop_first()
    } else if order::text_order(key, attrs[0].0) < 0 {
        seq![(key, v)] + attrs
    } else {
        seq![attrs[0]] + with_attribute(attrs.drop_first(), key, v)
    }
}

/// An entity as its block begins: its names, and nothing else yet.
pub open spec fn begun(names: Seq<char>) -> EntityV {
    let all = listed(names);
    EntityV {
        name: if all.len() > 0 {
            all[0]
        } else {
            Seq::empty()
        },
        domain: Seq::empty(),
        aliases: if all.len() > 0 {
            all.drop_first()
        } else {
            Seq::empty()
        },
        areas: Seq::empty(),
        state: None,
        attributes: Seq::empty(),
    }
}

/// What one more line of its block says of an entity. Only simple attributes
/// are kept.
pub open spec fn told(e: EntityV, line: Seq<char>) -> EntityV {
    match text::after_prefix(line, "domain:"@) {
        Some(d) => EntityV { domain: unquoted(d), ..e },
        None => match text::after_prefix(line, "areas:"@) {
            Some(a) => EntityV { areas: listed_areas(a), ..e },
            None => match text::after_prefix(line, "state:"@) {
                Some(s) => EntityV { state: Some(unquoted(s)), ..e },
                None => match text::cut_once(line, Kind::Colon) {
                    Some((k, v)) => if text::trimmed(k).len() > 0 && !text::has_sub(
                        text::trimmed(k),
                        " "@,
                    ) {
                        EntityV {
                            attributes: with_attribute(
                                e.attributes,
                                text::trimmed(k),
                                unquoted(v),
                            ),
                            ..e
                        }
                    } else {
                        e
                    },
                    None => e,
                },
            },
        },
    }
}

/// Whether an entity has a name and a domain. A block with no domain is dropped
/// rather than guessed at.
pub open spec fn is_complete(e: EntityV) -> bool {
    e.name.len() > 0 && e.domain.len() > 0
}

/// A reading as far as it has been read: the entities whose blocks are over, and
/// the one whose block is open.
#[verifier::ext_equal]
pub struct Scan {
    pub done: Seq<EntityV>,
    pub open: Option<EntityV>,
}

/// The open block closed.
pub open spec fn closed(s: Scan) -> Seq<EntityV> {
    match s.open {
        Some(e) => if is_complete(e) {
            s.done.push(e)
        } else {
            s.done
        },
        None => s.done,
    }
}

/// One more line read.
pub open spec fn scanned_line(s: Scan, line: Seq<char>) -> Scan {
    let t = text::trimmed(line);
    match text::after_prefix(t, "- names:"@) {
        Some(names) => Scan { done: closed(s), open: Some(begun(names)) },
        None => match s.open {
            Some(e) => Scan { done: s.done, open: Some(told(e, t)) },
            None => s,
        },
    }
}

/// Lines read one after another.
pub open spec fn scanned(lines: Seq<Seq<char>>) -> Scan
    decreases lines.len(),
{
    if lines.len() == 0 {
        Scan { done: Seq::empty(), open: None }
    } else {
        scanned_line(scanned(lines.drop_last()), lines.last())
    }
}

/// The entities a dump describes, in the order it describes them.
pub open spec fn described(dump: Seq<char>) -> Seq<EntityV> {
    closed(scanned(text::pieces(dump, Kind::Newline)))
}

/// The dump inside a payload: what stands under `result`, where the payload is
/// JSON that has such a text, and the payload itself otherwise.
pub open spec fn dump_in(read: Option<JsonV>, payload: Seq<char>) -> Seq<char> {
    match read {
        Some(v) => match json::text_field(v, "result"@) {
            Some(t) => t,
            None => payload,
        },
        None => payload,
    }
}

/// A dump the way a server wraps it: JSON with the dump under `result`.
pub open spec fn wrapped(dump: Seq<char>) -> Seq<char> {
    json::compact(json::one_text("result"@, dump))
}

fn unquote(s: &str) -> (r: String)
    ensures
        r@ == unquoted(s@),
{
    let a = trim(s);
    let b = strip(&a, Kind::Quote);
    trim(&b)
}

proof fn lemma_filter_step(s: Seq<Seq<char>>, i: int, p: spec_fn(Seq<char>) -> bool)
    requires
        0 <= i < s.len(),
    ensures
        s.take(i + 1).filter(p) == (if p(s[i]) {
            s.take(i).filter(p).push(s[i])
        } else {
            s.take(i).filter(p)
        }),
{
    reveal(Seq::filter);
    assert(s.take(i + 1).drop_last() == s.take(i));
}

fn list_entries(s: &str) -> (r: Vec<String>)
    ensures
        text::texts(r@) == listed(s@),
{
    let parts = cut(s, Kind::Comma);
    let ghost bare = text::pieces(s@, Kind::Comma).map_values(|p: Seq<char>| unquoted(p));
    let ghost keep = |n: Seq<char>| n.len() > 0;
    let mut out: Vec<String> = Vec::new();
    assert(text::texts(out@) =~= bare.take(0).filter(keep)) by {
        reveal(Seq::filter);
    }
    for i in 0..parts.len()
        invariant
            text::texts(parts@) == text::pieces(s@, Kind::Comma),
            bare == text::pieces(s@, Kind::Comma).map_values(|p: Seq<char>| unquoted(p)),
            keep == (|n: Seq<char>| n.len() > 0),
            text::texts(out@) == bare.take(i as int).filter(keep),
    {
        let ghost before = text::texts(out@);
        proof {
            assert(text::texts(parts@)[i as int] == parts@[i as int]@);
            assert(bare[i as int] == unquoted(parts@[i as int]@));
            lemma_filter_step(bare, i as int, keep);
        }
        let name = unquote(&parts[i]);
        if !name.as_str().is_empty() {
            let ghost said = name@;
            out.push(name);
            assert(text::texts(out@) =~= before.push(said));
        }
    }
    assert(bare.take(bare.len() as int) == bare);
    assert(text::texts(parts@).len() == parts@.len());
    out
}

fn list_areas(s: &str) -> (r: Vec<String>)
    ensures
        text::texts(r@) == listed_areas(s@),
{
    let all = list_entries(s);
    let ghost names = text::texts(all@);
    let ghost short = |n: Seq<char>| text::byte_len(n) < 64;
    let mut out: Vec<String> = Vec::new();
    assert(text::texts(out@) =~= names.take(0).filter(short)) by {
        reveal(Seq::filter);
    }
    for i in 0..all.len()
        invariant
            names == text::texts(all@),
            short == (|n: Seq<char>| text::byte_len(n) < 64),
            text::texts(out@) == names.take(i as int).filter(short),
    {
        let ghost before = text::texts(out@);
        proof {
            assert(names[i as int] == all@[i as int]@);
            lemma_filter_step(names, i as int, short);
        }
        if bytes_in(&all[i]) < 64 {
            out.push(all[i].clone());
            assert(text::texts(out@) =~= before.push(names[i as int]));
        }
    }
    assert(names.take(names.len() as int) == names);
    out
}

fn put_attribute(attrs: &mut Vec<(String, String)>, key: String, v: String)
    ensures
        order::pair_texts(final(attrs)@) == with_attribute(
            order::pair_texts(old(attrs)@),
            key@,
            v@,
        ),
{
    let ghost all = order::pair_texts(attrs@);
    let ghost k = key@;
    let ghost val = v@;
    let n = attrs.len();
    let mut i: usize = 0;
    assert(all.take(0) + with_attribute(all.skip(0), k, val) =~= with_attribute(all, k, val)) by {
        assert(all.skip(0) == all);
    }
    while i < n
        invariant
            i <= n,
            n == attrs@.len(),
            all == order::pair_texts(attrs@),
            attrs@ == old(attrs)@,
            k == key@,
            val == v@,
            all.take(i as int) + with_attribute(all.skip(i as int), k, val) == with_attribute(
                all,
                k,
                val,
            ),
        decreases n - i,
    {
        proof {
            assert(all.skip(i as int)[0] == (attrs@[i as int].0@, attrs@[i as int].1@));
        }
        if same(&attrs[i].0, &key) {
            attrs.set(i, (key, v));
            proof {
                assert(order::pair_texts(attrs@) =~= all.update(i as int, (k, val)));
                assert(all.skip(i as int).drop_first() == all.skip(i + 1));
                assert(order::pair_texts(attrs@) =~= all.take(i as int) + (seq![(k, val)]
                    + all.skip(i + 1)));
            }
            return;
        }
        if order_texts(&key, &attrs[i].0) < 0 {
            attrs.insert(i, (key, v));
            proof {
                assert(order::pair_texts(attrs@) =~= all.insert(i as int, (k, val)));
                assert(order::pair_texts(attrs@) =~= all.take(i as int) + (seq![(k, val)]
                    + all.skip(i as int)));
            }
            return;
        }
        proof {
            let rest = with_attribute(all.skip(i + 1), k, val);
            assert(all.skip(i as int).drop_first() == all.skip(i + 1));
            assert(all.take(i + 1) + rest =~= all.take(i as int) + (seq![all[i as int]] + rest));
        }
        i = i + 1;
    }
    attrs.push((key, v));
    proof {
        assert(order::pair_texts(attrs@) =~= all.push((k, val)));
        assert(all.skip(n as int) =~= Seq::empty());
        assert(all.take(n as int) + seq![(k, val)] =~= all.push((k, val)));
    }
}

fn begin(names: &str) -> (r: Entity)
    ensures
        r@ == begun(names@),
{
    let mut all = list_entries(names);
    let ghost said = text::texts(all@);
    assert(said.len() == all@.len());
    let name = if all.len() > 0 {
        let ghost before = all@;
        let first = all.remove(0);
        assert(said[0] == before[0]@);
        assert(text::texts(all@) =~= said.drop_first());
        first
    } else {
        let empty = String::new();
        assert(empty@ =~= Seq::empty());
        assert(text::texts(all@) =~= Seq::empty());
        empty
    };
    let e = Entity {
        name,
        domain: String::new(),
        aliases: all,
        areas: Vec::new(),
        state: None,
        attributes: Vec::new(),
    };
    assert(e@ =~= begun(names@));
    e
}

fn tell(e: Entity, line: &str) -> (r: Entity)
    ensures
        r@ == told(e@, line@),
{
    let mut e = e;
    let ghost before = e@;
    if let Some(d) = strip_prefix(line, "domain:") {
        e.domain = unquote(&d);
        assert(e@ =~= EntityV { domain: unquoted(d@), ..before });
        return e;
    }
    if let Some(a) = strip_prefix(line, "areas:") {
        e.areas = list_areas(&a);
        assert(e@ =~= EntityV { areas: listed_areas(a@), ..before });
        return e;
    }
    if let Some(s) = strip_prefix(line, "state:") {
        e.state = Some(unquote(&s));
        assert(e@ =~= EntityV { state: Some(unquoted(s@)), ..before });
        return e;
    }
    if let Some((k, v)) = split_once(line, Kind::Colon) {
        let key = trim(&k);
        if !key.as_str().is_empty() && !holds(&key, " ") {
            let val = unquote(&v);
            let ghost ks = key@;
            let ghost vs = val@;
            put_attribute(&mut e.attributes, key, val);
            assert(e@ =~= EntityV {
                attributes: with_attribute(before.attributes, ks, vs),
                ..before
            });
        }
    }
    e
}

fn complete(e: &Entity) -> (r: bool)
    ensures
        r == is_complete(e@),
{
    !e.name.as_str().is_empty() && !e.domain.as_str().is_empty()
}

/// The house as it currently is.
#[derive(Debug, Clone)]
pub struct House {
    pub entities: Vec<Entity>,
}

impl View for House {
    type V = Seq<EntityV>;

    open spec fn view(&self) -> Seq<EntityV> {
        order::views(self.entities@)
    }
}

/// What a dump reads as: the entities it describes, in order and each once.
pub open spec fn is_reading_of(house: Seq<EntityV>, dump: Seq<char>) -> bool {
    &&& order::ascending::<Entity>(house)
    &&& forall|e: EntityV| #[trigger] house.contains(e) <==> described(dump).contains(e)
}

proof fn lemma_pushed(s: Seq<EntityV>, e: EntityV)
    ensures
        forall|x: EntityV| #[trigger] s.push(e).contains(x) <==> s.contains(x) || x == e,
{
    assert forall|x: EntityV| #[trigger] s.push(e).contains(x) <==> s.contains(x) || x == e by {
        if s.contains(x) {
            let i = choose|i: int| 0 <= i < s.len() && s[i] == x;
            assert(s.push(e)[i] == x);
        }
        assert(s.push(e)[s.len() as int] == e);
        if s.push(e).contains(x) {
            let i = choose|i: int| 0 <= i < s.push(e).len() && s.push(e)[i] == x;
            if i < s.len() {
                assert(s[i] == x);
            }
        }
    }
}

/// What an open block says.
spec fn open_says(o: Option<Entity>) -> Option<EntityV> {
    match o {
        Some(e) => Some(e@),
        None => None,
    }
}

/// Close the open block into the entities found so far.
fn close(found: &mut Vec<Entity>, open: Option<Entity>, Ghost(scan): Ghost<Scan>)
    requires
        order::ascending::<Entity>(order::views(old(found)@)),
        forall|e: EntityV|
            #[trigger] order::views(old(found)@).contains(e) <==> scan.done.contains(e),
        open_says(open) == scan.open,
    ensures
        order::ascending::<Entity>(order::views(final(found)@)),
        forall|e: EntityV|
            #[trigger] order::views(final(found)@).contains(e) <==> closed(scan).contains(e),
{
    if let Some(e) = open {
        if complete(&e) {
            proof {
                lemma_pushed(scan.done, e@);
            }
            place(found, e);
        }
    }
}

impl House {
    /// Read a dump: see [`described`].
    pub fn read_dump(dump: &str) -> (r: House)
        ensures
            is_reading_of(r@, dump@),
    {
        let lines = cut(dump, Kind::Newline);
        let ghost all = text::pieces(dump@, Kind::Newline);
        let mut found: Vec<Entity> = Vec::new();
        let mut open: Option<Entity> = None;
        assert(text::texts(lines@).len() == lines@.len());
        for i in 0..lines.len()
            invariant
                all == text::texts(lines@),
                order::ascending::<Entity>(order::views(found@)),
                forall|e: EntityV|
                    #[trigger] order::views(found@).contains(e) <==> scanned(
                        all.take(i as int),
                    ).done.contains(e),
                open_says(open) == scanned(all.take(i as int)).open,
        {
            let ghost before = scanned(all.take(i as int));
            proof {
                assert(all.take(i + 1).drop_last() == all.take(i as int));
                assert(all[i as int] == lines@[i as int]@);
            }
            let line = trim(&lines[i]);
            match strip_prefix(&line, "- names:") {
                Some(names) => {
                    close(&mut found, open, Ghost(before));
                    open = Some(begin(&names));
                },
                None => {
                    open = match open {
                        Some(e) => Some(tell(e, &line)),
                        None => None,
                    };
                },
            }
        }
        let ghost last = scanned(all.take(all.len() as int));
        assert(all.take(all.len() as int) == all);
        close(&mut found, open, Ghost(last));
        House { entities: found }
    }

    /// Read a live reading of the house: a dump, or JSON with the dump under
    /// `result`, which reads as the dump does.
    pub fn parse(payload: &str) -> (r: House)
        ensures
            is_reading_of(r@, dump_in(json::json_value(payload@), payload@)),
            forall|dump: Seq<char>|
                payload@ == #[trigger] wrapped(dump) ==> is_reading_of(r@, dump),
    {
        let dump = inner_dump(payload);
        House::read_dump(&dump)
    }
}

proof fn lemma_one_text(key: Seq<char>, t: Seq<char>)
    ensures
        json::text_field(json::one_text(key, t), key) == Some(t),
{
    json::lemma_key_at(seq![(key, JsonV::Text(t))], key, 0);
}

/// The dump inside a payload.
pub fn inner_dump(payload: &str) -> (r: String)
    ensures
        r@ == dump_in(json::json_value(payload@), payload@),
        forall|dump: Seq<char>| payload@ == #[trigger] wrapped(dump) ==> r@ == dump,
{
    assert forall|dump: Seq<char>| payload@ == #[trigger] wrapped(dump) implies json::text_field(
        json::one_text("result"@, dump),
        "result"@,
    ) == Some(dump) by {
        lemma_one_text("result"@, dump);
    }
    match Json::parse(payload) {
        Some(v) => match v.get_text("result") {
            Some(t) => own(t),
            None => own(payload),
        },
        None => own(payload),
    }
}

// ---------------------------------------------------------------------------
// Looking things up
// ---------------------------------------------------------------------------

/// The first entity that passes a test.
pub open spec fn first_where(h: Seq<EntityV>, p: spec_fn(EntityV) -> bool) -> Option<EntityV>
    decreases h.len(),
{
    if h.len() == 0 {
        None
    } else if p(h[0]) {
        Some(h[0])
    } else {
        first_where(h.drop_first(), p)
    }
}

/// How many entities pass a test.
pub open spec fn count_where(h: Seq<EntityV>, p: spec_fn(EntityV) -> bool) -> nat
    decreases h.len(),
{
    if h.len() == 0 {
        0
    } else {
        count_where(h.drop_last(), p) + (if p(h.last()) {
            1nat
        } else {
            0nat
        })
    }
}

/// Whether an entity is listed under an area.
pub open spec fn is_in(e: EntityV, area: Seq<char>) -> bool {
    e.areas.contains(area)
}

/// Whether an entity answers to exactly this name.
pub open spec fn is_named(e: EntityV, name: Seq<char>) -> bool {
    names_of(e).contains(name)
}

/// Whether an entity answers to a name once case, spacing and punctuation are
/// set aside.
pub open spec fn is_called(e: EntityV, name: Seq<char>) -> bool {
    any_name(e, |n: Seq<char>| text::loosely_equal(n, name))
}

/// Whether every wanted word stands in one of an entity's names.
pub open spec fn has_words(e: EntityV, wanted: Seq<Seq<char>>) -> bool {
    any_name(e, |n: Seq<char>| all_within(wanted, text::words_of(n)))
}

/// Whether every text of one list is in another.
pub open spec fn all_within(a: Seq<Seq<char>>, b: Seq<Seq<char>>) -> bool {
    forall|i: int| 0 <= i < a.len() ==> b.contains(#[trigger] a[i])
}

/// The entity whose leading name is shortest, the first of them where several
/// are.
pub open spec fn shortest(h: Seq<EntityV>) -> Option<EntityV>
    decreases h.len(),
{
    if h.len() == 0 {
        None
    } else {
        match shortest(h.drop_last()) {
            Some(best) => if text::byte_len(h.last().name) < text::byte_len(best.name) {
                Some(h.last())
            } else {
                Some(best)
            },
            None => Some(h.last()),
        }
    }
}

/// The entity a name finds: by exactly that name, else by the name but for case,
/// spacing and punctuation, else — of those that carry every word of it — the
/// one whose own name is shortest.
pub open spec fn found_by_name(h: Seq<EntityV>, name: Seq<char>) -> Option<EntityV> {
    match first_where(h, |e: EntityV| is_named(e, name)) {
        Some(e) => Some(e),
        None => match first_where(h, |e: EntityV| is_called(e, name)) {
            Some(e) => Some(e),
            None => if text::words_of(name).len() == 0 {
                None
            } else {
                shortest(h.filter(|e: EntityV| has_words(e, text::words_of(name))))
            },
        },
    }
}

/// Whether the server can be asked for an entity by name: it refuses a name that
/// two entities answer to rather than picking one.
pub open spec fn is_addressable(h: Seq<EntityV>, e: EntityV) -> bool {
    count_where(h, |o: EntityV| is_called(o, e.name)) <= 1
}

/// Whether a fixture may aim at an entity: safe to move, reachable by name, and
/// answering at all.
pub open spec fn is_targetable(h: Seq<EntityV>, e: EntityV) -> bool {
    is_safe(e) && is_addressable(h, e) && answers(e)
}

/// Whether one of an entity's names is one of these, but for case, spacing and
/// punctuation.
pub open spec fn is_one_of(e: EntityV, names: Seq<Seq<char>>) -> bool {
    exists|i: int| 0 <= i < names.len() && is_called(e, #[trigger] names[i])
}

/// A house with some devices taken out of consideration.
pub open spec fn house_without(h: Seq<EntityV>, names: Seq<Seq<char>>) -> Seq<EntityV> {
    h.filter(|e: EntityV| !is_one_of(e, names))
}

/// The entities of an area, in order.
pub open spec fn house_in_area(h: Seq<EntityV>, area: Seq<char>) -> Seq<EntityV> {
    h.filter(|e: EntityV| is_in(e, area))
}

/// Whether an area is that of some entity.
pub open spec fn has_area(h: Seq<EntityV>, area: Seq<char>) -> bool {
    exists|i: int| 0 <= i < h.len() && is_in(#[trigger] h[i], area)
}

/// The areas of a house, in order and each once.
pub open spec fn lists_areas(areas: Seq<Seq<char>>, h: Seq<EntityV>) -> bool {
    &&& order::ascending::<String>(areas)
    &&& forall|a: Seq<char>| #[trigger] areas.contains(a) <==> has_area(h, a)
}

/// What an optional entity says.
pub open spec fn opt_entity(o: Option<&Entity>) -> Option<EntityV> {
    match o {
        Some(e) => Some(e@),
        None => None,
    }
}

pub proof fn lemma_keep_step(h: Seq<EntityV>, i: int, p: spec_fn(EntityV) -> bool)
    requires
        0 <= i < h.len(),
    ensures
        h.take(i + 1).filter(p) == (if p(h[i]) {
            h.take(i).filter(p).push(h[i])
        } else {
            h.take(i).filter(p)
        }),
{
    reveal(Seq::filter);
    assert(h.take(i + 1).drop_last() == h.take(i));
}

pub proof fn lemma_keep_none(h: Seq<EntityV>, p: spec_fn(EntityV) -> bool)
    ensures
        h.take(0).filter(p) == Seq::<EntityV>::empty(),
{
    reveal(Seq::filter);
}

impl Entity {
    /// Whether this entity is listed under an area.
    pub(crate) fn within(&self, area: &str) -> (r: bool)
        ensures
            r == is_in(self@, area@),
    {
        has_text(&self.areas, area)
    }

    /// Whether this entity answers to exactly this name.
    pub(crate) fn named(&self, name: &str) -> (r: bool)
        ensures
            r == is_named(self@, name@),
    {
        let ghost all = names_of(self@);
        if same(&self.name, name) {
            assert(all[0] == name@);
            return true;
        }
        if has_text(&self.aliases, name) {
            let ghost k = choose|k: int| 0 <= k < self@.aliases.len() && self@.aliases[k] == name@;
            assert(all[k + 1] == name@);
            return true;
        }
        assert forall|k: int| 0 <= k < all.len() implies all[k] != name@ by {
            if k > 0 {
                assert(all[k] == self@.aliases[k - 1]);
                assert(self@.aliases.contains(self@.aliases[k - 1]));
            }
        }
        false
    }

    /// Whether this entity answers to a name but for case, spacing and
    /// punctuation.
    pub(crate) fn called(&self, name: &str) -> (r: bool)
        ensures
            r == is_called(self@, name@),
    {
        let ghost all = names_of(self@);
        let ghost test = |n: Seq<char>| text::loosely_equal(n, name@);
        let names = self.every_name();
        for i in 0..names.len()
            invariant
                all == text::texts(names@),
                all == names_of(self@),
                test == (|n: Seq<char>| text::loosely_equal(n, name@)),
                forall|k: int| 0 <= k < i ==> !test(#[trigger] all[k]),
        {
            assert(all[i as int] == names@[i as int]@);
            if loose_eq(names[i], name) {
                assert(test(names_of(self@)[i as int]));
                return true;
            }
        }
        false
    }

    fn carries(&self, wanted: &Vec<String>) -> (r: bool)
        ensures
            r == has_words(self@, text::texts(wanted@)),
    {
        let ghost all = names_of(self@);
        let ghost want = text::texts(wanted@);
        let ghost test = |n: Seq<char>| all_within(want, text::words_of(n));
        let names = self.every_name();
        for i in 0..names.len()
            invariant
                all == text::texts(names@),
                all == names_of(self@),
                want == text::texts(wanted@),
                test == (|n: Seq<char>| all_within(want, text::words_of(n))),
                forall|k: int| 0 <= k < i ==> !test(#[trigger] all[k]),
        {
            assert(all[i as int] == names@[i as int]@);
            let have = words(names[i]);
            if every_word(wanted, &have) {
                assert(test(names_of(self@)[i as int]));
                return true;
            }
        }
        false
    }
}

fn every_word(wanted: &Vec<String>, have: &Vec<String>) -> (r: bool)
    ensures
        r == all_within(text::texts(wanted@), text::texts(have@)),
{
    let ghost want = text::texts(wanted@);
    for i in 0..wanted.len()
        invariant
            want == text::texts(wanted@),
            forall|k: int| 0 <= k < i ==> text::texts(have@).contains(#[trigger] want[k]),
    {
        assert(want[i as int] == wanted@[i as int]@);
        if !has_text(have, &wanted[i]) {
            return false;
        }
    }
    true
}

impl House {
    /// A house of its own that says the same.
    pub fn copy(&self) -> (r: House)
        ensures
            r@ == self@,
    {
        let mut out: Vec<Entity> = Vec::new();
        for i in 0..self.entities.len()
            invariant
                out@.len() == i,
                forall|k: int| 0 <= k < i ==> (#[trigger] out@[k])@ == self.entities@[k]@,
        {
            out.push(self.entities[i].copy());
        }
        assert(order::views(out@) =~= self@);
        House { entities: out }
    }

    /// Every entity in a given area, by exact area name.
    pub fn in_area(&self, area: &str) -> (r: Vec<&Entity>)
        ensures
            order::views(r@) == house_in_area(self@, area@),
    {
        let ghost all = self@;
        let ghost test = |e: EntityV| is_in(e, area@);
        let mut out: Vec<&Entity> = Vec::new();
        proof {
            lemma_keep_none(all, test);
        }
        assert(order::views(out@) =~= all.take(0).filter(test));
        for i in 0..self.entities.len()
            invariant
                all == self@,
                test == (|e: EntityV| is_in(e, area@)),
                order::views(out@) == all.take(i as int).filter(test),
        {
            let ghost before = order::views(out@);
            proof {
                assert(all[i as int] == self.entities@[i as int]@);
                lemma_keep_step(all, i as int, test);
            }
            if self.entities[i].within(area) {
                out.push(&self.entities[i]);
                assert(order::views(out@) =~= before.push(all[i as int]));
            }
        }
        assert(all.take(all.len() as int) == all);
        out
    }

    /// All area names, sorted and deduplicated.
    pub fn areas(&self) -> (r: Vec<String>)
        ensures
            lists_areas(text::texts(r@), self@),
    {
        let ghost all = self@;
        let mut out: Vec<String> = Vec::new();
        for i in 0..self.entities.len()
            invariant
                all == self@,
                order::ascending::<String>(order::views(out@)),
                forall|a: Seq<char>|
                    #[trigger] order::views(out@).contains(a) <==> has_area(all.take(i as int), a),
        {
            let ghost less = all.take(i as int);
            let ghost more = all.take(i + 1);
            let ghost e = self.entities@[i as int]@;
            assert(all[i as int] == e);
            let ghost start = order::views(out@);
            place_all(&mut out, &self.entities[i].areas);
            proof {
                assert forall|a: Seq<char>| #[trigger]
                    order::views(out@).contains(a) <==> has_area(more, a) by {
                    assert(start.contains(a) <==> has_area(less, a));
                    if has_area(less, a) {
                        let k = choose|k: int| 0 <= k < less.len() && is_in(#[trigger] less[k], a);
                        assert(is_in(more[k], a));
                    }
                    if e.areas.contains(a) {
                        assert(is_in(more[i as int], a));
                    }
                    if has_area(more, a) {
                        let k = choose|k: int| 0 <= k < more.len() && is_in(#[trigger] more[k], a);
                        if k < i {
                            assert(is_in(less[k], a));
                        }
                    }
                }
            }
        }
        assert(all.take(all.len() as int) == all);
        assert(order::views(out@) =~= text::texts(out@));
        out
    }

    /// Look up one entity by exact name. Aliases count: a fixture that named the
    /// Romanian alias must find the same device in every reading.
    pub fn get(&self, name: &str) -> (r: Option<&Entity>)
        ensures
            opt_entity(r) == first_where(self@, |e: EntityV| is_named(e, name@)),
    {
        let ghost all = self@;
        let ghost test = |e: EntityV| is_named(e, name@);
        assert(all.skip(0) == all);
        for i in 0..self.entities.len()
            invariant
                all == self@,
                test == (|e: EntityV| is_named(e, name@)),
                first_where(all, test) == first_where(all.skip(i as int), test),
        {
            proof {
                assert(all.skip(i as int).drop_first() == all.skip(i + 1));
                assert(all.skip(i as int)[0] == self.entities@[i as int]@);
            }
            if self.entities[i].named(name) {
                return Some(&self.entities[i]);
            }
        }
        None
    }

    fn get_called(&self, name: &str) -> (r: Option<&Entity>)
        ensures
            opt_entity(r) == first_where(self@, |e: EntityV| is_called(e, name@)),
    {
        let ghost all = self@;
        let ghost test = |e: EntityV| is_called(e, name@);
        assert(all.skip(0) == all);
        for i in 0..self.entities.len()
            invariant
                all == self@,
                test == (|e: EntityV| is_called(e, name@)),
                first_where(all, test) == first_where(all.skip(i as int), test),
        {
            proof {
                assert(all.skip(i as int).drop_first() == all.skip(i + 1));
                assert(all.skip(i as int)[0] == self.entities@[i as int]@);
            }
            if self.entities[i].called(name) {
                return Some(&self.entities[i]);
            }
        }
        None
    }

    /// Look up one entity by a name a person would say.
    ///
    /// Three passes, narrowing: exact, then loose equality, then "every word the
    /// fixture gave appears in the name". The last is what finds
    /// `Salt-Lamp Salt Lamp` from `salt lamp`. Every pass considers the aliases
    /// as well as the leading name, and ties break on the shortest leading name.
    pub fn find_by_name(&self, name: &str) -> (r: Option<&Entity>)
        ensures
            opt_entity(r) == found_by_name(self@, name@),
    {
        if let Some(e) = self.get(name) {
            return Some(e);
        }
        if let Some(e) = self.get_called(name) {
            return Some(e);
        }
        let wanted = words(name);
        let ghost want = text::words_of(name@);
        assert(text::texts(wanted@).len() == wanted@.len());
        if wanted.len() == 0 {
            return None;
        }
        let ghost all = self@;
        let ghost test = |e: EntityV| has_words(e, want);
        let mut best: Option<usize> = None;
        proof {
            lemma_keep_none(all, test);
        }
        for i in 0..self.entities.len()
            invariant
                all == self@,
                want == text::texts(wanted@),
                test == (|e: EntityV| has_words(e, want)),
                match best {
                    Some(b) => b < self.entities@.len() && shortest(all.take(i as int).filter(test))
                        == Some(self.entities@[b as int]@),
                    None => shortest(all.take(i as int).filter(test)) is None,
                },
        {
            let ghost before = all.take(i as int).filter(test);
            proof {
                assert(all[i as int] == self.entities@[i as int]@);
                lemma_keep_step(all, i as int, test);
                assert(before.push(all[i as int]).drop_last() == before);
            }
            if self.entities[i].carries(&wanted) {
                best = match best {
                    Some(b) => if bytes_in(&self.entities[i].name) < bytes_in(
                        &self.entities[b].name,
                    ) {
                        Some(i)
                    } else {
                        Some(b)
                    },
                    None => Some(i),
                };
            }
        }
        assert(all.take(all.len() as int) == all);
        match best {
            Some(b) => Some(&self.entities[b]),
            None => None,
        }
    }

    /// Whether the server can be asked for this entity by name at all.
    ///
    /// A `light` called `Couch` and a `media_player` called `Couch` are one word
    /// to a person and an impossible request to the server.
    pub fn addressable(&self, e: &Entity) -> (r: bool)
        ensures
            r == is_addressable(self@, e@),
    {
        let ghost all = self@;
        let ghost test = |o: EntityV| is_called(o, e@.name);
        let mut n: usize = 0;
        for i in 0..self.entities.len()
            invariant
                all == self@,
                test == (|o: EntityV| is_called(o, e@.name)),
                n <= i,
                n == count_where(all.take(i as int), test),
        {
            proof {
                assert(all.take(i + 1).drop_last() == all.take(i as int));
                assert(all[i as int] == self.entities@[i as int]@);
            }
            if self.entities[i].called(&e.name) {
                n = n + 1;
            }
        }
        assert(all.take(all.len() as int) == all);
        n <= 1
    }

    /// Whether a fixture may aim at this entity: safe to move, reachable by
    /// name, and answering at all. The three questions are always asked
    /// together.
    pub fn targetable(&self, e: &Entity) -> (r: bool)
        ensures
            r == is_targetable(self@, e@),
    {
        e.safe_to_target() && self.addressable(e) && e.is_available()
    }

    /// The same house with some devices taken out of consideration.
    ///
    /// Used when the server refuses to act on a device it nonetheless listed.
    /// Matching is loose and covers aliases: the same physical device is out
    /// however the requirement asks for it.
    pub fn without(&self, names: &Vec<String>) -> (r: House)
        ensures
            r@ == house_without(self@, text::texts(names@)),
    {
        let ghost all = self@;
        let ghost out_of = text::texts(names@);
        let ghost test = |e: EntityV| !is_one_of(e, out_of);
        let mut out: Vec<Entity> = Vec::new();
        proof {
            lemma_keep_none(all, test);
        }
        assert(order::views(out@) =~= all.take(0).filter(test));
        for i in 0..self.entities.len()
            invariant
                all == self@,
                out_of == text::texts(names@),
                test == (|e: EntityV| !is_one_of(e, out_of)),
                order::views(out@) == all.take(i as int).filter(test),
        {
            let ghost before = order::views(out@);
            proof {
                assert(all[i as int] == self.entities@[i as int]@);
                lemma_keep_step(all, i as int, test);
            }
            if !called_any(&self.entities[i], names) {
                out.push(self.entities[i].copy());
                assert(order::views(out@) =~= before.push(all[i as int]));
            }
        }
        assert(all.take(all.len() as int) == all);
        House { entities: out }
    }
}

/// Put texts in their places in a list in order, each once.
fn place_all(out: &mut Vec<String>, more: &Vec<String>)
    requires
        order::ascending::<String>(order::views(old(out)@)),
    ensures
        order::ascending::<String>(order::views(final(out)@)),
        forall|a: Seq<char>|
            #[trigger] order::views(final(out)@).contains(a) <==> order::views(old(out)@).contains(
                a,
            ) || text::texts(more@).contains(a),
{
    let ghost start = order::views(out@);
    let ghost all = text::texts(more@);
    for j in 0..more.len()
        invariant
            all == text::texts(more@),
            order::ascending::<String>(order::views(out@)),
            forall|a: Seq<char>|
                #[trigger] order::views(out@).contains(a) <==> start.contains(a) || all.take(
                    j as int,
                ).contains(a),
    {
        let ghost before = order::views(out@);
        assert(all[j as int] == more@[j as int]@);
        place(out, own(&more[j]));
        proof {
            assert forall|a: Seq<char>| #[trigger]
                order::views(out@).contains(a) <==> start.contains(a) || all.take(j + 1).contains(
                    a,
                ) by {
                assert(before.contains(a) <==> start.contains(a) || all.take(j as int).contains(
                    a,
                ));
                lemma_text_taken(all, j as int, a);
            }
        }
    }
    assert(all.take(all.len() as int) == all);
}

fn called_any(e: &Entity, names: &Vec<String>) -> (r: bool)
    ensures
        r == is_one_of(e@, text::texts(names@)),
{
    let ghost all = text::texts(names@);
    for i in 0..names.len()
        invariant
            all == text::texts(names@),
            forall|k: int| 0 <= k < i ==> !is_called(e@, #[trigger] all[k]),
    {
        assert(all[i as int] == names@[i as int]@);
        if e.called(&names[i]) {
            return true;
        }
    }
    false
}

proof fn lemma_text_taken(s: Seq<Seq<char>>, i: int, a: Seq<char>)
    requires
        0 <= i < s.len(),
    ensures
        s.take(i + 1).contains(a) <==> s.take(i).contains(a) || a == s[i],
{
    let less = s.take(i);
    let more = s.take(i + 1);
    if less.contains(a) {
        let k = choose|k: int| 0 <= k < less.len() && less[k] == a;
        assert(more[k] == a);
    }
    assert(more[i] == s[i]);
    if more.contains(a) {
        let k = choose|k: int| 0 <= k < more.len() && more[k] == a;
        if k < i {
            assert(less[k] == a);
        }
    }
}

// ---------------------------------------------------------------------------
// Laws
// ---------------------------------------------------------------------------

/// Two readings of one dump are one house: what is selected from it does not
/// depend on the run.
pub proof fn law_a_dump_reads_one_way(a: Seq<EntityV>, b: Seq<EntityV>, dump: Seq<char>)
    requires
        is_reading_of(a, dump),
        is_reading_of(b, dump),
    ensures
        a == b,
{
    order::lemma_one_order::<Entity>(a, b);
}

/// A dump wrapped under `result` reads as the bare dump, whatever text it was
/// wrapped in: the bare dump is one that is not itself JSON with a text under
/// `result`.
pub proof fn law_a_wrapped_dump_reads_as_the_bare_one(
    a: Seq<EntityV>,
    b: Seq<EntityV>,
    read: JsonV,
    payload: Seq<char>,
    bare: Option<JsonV>,
    dump: Seq<char>,
)
    requires
        json::text_field(read, "result"@) == Some(dump),
        bare matches Some(v) ==> json::text_field(v, "result"@) is None,
        is_reading_of(a, dump_in(Some(read), payload)),
        is_reading_of(b, dump_in(bare, dump)),
    ensures
        a == b,
{
    law_a_dump_reads_one_way(a, b, dump);
}

/// What a house is does not depend on the order its entities are described in,
/// nor on how often one is: two dumps that describe the same entities read the
/// same.
pub proof fn law_the_order_of_a_dump_is_no_matter(
    a: Seq<EntityV>,
    b: Seq<EntityV>,
    one: Seq<char>,
    other: Seq<char>,
)
    requires
        is_reading_of(a, one),
        is_reading_of(b, other),
        forall|e: EntityV| #[trigger] described(one).contains(e) <==> described(other).contains(e),
    ensures
        a == b,
{
    order::lemma_one_order::<Entity>(a, b);
}

/// Whether a text is a block of a dump, or several: its first line begins one,
/// and it ends with its last line.
pub open spec fn is_block(b: Seq<char>) -> bool {
    &&& b.len() > 0
    &&& b.last() == '\n'
    &&& begins_block(text::pieces(b, Kind::Newline)[0])
}

/// Whether a line begins a block.
pub open spec fn begins_block(line: Seq<char>) -> bool {
    text::after_prefix(text::trimmed(line), "- names:"@) is Some
}

/// Blocks one after another.
pub open spec fn together(blocks: Seq<Seq<char>>) -> Seq<char>
    decreases blocks.len(),
{
    if blocks.len() == 0 {
        Seq::empty()
    } else {
        together(blocks.drop_last()) + blocks.last()
    }
}

/// Lines that begin a block are read as if nothing stood before them.
proof fn lemma_scan_behind(before: Seq<Seq<char>>, lines: Seq<Seq<char>>)
    requires
        lines.len() > 0,
        begins_block(lines[0]),
    ensures
        scanned(before + lines).done == closed(scanned(before)) + scanned(lines).done,
        scanned(before + lines).open == scanned(lines).open,
    decreases lines.len(),
{
    let all = before + lines;
    let fewer = lines.drop_last();
    assert(all.drop_last() == before + fewer);
    assert(all.last() == lines.last());
    if lines.len() == 1 {
        assert(before + fewer == before);
        assert(fewer == Seq::<Seq<char>>::empty());
        assert(scanned(lines).done =~= Seq::empty());
        assert(scanned(all).done =~= closed(scanned(before)) + scanned(lines).done);
    } else {
        assert(fewer[0] == lines[0]);
        lemma_scan_behind(before, fewer);
        assert(closed(scanned(before + fewer)) =~= closed(scanned(before)) + closed(
            scanned(fewer),
        ));
        assert(scanned(all).done =~= closed(scanned(before)) + scanned(lines).done);
    }
}

/// An empty line says nothing.
proof fn lemma_empty_line(lines: Seq<Seq<char>>)
    ensures
        scanned(lines.push(Seq::empty())) == scanned(lines),
{
    let line = Seq::<char>::empty();
    assert(lines.push(line).drop_last() == lines);
    reveal_strlit("- names:");
    reveal_strlit("domain:");
    reveal_strlit("areas:");
    reveal_strlit("state:");
    assert(text::trimmed(line) =~= line);
    assert(text::after_prefix(line, "- names:"@) is None);
    assert(text::after_prefix(line, "domain:"@) is None);
    assert(text::after_prefix(line, "areas:"@) is None);
    assert(text::after_prefix(line, "state:"@) is None);
    assert(text::cut_once(line, Kind::Colon) is None);
    assert(scanned_line(scanned(lines), line) =~= scanned(lines));
}

/// What a block describes does not depend on what stands before it.
proof fn lemma_described_behind(a: Seq<char>, b: Seq<char>)
    requires
        a.len() > 0,
        a.last() == '\n',
        begins_block(text::pieces(b, Kind::Newline)[0]),
    ensures
        described(a + b) == described(a) + described(b),
{
    let k = Kind::Newline;
    text::lemma_pieces_behind(a, b, k);
    let before = text::pieces(a, k).drop_last();
    let lines = text::pieces(b, k);
    assert(text::pieces(a, k) =~= before.push(Seq::empty()));
    lemma_empty_line(before);
    lemma_scan_behind(before, lines);
    assert(described(a + b) =~= described(a) + described(b));
}

/// Blocks one after another describe what each of them describes.
proof fn lemma_described_together(blocks: Seq<Seq<char>>)
    requires
        forall|i: int| 0 <= i < blocks.len() ==> is_block(#[trigger] blocks[i]),
    ensures
        blocks.len() > 0 ==> together(blocks).len() > 0 && together(blocks).last() == '\n',
        forall|e: EntityV| #[trigger]
            described(together(blocks)).contains(e) <==> exists|i: int|
                0 <= i < blocks.len() && described(#[trigger] blocks[i]).contains(e),
    decreases blocks.len(),
{
    if blocks.len() == 0 {
        let lines = text::pieces(Seq::<char>::empty(), Kind::Newline);
        assert(lines =~= Seq::<Seq<char>>::empty().push(Seq::empty()));
        lemma_empty_line(Seq::empty());
        assert(described(together(blocks)) =~= Seq::empty());
    } else {
        let rest = blocks.drop_last();
        let last = blocks.last();
        assert(is_block(blocks[blocks.len() - 1]));
        assert forall|i: int| 0 <= i < rest.len() implies is_block(#[trigger] rest[i]) by {
            assert(rest[i] == blocks[i]);
        }
        lemma_described_together(rest);
        let a = together(rest);
        if rest.len() == 0 {
            assert(a + last =~= last);
            assert(described(a + last) =~= described(last));
        } else {
            lemma_described_behind(a, last);
        }
        assert forall|e: EntityV| #[trigger]
            described(together(blocks)).contains(e) <==> exists|i: int|
                0 <= i < blocks.len() && described(#[trigger] blocks[i]).contains(e) by {
            let one = described(a);
            let two = described(last);
            if described(a + last).contains(e) {
                if two.contains(e) {
                    assert(described(blocks[blocks.len() - 1]).contains(e));
                } else {
                    let at = choose|at: int|
                        0 <= at < (one + two).len() && (one + two)[at] == e;
                    if at >= one.len() {
                        assert(two[at - one.len()] == e);
                    }
                    assert(rest.len() > 0);
                    assert(one[at] == e);
                    assert(described(together(rest)).contains(e));
                    let i = choose|i: int|
                        0 <= i < rest.len() && described(#[trigger] rest[i]).contains(e);
                    assert(described(blocks[i]).contains(e));
                }
            }
            if exists|i: int| 0 <= i < blocks.len() && described(#[trigger] blocks[i]).contains(e) {
                let i = choose|i: int|
                    0 <= i < blocks.len() && described(#[trigger] blocks[i]).contains(e);
                if i < rest.len() {
                    assert(rest[i] == blocks[i]);
                    assert(described(rest[i]).contains(e));
                    assert(described(together(rest)).contains(e));
                    let at = choose|at: int| 0 <= at < one.len() && one[at] == e;
                    assert((one + two)[at] == e);
                } else {
                    assert(blocks[i] == last);
                    let at = choose|at: int| 0 <= at < two.len() && two[at] == e;
                    if rest.len() > 0 {
                        assert((one + two)[one.len() + at] == e);
                    }
                }
            }
        }
    }
}

/// Neither the order in which a server lists its entities nor how often it lists
/// one makes a difference: two dumps made of the same blocks read as the same
/// house. A dump is bare, that is, not itself JSON with a text under `result`.
pub proof fn law_the_order_of_the_blocks_is_no_matter(
    a: Seq<EntityV>,
    b: Seq<EntityV>,
    one: Seq<Seq<char>>,
    other: Seq<Seq<char>>,
    read_one: Option<JsonV>,
    read_other: Option<JsonV>,
)
    requires
        forall|i: int| 0 <= i < one.len() ==> is_block(#[trigger] one[i]),
        one.to_set() == other.to_set(),
        read_one matches Some(v) ==> json::text_field(v, "result"@) is None,
        read_other matches Some(v) ==> json::text_field(v, "result"@) is None,
        is_reading_of(a, dump_in(read_one, together(one))),
        is_reading_of(b, dump_in(read_other, together(other))),
    ensures
        a == b,
{
    assert forall|i: int| 0 <= i < other.len() implies one.contains(#[trigger] other[i]) by {
        assert(other.to_set().contains(other[i]));
    }
    assert forall|i: int| 0 <= i < one.len() implies other.contains(#[trigger] one[i]) by {
        assert(one.to_set().contains(one[i]));
    }
    assert forall|i: int| 0 <= i < other.len() implies is_block(#[trigger] other[i]) by {
        let k = choose|k: int| 0 <= k < one.len() && one[k] == other[i];
        assert(is_block(one[k]));
    }
    lemma_described_together(one);
    lemma_described_together(other);
    assert forall|e: EntityV| #[trigger] described(together(one)).contains(e) <==> described(
        together(other),
    ).contains(e) by {
        if described(together(one)).contains(e) {
            let i = choose|i: int| 0 <= i < one.len() && described(#[trigger] one[i]).contains(e);
            let k = choose|k: int| 0 <= k < other.len() && other[k] == one[i];
            assert(described(other[k]).contains(e));
        }
        if described(together(other)).contains(e) {
            let i = choose|i: int|
                0 <= i < other.len() && described(#[trigger] other[i]).contains(e);
            let k = choose|k: int| 0 <= k < one.len() && one[k] == other[i];
            assert(described(one[k]).contains(e));
        }
    }
    law_the_order_of_a_dump_is_no_matter(a, b, together(one), together(other));
}

/// Every entity of a reading has a name and a domain.
pub proof fn law_no_entity_is_guessed_at(house: Seq<EntityV>, dump: Seq<char>, i: int)
    requires
        is_reading_of(house, dump),
        0 <= i < house.len(),
    ensures
        is_complete(house[i]),
{
    assert(house.contains(house[i]));
    lemma_scan_complete(text::pieces(dump, Kind::Newline));
    let all = described(dump);
    let k = choose|k: int| 0 <= k < all.len() && all[k] == house[i];
    assert(is_complete(all[k]));
}

proof fn lemma_scan_complete(lines: Seq<Seq<char>>)
    ensures
        forall|k: int|
            0 <= k < scanned(lines).done.len() ==> is_complete(#[trigger] scanned(lines).done[k]),
        forall|k: int|
            0 <= k < closed(scanned(lines)).len() ==> is_complete(
                #[trigger] closed(scanned(lines))[k],
            ),
    decreases lines.len(),
{
    if lines.len() > 0 {
        lemma_scan_complete(lines.drop_last());
    }
}

/// The areas of a house are one list.
pub proof fn lemma_one_list_of_areas(a: Seq<Seq<char>>, b: Seq<Seq<char>>, h: Seq<EntityV>)
    requires
        lists_areas(a, h),
        lists_areas(b, h),
    ensures
        a == b,
{
    order::lemma_one_order::<String>(a, b);
}

/// A house with nothing taken out is the same house.
pub proof fn law_nothing_refused_nothing_lost(h: Seq<EntityV>)
    ensures
        house_without(h, Seq::empty()) == h,
    decreases h.len(),
{
    let test = |e: EntityV| !is_one_of(e, Seq::empty());
    reveal(Seq::filter);
    if h.len() > 0 {
        law_nothing_refused_nothing_lost(h.drop_last());
        assert(test(h.last()));
        assert(h =~= h.drop_last().push(h.last()));
    } else {
        assert(h =~= Seq::empty());
    }
}

/// A device that was refused is out under every name it answers to, and nothing
/// comes in that was not there.
pub proof fn law_a_refused_device_is_out(h: Seq<EntityV>, names: Seq<Seq<char>>, e: EntityV)
    ensures
        house_without(h, names).contains(e) <==> h.contains(e) && !is_one_of(e, names),
    decreases h.len(),
{
    let test = |e: EntityV| !is_one_of(e, names);
    reveal(Seq::filter);
    if h.len() > 0 {
        let rest = h.drop_last();
        law_a_refused_device_is_out(rest, names, e);
        lemma_pushed(rest, h.last());
        assert(h =~= rest.push(h.last()));
        lemma_pushed(rest.filter(test), h.last());
    }
}

/// A level does not differ from itself, nor in one direction only.
pub proof fn law_levels_differ_both_ways(a: Level, b: Level)
    ensures
        !levels_differ(a, a),
        levels_differ(a, b) == levels_differ(b, a),
{
}

/// A percentage is never below none nor above all.
pub proof fn law_a_percentage_is_one(a: Amount, full: int)
    requires
        full > 0,
    ensures
        0 <= percent_of(a, full) <= 100,
{
    if let Amount::Attos(x) = a {
        if 0 < x < full {
            assert(0 <= (200 * x + full) / (2 * full) <= 100) by (nonlinear_arith)
                requires
                    0 < x < full,
            ;
        }
    }
}

/// Nothing a person stands behind is ever aimed at: no lock, no alarm, no
/// reading, no garage under any of its names, and nothing out of reach.
pub proof fn law_what_is_never_targeted(h: Seq<EntityV>, e: EntityV, i: int)
    requires
        is_targetable(h, e),
        0 <= i < names_of(e).len(),
    ensures
        e.domain != "lock"@,
        e.domain != "alarm_control_panel"@,
        !is_reading_domain(e.domain),
        e.domain == "cover"@ ==> !garage_name(names_of(e)[i]),
        e.state matches Some(s) ==> !text::same_but_case(s, "unavailable"@),
{
    if e.domain == "cover"@ {
        assert(!(|n: Seq<char>| garage_name(n))(names_of(e)[i]));
    }
}

/// The first that fits is found, and nothing where none does.
pub proof fn law_the_first_that_fits_is_found(
    h: Seq<EntityV>,
    p: spec_fn(EntityV) -> bool,
    i: int,
)
    ensures
        0 <= i < h.len() && p(h[i]) && (forall|j: int| 0 <= j < i ==> !p(#[trigger] h[j]))
            ==> first_where(h, p) == Some(h[i]),
        (forall|j: int| 0 <= j < h.len() ==> !p(#[trigger] h[j])) <==> first_where(h, p) is None,
    decreases h.len(),
{
    if h.len() > 0 && !p(h[0]) {
        let t = h.drop_first();
        law_the_first_that_fits_is_found(t, p, i - 1);
        if 0 <= i < h.len() && p(h[i]) && (forall|j: int| 0 <= j < i ==> !p(#[trigger] h[j])) {
            assert(t[i - 1] == h[i]);
            assert forall|j: int| 0 <= j < i - 1 implies !p(#[trigger] t[j]) by {
                assert(t[j] == h[j + 1]);
            }
        }
        if first_where(h, p) is None {
            assert forall|j: int| 0 <= j < h.len() implies !p(#[trigger] h[j]) by {
                if j > 0 {
                    assert(h[j] == t[j - 1]);
                }
            }
        }
        if forall|j: int| 0 <= j < h.len() ==> !p(#[trigger] h[j]) {
            assert forall|j: int| 0 <= j < t.len() implies !p(#[trigger] t[j]) by {
                assert(t[j] == h[j + 1]);
            }
        }
    } else if h.len() > 0 {
        assert(p(h[0]));
    }
}

/// What fits is counted: none where nothing does, and two at least exactly where
/// two do, at different places.
pub proof fn law_what_fits_is_counted(h: Seq<EntityV>, p: spec_fn(EntityV) -> bool)
    ensures
        count_where(h, p) > 0 <==> exists|i: int| 0 <= i < h.len() && p(#[trigger] h[i]),
        count_where(h, p) >= 2 <==> exists|i: int, j: int|
            0 <= i < j < h.len() && p(#[trigger] h[i]) && p(#[trigger] h[j]),
        count_where(h, p) <= h.len(),
    decreases h.len(),
{
    if h.len() > 0 {
        let init = h.drop_last();
        let last = h.len() - 1;
        law_what_fits_is_counted(init, p);
        if count_where(init, p) > 0 {
            let i = choose|i: int| 0 <= i < init.len() && p(#[trigger] init[i]);
            assert(init[i] == h[i]);
            if p(h[last]) {
                assert(0 <= i < last < h.len());
            }
        }
        if count_where(init, p) >= 2 {
            let (i, j) = choose|i: int, j: int|
                0 <= i < j < init.len() && p(#[trigger] init[i]) && p(#[trigger] init[j]);
            assert(init[i] == h[i] && init[j] == h[j]);
        }
        assert forall|i: int| 0 <= i < h.len() && p(#[trigger] h[i]) implies count_where(h, p)
            > 0 by {
            if i < last {
                assert(init[i] == h[i]);
            }
        }
        assert forall|i: int, j: int|
            0 <= i < j < h.len() && p(#[trigger] h[i]) && p(#[trigger] h[j]) implies count_where(
            h,
            p,
        ) >= 2 by {
            assert(init[i] == h[i]);
            if j < last {
                assert(init[j] == h[j]);
            }
        }
    }
}

/// A device may be acted on exactly where it is no lock and no alarm, does more
/// than report, and is no cover that any of its names makes a garage's, a gate's
/// or a door's.
pub proof fn law_what_may_be_acted_on(e: EntityV)
    ensures
        is_safe(e) <==> {
            &&& e.domain != "lock"@ && e.domain != "alarm_control_panel"@
            &&& e.domain != "sensor"@ && e.domain != "binary_sensor"@ && e.domain != "person"@
            &&& e.domain != "sun"@ && e.domain != "device_tracker"@ && e.domain != "weather"@
            &&& e.domain != "todo"@
            &&& e.domain == "cover"@ ==> !garage_name(e.name) && forall|i: int|
                0 <= i < e.aliases.len() ==> !garage_name(#[trigger] e.aliases[i])
        },
{
    let all = names_of(e);
    assert(all[0] == e.name);
    assert forall|i: int| 0 <= i < e.aliases.len() implies e.aliases[i] == all[i + 1] by {}
    let p = |n: Seq<char>| garage_name(n);
    if any_name(e, p) {
        let i = choose|i: int| 0 <= i < all.len() && p(#[trigger] all[i]);
        if i > 0 {
            assert(all[i] == e.aliases[i - 1]);
        }
    }
    if garage_name(e.name) {
        assert(p(all[0]));
    }
    assert forall|i: int| 0 <= i < e.aliases.len() && garage_name(#[trigger] e.aliases[i]) implies
    any_name(e, p) by {
        assert(p(all[i + 1]));
    }
}

/// A name is a garage's, a gate's or a door's where it holds one of the words for
/// them, in any case.
pub proof fn law_the_words_for_a_door(name: Seq<char>)
    ensures
        ({
            let low = text::lowered(name);
            garage_name(name) <==> text::has_sub(low, "garage"@) || text::has_sub(low, "gate"@)
                || text::has_sub(low, "door"@) || text::has_sub(low, "poarta"@) || text::has_sub(
                low,
                "poartă"@,
            ) || text::has_sub(low, "garaj"@)
        }),
{
    let w = garage_words();
    let low = text::lowered(name);
    assert(w[0] == "garage"@ && w[1] == "gate"@ && w[2] == "door"@);
    assert(w[3] == "poarta"@ && w[4] == "poartă"@ && w[5] == "garaj"@);
    if text::has_any(low, w) {
        let i = choose|i: int| 0 <= i < w.len() && text::has_sub(low, #[trigger] w[i]);
        assert(i == 0 || i == 1 || i == 2 || i == 3 || i == 4 || i == 5);
    }
}

/// A device has its name and its other names; it is called by a text that is
/// loosely one of them, and has some words where one of its names holds them all.
pub proof fn law_what_a_device_is_called(e: EntityV, name: Seq<char>, wanted: Seq<Seq<char>>)
    ensures
        is_named(e, name) <==> e.name == name || e.aliases.contains(name),
        is_called(e, name) <==> text::loosely_equal(e.name, name) || exists|i: int|
            0 <= i < e.aliases.len() && text::loosely_equal(#[trigger] e.aliases[i], name),
        has_words(e, wanted) <==> all_within(wanted, text::words_of(e.name)) || exists|i: int|
            0 <= i < e.aliases.len() && all_within(wanted, text::words_of(#[trigger] e.aliases[i])),
        is_in(e, name) <==> e.areas.contains(name),
{
    let all = names_of(e);
    assert(all[0] == e.name);
    assert forall|i: int| 0 <= i < e.aliases.len() implies e.aliases[i] == all[i + 1] by {}
    if all.contains(name) {
        let i = choose|i: int| 0 <= i < all.len() && all[i] == name;
        if i > 0 {
            assert(e.aliases[i - 1] == name);
        }
    }
    if e.aliases.contains(name) {
        let i = choose|i: int| 0 <= i < e.aliases.len() && e.aliases[i] == name;
        assert(all[i + 1] == name);
    }
    lemma_any_name(e, |n: Seq<char>| text::loosely_equal(n, name));
    lemma_any_name(e, |n: Seq<char>| all_within(wanted, text::words_of(n)));
    let p = |n: Seq<char>| text::loosely_equal(n, name);
    let q = |n: Seq<char>| all_within(wanted, text::words_of(n));
    if any_name(e, p) && !p(e.name) {
        let i = choose|i: int| 0 <= i < e.aliases.len() && p(#[trigger] e.aliases[i]);
        assert(text::loosely_equal(e.aliases[i], name));
    }
    assert forall|i: int|
        0 <= i < e.aliases.len() && text::loosely_equal(#[trigger] e.aliases[i], name) implies
    any_name(e, p) by {
        assert(p(e.aliases[i]));
    }
    if any_name(e, q) && !q(e.name) {
        let i = choose|i: int| 0 <= i < e.aliases.len() && q(#[trigger] e.aliases[i]);
        assert(all_within(wanted, text::words_of(e.aliases[i])));
    }
    assert forall|i: int|
        0 <= i < e.aliases.len() && all_within(
            wanted,
            text::words_of(#[trigger] e.aliases[i]),
        ) implies any_name(e, q) by {
        assert(q(e.aliases[i]));
    }
}

proof fn lemma_any_name(e: EntityV, p: spec_fn(Seq<char>) -> bool)
    ensures
        any_name(e, p) <==> p(e.name) || exists|i: int|
            0 <= i < e.aliases.len() && p(#[trigger] e.aliases[i]),
{
    let all = names_of(e);
    assert(all[0] == e.name);
    if any_name(e, p) {
        let i = choose|i: int| 0 <= i < all.len() && p(#[trigger] all[i]);
        if i > 0 {
            assert(all[i] == e.aliases[i - 1]);
        }
    }
    if p(e.name) {
        assert(p(all[0]));
    }
    assert forall|i: int| 0 <= i < e.aliases.len() && p(#[trigger] e.aliases[i]) implies any_name(
        e,
        p,
    ) by {
        assert(all[i + 1] == e.aliases[i]);
    }
}

/// A name finds the first device that has it exactly; failing that the first that
/// is called so; failing that, where it holds words, the first of those that have
/// them all and whose own name is the shortest; and otherwise nothing.
pub proof fn law_a_name_finds_the_nearest(h: Seq<EntityV>, name: Seq<char>, i: int)
    ensures
        0 <= i < h.len() && is_named(h[i], name) && (forall|j: int|
            0 <= j < i ==> !is_named(#[trigger] h[j], name)) ==> found_by_name(h, name) == Some(
            h[i],
        ),
        0 <= i < h.len() && is_called(h[i], name) && (forall|j: int|
            0 <= j < i ==> !is_called(#[trigger] h[j], name)) && (forall|j: int|
            0 <= j < h.len() ==> !is_named(#[trigger] h[j], name)) ==> found_by_name(h, name)
            == Some(h[i]),
        ({
            let found = found_by_name(h, name);
            (forall|j: int|
                0 <= j < h.len() ==> !is_named(#[trigger] h[j], name) && !is_called(h[j], name))
                ==> {
                &&& found is Some <==> text::words_of(name).len() > 0 && exists|j: int|
                    0 <= j < h.len() && has_words(#[trigger] h[j], text::words_of(name))
                &&& found matches Some(e) ==> h.contains(e) && has_words(e, text::words_of(name))
                    && forall|j: int|
                    0 <= j < h.len() && has_words(#[trigger] h[j], text::words_of(name))
                        ==> text::byte_len(e.name) <= text::byte_len(h[j].name)
                &&& found matches Some(e) ==> exists|k: int|
                    0 <= k < h.len() && (#[trigger] h[k]) == e && forall|j: int|
                        0 <= j < k && has_words(#[trigger] h[j], text::words_of(name))
                            ==> text::byte_len(e.name) < text::byte_len(h[j].name)
            }
        }),
{
    let named = |e: EntityV| is_named(e, name);
    let called = |e: EntityV| is_called(e, name);
    let words = text::words_of(name);
    let worded = |e: EntityV| has_words(e, words);
    law_the_first_that_fits_is_found(h, named, i);
    law_the_first_that_fits_is_found(h, called, i);
    if forall|j: int|
        0 <= j < h.len() ==> !is_named(#[trigger] h[j], name) && !is_called(h[j], name) {
        assert(first_where(h, named) is None);
        assert(first_where(h, called) is None);
        let some = h.filter(worded);
        lemma_shortest(some);
        assert forall|j: int|
            0 <= j < h.len() && has_words(#[trigger] h[j], words) implies some.contains(h[j]) by {
            h.lemma_filter_contains(worded, j);
        }
        lemma_kept_from(h, worded);
        if some.len() > 0 {
            lemma_first_shortest(h, worded);
            let e = shortest(some)->0;
            let k = choose|k: int|
                0 <= k < h.len() && (#[trigger] h[k]) == e && forall|j: int|
                    0 <= j < k && worded(#[trigger] h[j]) ==> text::byte_len(e.name)
                        < text::byte_len(h[j].name);
            assert forall|j: int| 0 <= j < k && has_words(#[trigger] h[j], words) implies
            text::byte_len(e.name) < text::byte_len(h[j].name) by {
                assert(worded(h[j]));
            }
        }
    }
    if 0 <= i < h.len() && is_called(h[i], name) && (forall|j: int|
        0 <= j < h.len() ==> !is_named(#[trigger] h[j], name)) {
        assert forall|j: int| 0 <= j < h.len() implies !named(#[trigger] h[j]) by {
            assert(!is_named(h[j], name));
        }
        if forall|j: int| 0 <= j < i ==> !is_called(#[trigger] h[j], name) {
            assert forall|j: int| 0 <= j < i implies !called(#[trigger] h[j]) by {
                assert(!is_called(h[j], name));
            }
        }
    }
    if 0 <= i < h.len() && is_named(h[i], name) && (forall|j: int|
        0 <= j < i ==> !is_named(#[trigger] h[j], name)) {
        assert forall|j: int| 0 <= j < i implies !named(#[trigger] h[j]) by {
            assert(!is_named(h[j], name));
        }
    }
}

proof fn lemma_kept_from(h: Seq<EntityV>, p: spec_fn(EntityV) -> bool)
    ensures
        forall|i: int|
            0 <= i < h.filter(p).len() ==> h.contains(#[trigger] h.filter(p)[i]) && p(
                h.filter(p)[i],
            ),
    decreases h.len(),
{
    reveal(Seq::filter);
    if h.len() > 0 {
        let init = h.drop_last();
        lemma_kept_from(init, p);
        let before = init.filter(p);
        let after = h.filter(p);
        assert forall|i: int| 0 <= i < after.len() implies h.contains(#[trigger] after[i]) && p(
            after[i],
        ) by {
            if i < before.len() {
                assert(after[i] == before[i]);
                let k = choose|k: int| 0 <= k < init.len() && init[k] == before[i];
                assert(h[k] == before[i]);
            } else {
                assert(h[h.len() - 1] == after[i]);
            }
        }
    }
}

proof fn lemma_first_shortest(h: Seq<EntityV>, p: spec_fn(EntityV) -> bool)
    requires
        h.filter(p).len() > 0,
    ensures
        shortest(h.filter(p)) is Some,
        exists|k: int|
            0 <= k < h.len() && (#[trigger] h[k]) == shortest(h.filter(p))->0 && forall|j: int|
                0 <= j < k && p(#[trigger] h[j]) ==> text::byte_len(shortest(h.filter(p))->0.name)
                    < text::byte_len(h[j].name),
    decreases h.len(),
{
    reveal(Seq::filter);
    let init = h.drop_last();
    let before = init.filter(p);
    let after = h.filter(p);
    lemma_shortest(after);
    lemma_shortest(before);
    let last = h.len() - 1;
    let e = shortest(after)->0;
    if before.len() > 0 {
        lemma_first_shortest(init, p);
        let best = shortest(before)->0;
        let k = choose|k: int|
            0 <= k < init.len() && (#[trigger] init[k]) == best && forall|j: int|
                0 <= j < k && p(#[trigger] init[j]) ==> text::byte_len(best.name)
                    < text::byte_len(init[j].name);
        if p(h.last()) {
            assert(after.drop_last() == before);
            assert(after.last() == h.last());
        }
        if e == best {
            assert(h[k] == best);
            assert forall|j: int| 0 <= j < k && p(#[trigger] h[j]) implies text::byte_len(e.name)
                < text::byte_len(h[j].name) by {
                assert(init[j] == h[j]);
            }
        } else {
            assert(h[last] == e);
            assert forall|j: int| 0 <= j < last && p(#[trigger] h[j]) implies text::byte_len(
                e.name,
            ) < text::byte_len(h[j].name) by {
                assert(init[j] == h[j]);
                init.lemma_filter_contains(p, j);
                let q = choose|q: int| 0 <= q < before.len() && before[q] == init[j];
                assert(text::byte_len(best.name) <= text::byte_len(before[q].name));
            }
        }
    } else {
        assert(after.drop_last() == before);
        assert(after.last() == h.last());
        assert(h[last] == e);
        assert forall|j: int| 0 <= j < last && p(#[trigger] h[j]) implies text::byte_len(e.name)
            < text::byte_len(h[j].name) by {
            assert(init[j] == h[j]);
            init.lemma_filter_contains(p, j);
        }
    }
}

proof fn lemma_shortest(h: Seq<EntityV>)
    ensures
        shortest(h) is Some <==> h.len() > 0,
        shortest(h) matches Some(e) ==> h.contains(e) && forall|i: int|
            0 <= i < h.len() ==> text::byte_len(e.name) <= text::byte_len((#[trigger] h[i]).name),
    decreases h.len(),
{
    if h.len() > 0 {
        let init = h.drop_last();
        lemma_shortest(init);
        assert(h[h.len() - 1] == h.last());
        if shortest(init) is Some {
            let best = shortest(init)->0;
            let k = choose|k: int| 0 <= k < init.len() && init[k] == best;
            assert(h[k] == best);
        }
        let e = shortest(h)->0;
        assert forall|i: int| 0 <= i < h.len() implies text::byte_len(e.name) <= text::byte_len(
            (#[trigger] h[i]).name,
        ) by {
            if i < init.len() {
                assert(init[i] == h[i]);
            }
        }
    }
}

/// A device can be addressed where no two devices are called by its name.
pub proof fn law_one_answers_to_a_name(h: Seq<EntityV>, e: EntityV)
    ensures
        is_addressable(h, e) <==> !exists|i: int, j: int|
            0 <= i < j < h.len() && is_called(#[trigger] h[i], e.name) && is_called(
                #[trigger] h[j],
                e.name,
            ),
        is_targetable(h, e) <==> is_safe(e) && is_addressable(h, e) && (e.state is None
            || !text::same_but_case(e.state->0, "unavailable"@)),
{
    let p = |o: EntityV| is_called(o, e.name);
    law_what_fits_is_counted(h, p);
    if count_where(h, p) >= 2 {
        let (i, j) = choose|i: int, j: int|
            0 <= i < j < h.len() && p(#[trigger] h[i]) && p(#[trigger] h[j]);
        assert(is_called(h[i], e.name) && is_called(h[j], e.name));
    }
    assert forall|i: int, j: int|
        0 <= i < j < h.len() && is_called(#[trigger] h[i], e.name) && is_called(
            #[trigger] h[j],
            e.name,
        ) implies count_where(h, p) >= 2 by {
        assert(p(h[i]) && p(h[j]));
    }
}

/// Levels of one sort differ where more than one percent lies between them, and
/// temperatures where more than a twentieth of a degree does; levels of two sorts
/// always differ.
pub proof fn law_how_far_levels_differ(x: u8, y: u8, s: i128, t: i128, a: Level, b: Level)
    ensures
        levels_differ(Level::BrightnessPct(x), Level::BrightnessPct(y)) <==> x > y + 1 || y > x + 1,
        levels_differ(Level::VolumePct(x), Level::VolumePct(y)) <==> x > y + 1 || y > x + 1,
        levels_differ(Level::PositionPct(x), Level::PositionPct(y)) <==> x > y + 1 || y > x + 1,
        levels_differ(
            Level::TargetTemperature(Amount::Attos(s)),
            Level::TargetTemperature(Amount::Attos(t)),
        ) <==> s - t > 50_000_000_000_000_000 || t - s > 50_000_000_000_000_000,
        (a is BrightnessPct <==> b !is BrightnessPct) || (a is VolumePct <==> b !is VolumePct) || (
        a is PositionPct <==> b !is PositionPct) || (a is TargetTemperature <==> b
            !is TargetTemperature) ==> levels_differ(a, b),
{
}

/// A share is told to the nearest percent, a half rounded up: none for nought and
/// below, a hundred for the whole and above.
pub proof fn law_a_share_is_told_to_the_nearest_percent(x: i128, full: int)
    requires
        full > 0,
    ensures
        ({
            let p = percent_of(Amount::Attos(x), full);
            &&& x <= 0 ==> p == 0
            &&& x >= full ==> p == 100
            &&& 0 < x < full ==> 2 * (p * full) <= 200 * x + full < 2 * (p * full) + 2 * full
        }),
        percent_of(Amount::Infinite { negative: true }, full) == 0,
        percent_of(Amount::Infinite { negative: false }, full) == 100,
        percent_of(Amount::NotANumber, full) == 0,
{
    if 0 < x < full {
        let n = 200 * x + full;
        let d = 2 * full;
        let p = n / d;
        vstd::arithmetic::div_mod::lemma_fundamental_div_mod(n, d);
        vstd::arithmetic::div_mod::lemma_mod_bound(n, d);
        assert(d * p == 2 * (p * full)) by (nonlinear_arith)
            requires
                d == 2 * full,
        ;
    }
}

/// An attribute is the first of its name; the one that is set is read back, and
/// setting it changes no other.
pub proof fn law_what_is_set_is_read_back(
    attrs: Seq<(Seq<char>, Seq<char>)>,
    key: Seq<char>,
    v: Seq<char>,
    other: Seq<char>,
)
    ensures
        attribute(with_attribute(attrs, key, v), key) == Some(v),
        other != key ==> attribute(with_attribute(attrs, key, v), other) == attribute(attrs, other),
        attribute(Seq::empty(), key) is None,
    decreases attrs.len(),
{
    let after = with_attribute(attrs, key, v);
    if attrs.len() == 0 {
        assert(after.drop_first().len() == 0);
        assert(attribute(after.drop_first(), other) is None);
    } else if attrs[0].0 == key || order::text_order(key, attrs[0].0) < 0 {
        assert(after[0] == (key, v));
        if attrs[0].0 == key {
            assert(after.drop_first() == attrs.drop_first());
        } else {
            assert(after.drop_first() == attrs);
        }
    } else {
        law_what_is_set_is_read_back(attrs.drop_first(), key, v, other);
        assert(after[0] == attrs[0]);
        assert(after.drop_first() == with_attribute(attrs.drop_first(), key, v));
    }
}

/// The first of two attributes of one name is the one that counts.
pub proof fn law_an_attribute_is_the_first_of_its_name(
    attrs: Seq<(Seq<char>, Seq<char>)>,
    key: Seq<char>,
    i: int,
)
    requires
        0 <= i < attrs.len(),
        attrs[i].0 == key,
        forall|j: int| 0 <= j < i ==> (#[trigger] attrs[j]).0 != key,
    ensures
        attribute(attrs, key) == Some(attrs[i].1),
    decreases attrs.len(),
{
    if i > 0 {
        assert(attrs[0].0 != key);
        let t = attrs.drop_first();
        assert forall|j: int| 0 <= j < i - 1 implies (#[trigger] t[j]).0 != key by {
            assert(t[j] == attrs[j + 1]);
        }
        law_an_attribute_is_the_first_of_its_name(t, key, i - 1);
    }
}

/// A light's level is its brightness out of two hundred and fifty-five, a
/// player's its volume out of one, a cover's its position out of a hundred and a
/// climate device's the temperature it is set to; a device of another domain, or
/// whose attribute says no number, has none.
pub proof fn law_a_level_is_read_from_its_attribute(
    e: EntityV,
    attr: Seq<char>,
    v: Seq<char>,
    a: Amount,
)
    requires
        attribute(e.attributes, attr) == Some(v),
        decimal::amount_in(text::trimmed(v)) == Some(a),
    ensures
        e.domain == "light"@ && attr == "brightness"@ ==> level_of(e) == Some(
            Level::BrightnessPct(percent_of(a, 255 * ATTOS) as u8),
        ),
        e.domain == "media_player"@ && attr == "volume_level"@ ==> level_of(e) == Some(
            Level::VolumePct(percent_of(a, ATTOS as int) as u8),
        ),
        e.domain == "climate"@ && attr == "temperature"@ ==> level_of(e) == Some(
            Level::TargetTemperature(a),
        ),
        e.domain == "cover"@ && attr == "current_position"@ ==> level_of(e) == Some(
            Level::PositionPct(percent_of(a, 100 * ATTOS) as u8),
        ),
{
    lemma_level_domains();
}

proof fn lemma_level_domains()
    ensures
        "light"@ != "media_player"@,
        "light"@ != "climate"@,
        "light"@ != "cover"@,
        "media_player"@ != "climate"@,
        "media_player"@ != "cover"@,
        "climate"@ != "cover"@,
{
    reveal_strlit("light");
    reveal_strlit("media_player");
    reveal_strlit("climate");
    reveal_strlit("cover");
    assert("light"@.len() == 5 && "media_player"@.len() == 12 && "climate"@.len() == 7);
    assert("cover"@.len() == 5 && "cover"@[0] == 'c' && "light"@[0] == 'l');
}

/// Without its attribute, or where that says no number, a device has no level,
/// nor has a device of any other domain.
pub proof fn law_no_attribute_no_level(e: EntityV)
    ensures
        e.domain != "light"@ && e.domain != "media_player"@ && e.domain != "climate"@ && e.domain
            != "cover"@ ==> level_of(e) is None,
        e.domain == "light"@ && attribute(e.attributes, "brightness"@) is None ==> level_of(e)
            is None,
        e.domain == "media_player"@ && attribute(e.attributes, "volume_level"@) is None
            ==> level_of(e) is None,
        e.domain == "climate"@ && attribute(e.attributes, "temperature"@) is None ==> level_of(e)
            is None,
        e.domain == "cover"@ && attribute(e.attributes, "current_position"@) is None ==> level_of(
            e,
        ) is None,
{
    lemma_level_domains();
}

/// A line of a device's block tells one thing of it, and leaves the rest as it
/// was: its domain, its areas, its state, or else an attribute under the name
/// before the first colon.
pub proof fn law_a_line_tells_one_thing(e: EntityV, rest: Seq<char>)
    ensures
        told(e, "domain:"@ + rest) == (EntityV { domain: unquoted(rest), ..e }),
        told(e, "areas:"@ + rest) == (EntityV { areas: listed_areas(rest), ..e }),
        told(e, "state:"@ + rest) == (EntityV { state: Some(unquoted(rest)), ..e }),
{
    reveal_strlit("domain:");
    reveal_strlit("areas:");
    reveal_strlit("state:");
    text::law_what_follows_a_prefix("domain:"@ + rest, "domain:"@, rest);
    text::law_what_follows_a_prefix("areas:"@ + rest, "areas:"@, rest);
    text::law_what_follows_a_prefix("state:"@ + rest, "state:"@, rest);
    text::law_what_follows_a_prefix("areas:"@ + rest, "domain:"@, rest);
    text::law_what_follows_a_prefix("state:"@ + rest, "domain:"@, rest);
    text::law_what_follows_a_prefix("state:"@ + rest, "areas:"@, rest);
    let d = "domain:"@ + rest;
    let a = "areas:"@ + rest;
    let s = "state:"@ + rest;
    assert("domain:"@[0] == 'd' && "areas:"@[0] == 'a' && "state:"@[0] == 's');
    assert(d[0] == 'd' && a[0] == 'a' && s[0] == 's');
    if let Some(r) = text::after_prefix(a, "domain:"@) {
        assert(("domain:"@ + r)[0] == 'd');
    }
    if let Some(r) = text::after_prefix(s, "domain:"@) {
        assert(("domain:"@ + r)[0] == 'd');
    }
    if let Some(r) = text::after_prefix(s, "areas:"@) {
        assert(("areas:"@ + r)[0] == 'a');
    }
}

/// Any other line with a colon sets an attribute, where what stands before the
/// colon is one word; a line without a colon tells nothing.
pub proof fn law_any_other_line_is_an_attribute(e: EntityV, k: Seq<char>, v: Seq<char>)
    requires
        forall|i: int| 0 <= i < k.len() ==> #[trigger] k[i] != ':',
        text::trimmed(k) == k,
        k != "domain"@,
        k != "areas"@,
        k != "state"@,
    ensures
        k.len() > 0 && !text::has_sub(k, " "@) ==> told(e, k + seq![':'] + v) == (EntityV {
            attributes: with_attribute(e.attributes, k, unquoted(v)),
            ..e
        }),
        k.len() == 0 || text::has_sub(k, " "@) ==> told(e, k + seq![':'] + v) == e,
        told(e, k) == e,
{
    let line = k + seq![':'] + v;
    assert forall|i: int| 0 <= i < k.len() implies !text::of_kind(Kind::Colon, #[trigger] k[i]) by {
        assert(k[i] != ':');
    }
    text::law_pieces_are_what_stands_between(k, ':', v, Kind::Colon);
    lemma_other_key(k, v, "domain:"@, "domain"@);
    lemma_other_key(k, v, "areas:"@, "areas"@);
    lemma_other_key(k, v, "state:"@, "state"@);
}

proof fn lemma_other_key(k: Seq<char>, v: Seq<char>, pat: Seq<char>, word: Seq<char>)
    requires
        forall|i: int| 0 <= i < k.len() ==> #[trigger] k[i] != ':',
        k != word,
        pat == "domain:"@ && word == "domain"@ || pat == "areas:"@ && word == "areas"@ || pat
            == "state:"@ && word == "state"@,
    ensures
        text::after_prefix(k + seq![':'] + v, pat) is None,
        text::after_prefix(k, pat) is None,
{
    reveal_strlit("domain:");
    reveal_strlit("areas:");
    reveal_strlit("state:");
    reveal_strlit("domain");
    reveal_strlit("areas");
    reveal_strlit("state");
    assert(pat == word + seq![':']);
    let n = word.len() as int;
    assert(pat[n] == ':');
    assert forall|i: int| 0 <= i < n implies #[trigger] pat[i] != ':' && pat[i] == word[i] by {}
    let line = k + seq![':'] + v;
    if text::begins_with(line, pat) {
        assert forall|i: int| 0 <= i < pat.len() implies line[i] == #[trigger] pat[i] by {
            assert(line.subrange(0, pat.len() as int)[i] == line[i]);
        }
        assert(line[k.len() as int] == ':');
        if k.len() < n {
            assert(pat[k.len() as int] != ':');
        } else if k.len() > n {
            assert(line[n] == k[n]);
            assert(line[n] == pat[n]);
        } else {
            assert forall|i: int| 0 <= i < n implies k[i] == word[i] by {
                assert(line[i] == pat[i]);
            }
            assert(k == word);
        }
    }
    if text::begins_with(k, pat) {
        assert(k.subrange(0, pat.len() as int)[n] == k[n]);
        assert(k[n] == ':');
    }
}

/// What a device is told to be by the lines below its names.
pub open spec fn told_by(e: EntityV, lines: Seq<Seq<char>>) -> EntityV
    decreases lines.len(),
{
    if lines.len() == 0 {
        e
    } else {
        told(told_by(e, lines.drop_last()), text::trimmed(lines.last()))
    }
}

/// Each line that starts with `- names:` begins a device, which the lines below
/// it tell of until the next such line; a device that ends up without a name or
/// without a domain is left out. What stands before the first such line tells
/// nothing.
pub proof fn law_a_block_is_one_device(
    before: Seq<Seq<char>>,
    first: Seq<char>,
    names: Seq<char>,
    body: Seq<Seq<char>>,
)
    requires
        text::after_prefix(text::trimmed(first), "- names:"@) == Some(names),
        forall|i: int|
            0 <= i < body.len() ==> text::after_prefix(
                text::trimmed(#[trigger] body[i]),
                "- names:"@,
            ) is None,
    ensures
        ({
            let e = told_by(begun(names), body);
            let whole = closed(scanned(before + seq![first] + body));
            &&& e.name.len() > 0 && e.domain.len() > 0 ==> whole == closed(scanned(before)).push(e)
            &&& e.name.len() == 0 || e.domain.len() == 0 ==> whole == closed(scanned(before))
        }),
        closed(scanned(body)).len() == 0,
{
    lemma_open_block(before, first, names, body);
    lemma_no_block(body);
}

proof fn lemma_open_block(
    before: Seq<Seq<char>>,
    first: Seq<char>,
    names: Seq<char>,
    body: Seq<Seq<char>>,
)
    requires
        text::after_prefix(text::trimmed(first), "- names:"@) == Some(names),
        forall|i: int|
            0 <= i < body.len() ==> text::after_prefix(
                text::trimmed(#[trigger] body[i]),
                "- names:"@,
            ) is None,
    ensures
        scanned(before + seq![first] + body) == (Scan {
            done: closed(scanned(before)),
            open: Some(told_by(begun(names), body)),
        }),
    decreases body.len(),
{
    let all = before + seq![first] + body;
    if body.len() == 0 {
        assert(all.drop_last() == before);
        assert(all.last() == first);
    } else {
        let rest = body.drop_last();
        assert forall|i: int| 0 <= i < rest.len() implies text::after_prefix(
            text::trimmed(#[trigger] rest[i]),
            "- names:"@,
        ) is None by {
            assert(rest[i] == body[i]);
        }
        lemma_open_block(before, first, names, rest);
        assert(all.drop_last() == before + seq![first] + rest);
        assert(all.last() == body[body.len() - 1]);
    }
}

proof fn lemma_no_block(body: Seq<Seq<char>>)
    requires
        forall|i: int|
            0 <= i < body.len() ==> text::after_prefix(
                text::trimmed(#[trigger] body[i]),
                "- names:"@,
            ) is None,
    ensures
        scanned(body) == (Scan { done: Seq::empty(), open: None }),
    decreases body.len(),
{
    if body.len() > 0 {
        let rest = body.drop_last();
        assert forall|i: int| 0 <= i < rest.len() implies text::after_prefix(
            text::trimmed(#[trigger] rest[i]),
            "- names:"@,
        ) is None by {
            assert(rest[i] == body[i]);
        }
        lemma_no_block(rest);
        assert(body.last() == body[body.len() - 1]);
    }
}

/// A list is written with commas between its names; blanks and quotes round a
/// name are not part of it, and a name with nothing in it is none. An area's name
/// is shorter than sixty-four bytes.
pub proof fn law_names_are_listed_between_commas(a: Seq<char>, b: Seq<char>)
    requires
        forall|i: int| 0 <= i < a.len() ==> #[trigger] a[i] != ',',
    ensures
        listed(a) == (if unquoted(a).len() > 0 {
            seq![unquoted(a)]
        } else {
            Seq::empty()
        }),
        listed(a + seq![','] + b) == listed(a) + listed(b),
        listed_areas(a) == (if unquoted(a).len() > 0 && text::byte_len(unquoted(a)) < 64 {
            seq![unquoted(a)]
        } else {
            Seq::empty()
        }),
        listed_areas(a + seq![','] + b) == listed_areas(a) + listed_areas(b),
{
    reveal(Seq::filter);
    assert forall|i: int| 0 <= i < a.len() implies !text::of_kind(Kind::Comma, #[trigger] a[i]) by {
        assert(a[i] != ',');
    }
    text::law_pieces_are_what_stands_between(a, ',', b, Kind::Comma);
    let f = |p: Seq<char>| unquoted(p);
    let keep = |n: Seq<char>| n.len() > 0;
    let short = |n: Seq<char>| text::byte_len(n) < 64;
    let one = seq![a].map_values(f);
    assert(one == seq![unquoted(a)]);
    assert(one.drop_last().len() == 0);
    assert(one.drop_last().filter(keep).len() == 0);
    assert(one.last() == unquoted(a));
    assert(listed(a) == (if unquoted(a).len() > 0 {
        seq![unquoted(a)]
    } else {
        Seq::empty()
    }));
    let many = text::pieces(b, Kind::Comma);
    assert((seq![a] + many).map_values(f) == one + many.map_values(f));
    Seq::filter_distributes_over_add(one, many.map_values(f), keep);
    assert(listed(a + seq![','] + b) == listed(a) + listed(b));
    Seq::filter_distributes_over_add(listed(a), listed(b), short);
    let la = listed(a);
    if la.len() > 0 {
        assert(la.drop_last().len() == 0);
        assert(la.drop_last().filter(short).len() == 0);
    }
}

/// The names of a block are those listed behind it: the first is the device's
/// own, the rest are its other names, and nothing else is known of it yet.
pub proof fn law_a_device_begins_with_its_names(names: Seq<char>)
    ensures
        listed(names).len() > 0 ==> seq![begun(names).name] + begun(names).aliases == listed(names),
        listed(names).len() == 0 ==> begun(names).name.len() == 0,
        begun(names).domain.len() == 0,
        begun(names).areas.len() == 0,
        begun(names).attributes.len() == 0,
        begun(names).state is None,
{
    let all = listed(names);
    if all.len() > 0 {
        assert(seq![all[0]] + all.drop_first() == all);
    }
}

/// A text's value is what is left of it once the blanks round it, the quotes
/// round that and the blanks inside those are gone.
pub proof fn law_quotes_are_not_part_of_a_value(
    a: Seq<char>,
    q: Seq<char>,
    core: Seq<char>,
    r: Seq<char>,
    b: Seq<char>,
)
    requires
        forall|i: int| 0 <= i < a.len() ==> text::is_space(#[trigger] a[i]),
        forall|i: int| 0 <= i < b.len() ==> text::is_space(#[trigger] b[i]),
        q == seq!['\''] || q == seq!['"'] || q.len() == 0,
        r == q,
        core.len() > 0,
        !text::is_space(core[0]) && core[0] != '\'' && core[0] != '"',
        !text::is_space(core.last()) && core.last() != '\'' && core.last() != '"',
    ensures
        unquoted(a + q + core + r + b) == core,
{
    let mid = q + core + r;
    assert forall|i: int| 0 <= i < a.len() implies text::of_kind(Kind::Space, #[trigger] a[i]) by {}
    assert forall|i: int| 0 <= i < b.len() implies text::of_kind(Kind::Space, #[trigger] b[i]) by {}
    assert(mid.len() > 0);
    if q.len() > 0 {
        assert(mid[0] == q[0]);
        assert(mid.last() == r[0]);
    } else {
        assert(mid == core);
    }
    assert(!text::of_kind(Kind::Space, mid[0]));
    assert(!text::of_kind(Kind::Space, mid.last()));
    text::law_stripping_takes_the_kind_only(a, mid, b, Kind::Space);
    assert(a + mid + b == a + q + core + r + b);
    text::law_stripping_takes_the_kind_only(q, core, r, Kind::Quote);
    text::law_stripping_takes_the_kind_only(Seq::empty(), core, Seq::empty(), Kind::Space);
    assert(Seq::<char>::empty() + core + Seq::<char>::empty() == core);
}

/// The devices of an area are those that list it, and what is refused is what
/// answers to a refused name.
pub proof fn law_a_room_holds_what_lists_it(
    h: Seq<EntityV>,
    area: Seq<char>,
    e: EntityV,
    names: Seq<Seq<char>>,
)
    ensures
        house_in_area(h, area).contains(e) <==> h.contains(e) && e.areas.contains(area),
        is_one_of(e, names) <==> exists|i: int|
            0 <= i < names.len() && is_called(e, #[trigger] names[i]),
        has_area(h, area) <==> exists|i: int|
            0 <= i < h.len() && (#[trigger] h[i]).areas.contains(area),
{
    let p = |e: EntityV| is_in(e, area);
    lemma_kept_from(h, p);
    let some = h.filter(p);
    if some.contains(e) {
        let k = choose|k: int| 0 <= k < some.len() && some[k] == e;
        assert(h.contains(some[k]) && p(some[k]));
    }
    if h.contains(e) && e.areas.contains(area) {
        let i = choose|i: int| 0 <= i < h.len() && h[i] == e;
        h.lemma_filter_contains(p, i);
    }
    if has_area(h, area) {
        let i = choose|i: int| 0 <= i < h.len() && is_in(#[trigger] h[i], area);
        assert(h[i].areas.contains(area));
    }
    assert forall|i: int|
        0 <= i < h.len() && (#[trigger] h[i]).areas.contains(area) implies has_area(h, area) by {
        assert(is_in(h[i], area));
    }
}

/// A dump is the text under `result` where what was read has one, and otherwise
/// what was sent, as it is.
pub proof fn law_a_dump_is_unwrapped(v: JsonV, t: Seq<char>, payload: Seq<char>)
    ensures
        json::text_field(v, "result"@) == Some(t) ==> dump_in(Some(v), payload) == t,
        json::text_field(v, "result"@) is None ==> dump_in(Some(v), payload) == payload,
        dump_in(None, payload) == payload,
        described(t) == closed(scanned(text::pieces(t, Kind::Newline))),
{
}

/// Devices are ordered by name, then by domain.
pub proof fn law_devices_are_ordered_by_name(a: EntityV, b: EntityV)
    ensures
        order::text_order(a.name, b.name) != 0 ==> entity_order(a, b) == order::text_order(
            a.name,
            b.name,
        ),
        a.name == b.name && order::text_order(a.domain, b.domain) != 0 ==> entity_order(a, b)
            == order::text_order(a.domain, b.domain),
{
    order::law_texts_are_ordered_by_the_first_difference(a.name, a.name, a.name.len() as int);
}

/// A temperature that is no number differs from none, and one that is beyond
/// every number from any but itself.
pub proof fn law_temperatures_beyond_numbers(a: Amount, b: Amount, x: i128, s: bool, t: bool)
    ensures
        !temperatures_differ(Amount::NotANumber, a),
        !temperatures_differ(a, Amount::NotANumber),
        temperatures_differ(Amount::Infinite { negative: s }, Amount::Attos(x)),
        temperatures_differ(Amount::Attos(x), Amount::Infinite { negative: s }),
        temperatures_differ(
            Amount::Infinite { negative: s },
            Amount::Infinite { negative: t },
        ) <==> s != t,
        levels_differ(Level::TargetTemperature(a), Level::TargetTemperature(b))
            == temperatures_differ(a, b),
{
}

/// A dump is wrapped as an object that has it, whole, under `result`.
pub proof fn law_a_dump_is_wrapped_whole(dump: Seq<char>)
    ensures
        wrapped(dump) == json::compact(json::one_text("result"@, dump)),
        json::text_field(json::one_text("result"@, dump), "result"@) == Some(dump),
{
    json::lemma_key_at(seq![("result"@, JsonV::Text(dump))], "result"@, 0);
}

/// A reading of a dump holds every device the dump describes and no other, each
/// once, and in order.
pub proof fn law_every_device_described_is_read(
    house: Seq<EntityV>,
    dump: Seq<char>,
    e: EntityV,
    i: int,
    j: int,
)
    requires
        is_reading_of(house, dump),
    ensures
        house.contains(e) <==> closed(scanned(text::pieces(dump, Kind::Newline))).contains(e),
        0 <= i < j < house.len() ==> entity_order(house[i], house[j]) < 0,
        0 <= i < j < house.len() ==> house[i] != house[j],
{
    if 0 <= i < j < house.len() {
        order::law_a_row_in_order::<Entity>(house, i, j);
        lemma_entity_order();
        let f = |a: EntityV, b: EntityV| entity_order(a, b);
        assert(order::is_order(f));
        assert(f(house[i], house[j]) < 0);
    }
}

/// The areas of a house are those some device lists, each once, and in order.
pub proof fn law_every_area_is_listed(
    areas: Seq<Seq<char>>,
    h: Seq<EntityV>,
    a: Seq<char>,
    i: int,
    j: int,
)
    requires
        lists_areas(areas, h),
    ensures
        areas.contains(a) <==> exists|k: int|
            0 <= k < h.len() && (#[trigger] h[k]).areas.contains(a),
        0 <= i < j < areas.len() ==> order::text_order(areas[i], areas[j]) < 0,
{
    let none = Seq::<Seq<char>>::empty();
    law_a_room_holds_what_lists_it(
        h,
        a,
        EntityV {
            name: a,
            domain: a,
            aliases: none,
            areas: none,
            state: None,
            attributes: Seq::empty(),
        },
        none,
    );
    if 0 <= i < j < areas.len() {
        order::law_a_row_in_order::<String>(areas, i, j);
    }
}

/// Words are all within others where each of them is among those.
pub proof fn law_each_word_is_within(a: Seq<Seq<char>>, b: Seq<Seq<char>>, w: Seq<char>)
    ensures
        all_within(a, b) && a.contains(w) ==> b.contains(w),
        a.contains(w) && !b.contains(w) ==> !all_within(a, b),
        all_within(Seq::empty(), b),
        all_within(a.push(w), b) <==> all_within(a, b) && b.contains(w),
{
    let more = a.push(w);
    if a.contains(w) {
        let i = choose|i: int| 0 <= i < a.len() && a[i] == w;
        assert(a[i] == w);
    }
    if all_within(more, b) {
        assert forall|i: int| 0 <= i < a.len() implies b.contains(#[trigger] a[i]) by {
            assert(more[i] == a[i]);
        }
        assert(more[a.len() as int] == w);
    }
}

} // verus!
