//! Find the devices a fixture needs in whatever house it is pointed at.
//!
//! A fixture never names a device — it states a requirement ("any light", "an
//! area with a light and something else switchable in it") and the requirement
//! is resolved here against the live house. Nothing private is written down,
//! and the same suite runs on a one-lamp flat and a two-hundred-entity home.
//!
//! Selection takes the first candidate of a sorted house, so two runs pick the
//! same lamp; and an unsatisfiable requirement is a skip, not a failure.

use vstd::prelude::*;

use super::house;
use super::house::{Entity, EntityV, House};
use crate::order;
use crate::text;
use crate::text::{copy_opt, count_text, holds, join, loose_eq, own, same, words};

verus! {

/// What a fixture needs, stated without naming anything.
#[derive(Debug, Clone, PartialEq, Eq)]
pub enum Requirement {
    /// Any single entity in a domain — "a light", "a media player".
    Device { domain: String },
    /// A device in a domain that also reports a settable level.
    AdjustableDevice { domain: String },
    /// An area containing a device in `domain` **and** at least one device in a
    /// different switchable domain: the bystander that must **not** move.
    AreaWithBystander { domain: String },
    /// One device named outright, for fixtures about one house.
    NamedDevice { name: String },
    /// Every device of one domain in one named area, as a group.
    NamedArea { area: String, domain: String },
    /// Whichever area holds at least `at_least` devices of one domain, as a
    /// group.
    AreaWithSeveral { domain: String, at_least: usize },
    /// A name no device in this home answers to.
    NoSuchDevice { name: String },
}

/// What a [`Requirement`] says.
pub enum RequirementV {
    Device { domain: Seq<char> },
    AdjustableDevice { domain: Seq<char> },
    AreaWithBystander { domain: Seq<char> },
    NamedDevice { name: Seq<char> },
    NamedArea { area: Seq<char>, domain: Seq<char> },
    AreaWithSeveral { domain: Seq<char>, at_least: nat },
    NoSuchDevice { name: Seq<char> },
}

impl View for Requirement {
    type V = RequirementV;

    open spec fn view(&self) -> RequirementV {
        match self {
            Requirement::Device { domain } => RequirementV::Device { domain: domain@ },
            Requirement::AdjustableDevice { domain } => RequirementV::AdjustableDevice {
                domain: domain@,
            },
            Requirement::AreaWithBystander { domain } => RequirementV::AreaWithBystander {
                domain: domain@,
            },
            Requirement::NamedDevice { name } => RequirementV::NamedDevice { name: name@ },
            Requirement::NamedArea { area, domain } => RequirementV::NamedArea {
                area: area@,
                domain: domain@,
            },
            Requirement::AreaWithSeveral { domain, at_least } => RequirementV::AreaWithSeveral {
                domain: domain@,
                at_least: *at_least as nat,
            },
            Requirement::NoSuchDevice { name } => RequirementV::NoSuchDevice { name: name@ },
        }
    }
}

/// A requirement resolved against a real house.
#[derive(Debug, Clone)]
pub struct Target {
    /// The entity the utterance will name. For a group this is the first member.
    pub device: Entity,
    /// Every entity the command is expected to move. "Turn on the light in the
    /// bedroom" is not satisfied by one of three lamps coming on.
    pub group: Vec<Entity>,
    /// The area to use when the utterance names an area.
    pub area: Option<String>,
    /// The entity that must be unaffected, for requirements that have one.
    pub bystander: Option<Entity>,
}

/// What a [`Target`] says.
#[verifier::ext_equal]
pub struct TargetV {
    pub device: EntityV,
    pub group: Seq<EntityV>,
    pub area: Option<Seq<char>>,
    pub bystander: Option<EntityV>,
}

impl View for Target {
    type V = TargetV;

    open spec fn view(&self) -> TargetV {
        TargetV {
            device: self.device@,
            group: order::views(self.group@),
            area: text::opt_text(self.area),
            bystander: match self.bystander {
                Some(e) => Some(e@),
                None => None,
            },
        }
    }
}

/// The leading names of some entities.
pub open spec fn leading_names(group: Seq<EntityV>) -> Seq<Seq<char>> {
    group.map_values(|e: EntityV| e.name)
}

impl Target {
    /// Whether this target is a group rather than a single device.
    pub fn is_group(&self) -> (r: bool)
        ensures
            r == (self@.group.len() > 1),
    {
        self.group.len() > 1
    }

    /// Names of everything the command is expected to move.
    pub fn group_names(&self) -> (r: Vec<&str>)
        ensures
            text::texts(r@) == leading_names(self@.group),
    {
        let mut out: Vec<&str> = Vec::new();
        for i in 0..self.group.len()
            invariant
                out@.len() == i,
                forall|k: int| 0 <= k < i ==> (#[trigger] out@[k])@ == self.group@[k]@.name,
        {
            out.push(self.group[i].name.as_str());
        }
        assert(text::texts(out@) =~= leading_names(self@.group));
        out
    }

    /// A target of its own that says the same.
    pub fn copy(&self) -> (r: Target)
        ensures
            r@ == self@,
    {
        let mut group: Vec<Entity> = Vec::new();
        for i in 0..self.group.len()
            invariant
                group@.len() == i,
                forall|k: int| 0 <= k < i ==> (#[trigger] group@[k])@ == self.group@[k]@,
        {
            group.push(self.group[i].copy());
        }
        assert(order::views(group@) =~= order::views(self.group@));
        Target {
            device: self.device.copy(),
            group,
            area: copy_opt(&self.area),
            bystander: match &self.bystander {
                Some(b) => Some(b.copy()),
                None => None,
            },
        }
    }

    /// One device, standing alone.
    fn single(device: &Entity, area: Option<String>, bystander: Option<&Entity>) -> (r: Target)
        ensures
            r@ == alone(device@, text::opt_text(area), house::opt_entity(bystander)),
    {
        let mut group: Vec<Entity> = Vec::new();
        group.push(device.copy());
        assert(order::views(group@) =~= seq![device@]);
        Target {
            device: device.copy(),
            group,
            area,
            bystander: match bystander {
                Some(b) => Some(b.copy()),
                None => None,
            },
        }
    }
}

/// One device, standing alone.
pub open spec fn alone(
    device: EntityV,
    area: Option<Seq<char>>,
    bystander: Option<EntityV>,
) -> TargetV {
    TargetV { device, group: seq![device], area, bystander }
}

/// Why a requirement could not be met. Carried into the report as a skip, so the
/// reason is visible rather than inferred from a missing row.
#[derive(Debug, Clone)]
pub struct Unsatisfied(pub String);

impl Unsatisfied {
    /// The reason, in words.
    pub fn to_text(&self) -> (r: String)
        ensures
            r@ == self.0@,
    {
        self.0.clone()
    }
}

// ---------------------------------------------------------------------------
// Bystanders
// ---------------------------------------------------------------------------

/// Domains that are switchable and therefore make a meaningful bystander.
pub open spec fn is_switchable(domain: Seq<char>) -> bool {
    domain == "light"@ || domain == "switch"@ || domain == "climate"@ || domain == "fan"@ || domain
        == "media_player"@ || domain == "cover"@
}

/// Words that make an entity *read* as belonging to a domain, whatever the
/// domain field says, in the languages a house may be named in.
pub open spec fn domain_words(domain: Seq<char>) -> Seq<Seq<char>> {
    if domain == "light"@ {
        seq![
            "light"@,
            "lights"@,
            "lamp"@,
            "lamps"@,
            "lumina"@,
            "lumini"@,
            "lumière"@,
            "luz"@,
            "spot"@,
        ]
    } else if domain == "climate"@ {
        seq![
            "ac"@,
            "aircon"@,
            "air conditioner"@,
            "climate"@,
            "thermostat"@,
            "clima"@,
            "termostat"@,
        ]
    } else if domain == "fan"@ {
        seq!["fan"@, "ventilator"@, "ventilateur"@]
    } else if domain == "media_player"@ {
        seq!["speaker"@, "speakers"@, "tv"@, "media"@, "boxa"@, "boxă"@, "difuzor"@]
    } else if domain == "cover"@ {
        seq!["blind"@, "blinds"@, "shutter"@, "shutters"@, "curtain"@, "jaluzea"@, "rulou"@]
    } else {
        Seq::empty()
    }
}

fn words_for(domain: &str) -> (r: Vec<&'static str>)
    ensures
        text::texts(r@) == domain_words(domain@),
{
    if same(domain, "light") {
        let v: Vec<&'static str> = vec![
            "light",
            "lights",
            "lamp",
            "lamps",
            "lumina",
            "lumini",
            "lumière",
            "luz",
            "spot",
        ];
        assert(text::texts(v@) =~= domain_words(domain@));
        v
    } else if same(domain, "climate") {
        let v: Vec<&'static str> = vec![
            "ac",
            "aircon",
            "air conditioner",
            "climate",
            "thermostat",
            "clima",
            "termostat",
        ];
        assert(text::texts(v@) =~= domain_words(domain@));
        v
    } else if same(domain, "fan") {
        let v: Vec<&'static str> = vec!["fan", "ventilator", "ventilateur"];
        assert(text::texts(v@) =~= domain_words(domain@));
        v
    } else if same(domain, "media_player") {
        let v: Vec<&'static str> = vec![
            "speaker",
            "speakers",
            "tv",
            "media",
            "boxa",
            "boxă",
            "difuzor",
        ];
        assert(text::texts(v@) =~= domain_words(domain@));
        v
    } else if same(domain, "cover") {
        let v: Vec<&'static str> = vec![
            "blind",
            "blinds",
            "shutter",
            "shutters",
            "curtain",
            "jaluzea",
            "rulou",
        ];
        assert(text::texts(v@) =~= domain_words(domain@));
        v
    } else {
        let v: Vec<&'static str> = Vec::new();
        assert(text::texts(v@) =~= domain_words(domain@));
        v
    }
}

/// Whether a marker word stands among the words of a name. A marker of several
/// words is looked for in the words joined.
pub open spec fn marked(name_words: Seq<Seq<char>>, marker: Seq<char>) -> bool {
    if text::has_sub(marker, " "@) {
        text::has_sub(text::joined(name_words, " "@), marker)
    } else {
        name_words.contains(marker)
    }
}

/// Whether a name reads as belonging to a domain. Matched on whole words: `ac`
/// is a real marker for an air conditioner and a disastrous substring.
pub open spec fn suggests(name: Seq<char>, domain: Seq<char>) -> bool {
    exists|i: int|
        0 <= i < domain_words(domain).len() && marked(
            text::words_of(name),
            #[trigger] domain_words(domain)[i],
        )
}

/// Whether `name` reads as belonging to `domain`.
pub fn name_suggests_domain(name: &str, domain: &str) -> (r: bool)
    ensures
        r == suggests(name@, domain@),
{
    let own_words = words(name);
    let joined = join(&own_words, " ");
    let markers = words_for(domain);
    let ghost all = domain_words(domain@);
    let ghost have = text::words_of(name@);
    for i in 0..markers.len()
        invariant
            all == text::texts(markers@),
            all == domain_words(domain@),
            have == text::texts(own_words@),
            have == text::words_of(name@),
            joined@ == text::joined(have, " "@),
            forall|k: int| 0 <= k < i ==> !marked(have, #[trigger] all[k]),
    {
        assert(all[i as int] == markers@[i as int]@);
        let found = if holds(markers[i], " ") {
            holds(&joined, markers[i])
        } else {
            crate::text::has_text(&own_words, markers[i])
        };
        if found {
            assert(marked(have, domain_words(domain@)[i as int]));
            return true;
        }
    }
    false
}

/// Whether an entity may stand for the thing that must not move: of another
/// switchable domain, and with no name that reads as the requested one — or the
/// assertion would score a model wrong for agreeing with the user.
pub open spec fn is_bystander(e: EntityV, domain: Seq<char>) -> bool {
    &&& e.domain != domain
    &&& is_switchable(e.domain)
    &&& !house::any_name(e, |n: Seq<char>| suggests(n, domain))
}

fn switchable(domain: &str) -> (r: bool)
    ensures
        r == is_switchable(domain@),
{
    same(domain, "light") || same(domain, "switch") || same(domain, "climate") || same(
        domain,
        "fan",
    ) || same(domain, "media_player") || same(domain, "cover")
}

fn may_stand_by(e: &Entity, domain: &str) -> (r: bool)
    ensures
        r == is_bystander(e@, domain@),
{
    if same(&e.domain, domain) || !switchable(&e.domain) {
        return false;
    }
    let names = e.every_name();
    let ghost all = house::names_of(e@);
    let ghost test = |n: Seq<char>| suggests(n, domain@);
    for i in 0..names.len()
        invariant
            all == text::texts(names@),
            all == house::names_of(e@),
            test == (|n: Seq<char>| suggests(n, domain@)),
            forall|k: int| 0 <= k < i ==> !test(#[trigger] all[k]),
    {
        assert(all[i as int] == names@[i as int]@);
        if name_suggests_domain(names[i], domain) {
            assert(test(house::names_of(e@)[i as int]));
            return false;
        }
    }
    true
}

// ---------------------------------------------------------------------------
// Resolving
// ---------------------------------------------------------------------------

/// Whether an entity is one of a domain that a fixture may aim at.
pub open spec fn is_candidate(h: Seq<EntityV>, e: EntityV, domain: Seq<char>) -> bool {
    e.domain == domain && house::is_targetable(h, e)
}

/// Whether an entity is such a one in an area.
pub open spec fn is_candidate_in(
    h: Seq<EntityV>,
    e: EntityV,
    area: Seq<char>,
    domain: Seq<char>,
) -> bool {
    house::is_in(e, area) && is_candidate(h, e, domain)
}

/// Every candidate of a domain in an area.
pub open spec fn group_of(h: Seq<EntityV>, area: Seq<char>, domain: Seq<char>) -> Seq<EntityV> {
    h.filter(|e: EntityV| is_candidate_in(h, e, area, domain))
}

/// The areas of a house, in order and each once.
pub open spec fn areas_of(h: Seq<EntityV>) -> Seq<Seq<char>> {
    choose|a: Seq<Seq<char>>| house::lists_areas(a, h)
}

/// The first area of an entity.
pub open spec fn home_area(e: EntityV) -> Option<Seq<char>> {
    if e.areas.len() > 0 {
        Some(e.areas[0])
    } else {
        None
    }
}

/// Why a domain yielded no target: none is there, none answers, or none will do.
pub open spec fn no_target(h: Seq<EntityV>, domain: Seq<char>, extra: Seq<char>) -> Seq<char> {
    let present = exists|i: int| 0 <= i < h.len() && (#[trigger] h[i]).domain == domain;
    let reachable = exists|i: int|
        0 <= i < h.len() && (#[trigger] h[i]).domain == domain && house::answers(h[i]);
    if present && !reachable {
        "every "@ + domain + " in this home is unavailable"@
    } else if present {
        "no "@ + domain + " in this home "@ + extra
    } else {
        "no "@ + domain + " in this home"@
    }
}

/// The words for a device that cannot be commanded.
pub open spec fn by_name() -> Seq<char> {
    "can be commanded by name"@
}

/// The candidate a requirement for an adjustable device takes: one that reports
/// a level now, or the first otherwise — whether a lamp reports its brightness
/// can depend on whether it is lit.
pub open spec fn adjustable(h: Seq<EntityV>, domain: Seq<char>) -> Option<EntityV> {
    match house::first_where(
        h,
        |e: EntityV| is_candidate(h, e, domain) && house::level_of(e) is Some,
    ) {
        Some(e) => Some(e),
        None => house::first_where(h, |e: EntityV| is_candidate(h, e, domain)),
    }
}

/// The first area with a candidate and a bystander.
pub open spec fn with_bystander(
    h: Seq<EntityV>,
    domain: Seq<char>,
    areas: Seq<Seq<char>>,
) -> Option<TargetV>
    decreases areas.len(),
{
    if areas.len() == 0 {
        None
    } else {
        let area = areas[0];
        let device = house::first_where(h, |e: EntityV| is_candidate_in(h, e, area, domain));
        let other = house::first_where(
            h,
            |e: EntityV|
                house::is_in(e, area) && house::is_targetable(h, e) && is_bystander(e, domain),
        );
        match (device, other) {
            (Some(d), Some(b)) => Some(alone(d, Some(area), Some(b))),
            _ => with_bystander(h, domain, areas.drop_first()),
        }
    }
}

/// The first area with enough candidates.
pub open spec fn with_several(
    h: Seq<EntityV>,
    domain: Seq<char>,
    wanted: nat,
    areas: Seq<Seq<char>>,
) -> Option<TargetV>
    decreases areas.len(),
{
    if areas.len() == 0 {
        None
    } else {
        let group = group_of(h, areas[0], domain);
        if group.len() >= wanted {
            Some(TargetV { device: group[0], group, area: Some(areas[0]), bystander: None })
        } else {
            with_several(h, domain, wanted, areas.drop_first())
        }
    }
}

/// The first area that goes by a name but for case, spacing and punctuation.
pub open spec fn area_called(areas: Seq<Seq<char>>, name: Seq<char>) -> Option<Seq<char>>
    decreases areas.len(),
{
    if areas.len() == 0 {
        None
    } else if text::loosely_equal(areas[0], name) {
        Some(areas[0])
    } else {
        area_called(areas.drop_first(), name)
    }
}

/// How many devices a group needs at least: one is no group.
pub open spec fn wanted_of(at_least: nat) -> nat {
    if at_least < 2 {
        2
    } else {
        at_least
    }
}

/// A target with nothing in it: nothing in this home may move.
pub open spec fn nothing_called(name: Seq<char>) -> TargetV {
    TargetV {
        device: EntityV {
            name,
            domain: Seq::empty(),
            aliases: Seq::empty(),
            areas: Seq::empty(),
            state: None,
            attributes: Seq::empty(),
        },
        group: Seq::empty(),
        area: None,
        bystander: None,
    }
}

/// A single device, or the reason there is none.
pub open spec fn single_or(e: Option<EntityV>, why: Seq<char>) -> Result<TargetV, Seq<char>> {
    match e {
        Some(d) => Ok(alone(d, home_area(d), None)),
        None => Err(why),
    }
}

/// What a requirement resolves to, or why it cannot be met.
pub open spec fn resolved(r: RequirementV, h: Seq<EntityV>) -> Result<TargetV, Seq<char>> {
    match r {
        RequirementV::Device { domain } => single_or(
            house::first_where(h, |e: EntityV| is_candidate(h, e, domain)),
            no_target(h, domain, by_name()),
        ),
        RequirementV::AdjustableDevice { domain } => single_or(
            adjustable(h, domain),
            no_target(h, domain, by_name()),
        ),
        RequirementV::AreaWithBystander { domain } => match with_bystander(
            h,
            domain,
            areas_of(h),
        ) {
            Some(t) => Ok(t),
            None => Err(
                "no room in this home has a "@ + domain + " alongside another switchable device"@,
            ),
        },
        RequirementV::NamedDevice { name } => single_or(
            match house::found_by_name(h, name) {
                Some(e) => if house::is_targetable(h, e) {
                    Some(e)
                } else {
                    None
                },
                None => None,
            },
            "this home exposes no device matching `"@ + name + "` (try --show-house)"@,
        ),
        RequirementV::NamedArea { area, domain } => match area_called(areas_of(h), area) {
            None => Err("this home has no area `"@ + area + "`"@),
            Some(recorded) => {
                let group = group_of(h, recorded, domain);
                if group.len() == 0 {
                    Err("`"@ + recorded + "` exposes no "@ + domain + " to the assistant"@)
                } else {
                    Ok(TargetV { device: group[0], group, area: Some(recorded), bystander: None })
                }
            },
        },
        RequirementV::AreaWithSeveral { domain, at_least } => match with_several(
            h,
            domain,
            wanted_of(at_least),
            areas_of(h),
        ) {
            Some(t) => Ok(t),
            None => Err(
                "no area in this home exposes "@ + text::decimal(wanted_of(at_least)) + " "@
                    + domain + " devices at once"@,
            ),
        },
        RequirementV::NoSuchDevice { name } => match house::found_by_name(h, name) {
            Some(e) => Err(
                "this home has a device matching `"@ + name + "` ("@ + e.name
                    + "), so it is not a name to refuse"@,
            ),
            None => Ok(nothing_called(name)),
        },
    }
}

/// What a resolution says.
pub open spec fn resolution(r: Result<Target, Unsatisfied>) -> Result<TargetV, Seq<char>> {
    match r {
        Ok(t) => Ok(t@),
        Err(u) => Err(u.0@),
    }
}

fn areas_in_order(h: &House) -> (r: Vec<String>)
    ensures
        text::texts(r@) == areas_of(h@),
{
    let a = h.areas();
    proof {
        house::lemma_one_list_of_areas(text::texts(a@), areas_of(h@), h@);
    }
    a
}

fn first_area(e: &Entity) -> (r: Option<String>)
    ensures
        text::opt_text(r) == home_area(e@),
{
    if e.areas.len() > 0 {
        assert(e@.areas[0] == e.areas@[0]@);
        Some(e.areas[0].clone())
    } else {
        None
    }
}

fn candidate(h: &House, e: &Entity, domain: &str) -> (r: bool)
    ensures
        r == is_candidate(h@, e@, domain@),
{
    same(&e.domain, domain) && h.targetable(e)
}

fn first_candidate<'a>(h: &'a House, domain: &str) -> (r: Option<&'a Entity>)
    ensures
        house::opt_entity(r) == house::first_where(
            h@,
            |e: EntityV| is_candidate(h@, e, domain@),
        ),
{
    let ghost all = h@;
    let ghost test = |e: EntityV| is_candidate(all, e, domain@);
    assert(all.skip(0) == all);
    for i in 0..h.entities.len()
        invariant
            all == h@,
            test == (|e: EntityV| is_candidate(all, e, domain@)),
            house::first_where(all, test) == house::first_where(all.skip(i as int), test),
    {
        proof {
            assert(all.skip(i as int).drop_first() == all.skip(i + 1));
            assert(all.skip(i as int)[0] == h.entities@[i as int]@);
        }
        if candidate(h, &h.entities[i], domain) {
            return Some(&h.entities[i]);
        }
    }
    None
}

fn first_adjustable<'a>(h: &'a House, domain: &str) -> (r: Option<&'a Entity>)
    ensures
        house::opt_entity(r) == adjustable(h@, domain@),
{
    let ghost all = h@;
    let ghost test = |e: EntityV| is_candidate(all, e, domain@) && house::level_of(e) is Some;
    assert(all.skip(0) == all);
    for i in 0..h.entities.len()
        invariant
            all == h@,
            test == (|e: EntityV| is_candidate(all, e, domain@) && house::level_of(e) is Some),
            house::first_where(all, test) == house::first_where(all.skip(i as int), test),
    {
        proof {
            assert(all.skip(i as int).drop_first() == all.skip(i + 1));
            assert(all.skip(i as int)[0] == h.entities@[i as int]@);
        }
        if candidate(h, &h.entities[i], domain) && h.entities[i].is_adjustable() {
            return Some(&h.entities[i]);
        }
    }
    first_candidate(h, domain)
}

fn first_in_area<'a>(h: &'a House, area: &str, domain: &str) -> (r: Option<&'a Entity>)
    ensures
        house::opt_entity(r) == house::first_where(
            h@,
            |e: EntityV| is_candidate_in(h@, e, area@, domain@),
        ),
{
    let ghost all = h@;
    let ghost test = |e: EntityV| is_candidate_in(all, e, area@, domain@);
    assert(all.skip(0) == all);
    for i in 0..h.entities.len()
        invariant
            all == h@,
            test == (|e: EntityV| is_candidate_in(all, e, area@, domain@)),
            house::first_where(all, test) == house::first_where(all.skip(i as int), test),
    {
        proof {
            assert(all.skip(i as int).drop_first() == all.skip(i + 1));
            assert(all.skip(i as int)[0] == h.entities@[i as int]@);
        }
        if h.entities[i].within(area) && candidate(h, &h.entities[i], domain) {
            return Some(&h.entities[i]);
        }
    }
    None
}

fn first_bystander<'a>(h: &'a House, area: &str, domain: &str) -> (r: Option<&'a Entity>)
    ensures
        house::opt_entity(r) == house::first_where(
            h@,
            |e: EntityV|
                house::is_in(e, area@) && house::is_targetable(h@, e) && is_bystander(e, domain@),
        ),
{
    let ghost all = h@;
    let ghost test = |e: EntityV|
        house::is_in(e, area@) && house::is_targetable(all, e) && is_bystander(e, domain@);
    assert(all.skip(0) == all);
    for i in 0..h.entities.len()
        invariant
            all == h@,
            test == (|e: EntityV|
                house::is_in(e, area@) && house::is_targetable(all, e) && is_bystander(e, domain@)),
            house::first_where(all, test) == house::first_where(all.skip(i as int), test),
    {
        proof {
            assert(all.skip(i as int).drop_first() == all.skip(i + 1));
            assert(all.skip(i as int)[0] == h.entities@[i as int]@);
        }
        let e = &h.entities[i];
        if e.within(area) && h.targetable(e) && may_stand_by(e, domain) {
            return Some(&h.entities[i]);
        }
    }
    None
}

fn group_in(h: &House, area: &str, domain: &str) -> (r: Vec<Entity>)
    ensures
        order::views(r@) == group_of(h@, area@, domain@),
{
    let ghost all = h@;
    let ghost test = |e: EntityV| is_candidate_in(all, e, area@, domain@);
    let mut out: Vec<Entity> = Vec::new();
    proof {
        house::lemma_keep_none(all, test);
    }
    assert(order::views(out@) =~= all.take(0).filter(test));
    for i in 0..h.entities.len()
        invariant
            all == h@,
            test == (|e: EntityV| is_candidate_in(all, e, area@, domain@)),
            order::views(out@) == all.take(i as int).filter(test),
    {
        let ghost before = order::views(out@);
        proof {
            assert(all[i as int] == h.entities@[i as int]@);
            house::lemma_keep_step(all, i as int, test);
        }
        if h.entities[i].within(area) && candidate(h, &h.entities[i], domain) {
            out.push(h.entities[i].copy());
            assert(order::views(out@) =~= before.push(all[i as int]));
        }
    }
    assert(all.take(all.len() as int) == all);
    out
}

fn explain(h: &House, domain: &str, extra: &str) -> (r: Unsatisfied)
    ensures
        r.0@ == no_target(h@, domain@, extra@),
{
    let ghost all = h@;
    let mut present = false;
    let mut reachable = false;
    for i in 0..h.entities.len()
        invariant
            all == h@,
            present == exists|k: int| 0 <= k < i && (#[trigger] all[k]).domain == domain@,
            reachable == exists|k: int|
                0 <= k < i && (#[trigger] all[k]).domain == domain@ && house::answers(all[k]),
    {
        assert(all[i as int] == h.entities@[i as int]@);
        let e = &h.entities[i];
        let here = same(&e.domain, domain);
        present = present || here;
        reachable = reachable || (here && e.is_available());
    }
    if present && !reachable {
        let mut out = own("every ");
        out.append(domain);
        out.append(" in this home is unavailable");
        Unsatisfied(out)
    } else if present {
        let mut out = own("no ");
        out.append(domain);
        out.append(" in this home ");
        out.append(extra);
        Unsatisfied(out)
    } else {
        let mut out = own("no ");
        out.append(domain);
        out.append(" in this home");
        Unsatisfied(out)
    }
}

fn find_with_bystander(h: &House, domain: &str) -> (r: Option<Target>)
    ensures
        match r {
            Some(t) => with_bystander(h@, domain@, areas_of(h@)) == Some(t@),
            None => with_bystander(h@, domain@, areas_of(h@)) is None,
        },
{
    let areas = areas_in_order(h);
    let ghost all = areas_of(h@);
    assert(all.skip(0) == all);
    for i in 0..areas.len()
        invariant
            all == text::texts(areas@),
            all == areas_of(h@),
            with_bystander(h@, domain@, all) == with_bystander(h@, domain@, all.skip(i as int)),
    {
        proof {
            assert(all.skip(i as int).drop_first() == all.skip(i + 1));
            assert(all.skip(i as int)[0] == areas@[i as int]@);
        }
        let device = first_in_area(h, &areas[i], domain);
        let other = first_bystander(h, &areas[i], domain);
        if let (Some(d), Some(b)) = (device, other) {
            return Some(Target::single(d, Some(areas[i].clone()), Some(b)));
        }
    }
    None
}

fn find_with_several(h: &House, domain: &str, wanted: usize) -> (r: Option<Target>)
    requires
        wanted >= 2,
    ensures
        match r {
            Some(t) => with_several(h@, domain@, wanted as nat, areas_of(h@)) == Some(t@),
            None => with_several(h@, domain@, wanted as nat, areas_of(h@)) is None,
        },
{
    let areas = areas_in_order(h);
    let ghost all = areas_of(h@);
    assert(all.skip(0) == all);
    for i in 0..areas.len()
        invariant
            wanted >= 2,
            all == text::texts(areas@),
            all == areas_of(h@),
            with_several(h@, domain@, wanted as nat, all) == with_several(
                h@,
                domain@,
                wanted as nat,
                all.skip(i as int),
            ),
    {
        proof {
            assert(all.skip(i as int).drop_first() == all.skip(i + 1));
            assert(all.skip(i as int)[0] == areas@[i as int]@);
        }
        let group = group_in(h, &areas[i], domain);
        assert(order::views(group@).len() == group@.len());
        if group.len() >= wanted {
            let device = group[0].copy();
            assert(order::views(group@)[0] == group@[0]@);
            return Some(
                Target { device, group, area: Some(areas[i].clone()), bystander: None },
            );
        }
    }
    None
}

fn find_area(h: &House, name: &str) -> (r: Option<String>)
    ensures
        text::opt_text(r) == area_called(areas_of(h@), name@),
{
    let areas = areas_in_order(h);
    let ghost all = areas_of(h@);
    assert(all.skip(0) == all);
    for i in 0..areas.len()
        invariant
            all == text::texts(areas@),
            all == areas_of(h@),
            area_called(all, name@) == area_called(all.skip(i as int), name@),
    {
        proof {
            assert(all.skip(i as int).drop_first() == all.skip(i + 1));
            assert(all.skip(i as int)[0] == areas@[i as int]@);
        }
        if loose_eq(&areas[i], name) {
            return Some(areas[i].clone());
        }
    }
    None
}

fn single_target(e: &Entity) -> (r: Target)
    ensures
        r@ == alone(e@, home_area(e@), None),
{
    Target::single(e, first_area(e), None)
}

fn resolve_named_area(h: &House, area: &str, domain: &str) -> (r: Result<Target, Unsatisfied>)
    ensures
        resolution(r) == resolved(
            RequirementV::NamedArea { area: area@, domain: domain@ },
            h@,
        ),
{
    let recorded = match find_area(h, area) {
        Some(a) => a,
        None => {
            let mut out = own("this home has no area `");
            out.append(area);
            out.append("`");
            return Err(Unsatisfied(out));
        },
    };
    let group = group_in(h, &recorded, domain);
    assert(order::views(group@).len() == group@.len());
    if group.len() == 0 {
        let mut out = own("`");
        out.append(&recorded);
        out.append("` exposes no ");
        out.append(domain);
        out.append(" to the assistant");
        return Err(Unsatisfied(out));
    }
    let device = group[0].copy();
    assert(order::views(group@)[0] == group@[0]@);
    Ok(Target { device, group, area: Some(recorded), bystander: None })
}

fn resolve_no_such(h: &House, name: &str) -> (r: Result<Target, Unsatisfied>)
    ensures
        resolution(r) == resolved(RequirementV::NoSuchDevice { name: name@ }, h@),
{
    if let Some(e) = h.find_by_name(name) {
        let mut out = own("this home has a device matching `");
        out.append(name);
        out.append("` (");
        out.append(&e.name);
        out.append("), so it is not a name to refuse");
        return Err(Unsatisfied(out));
    }
    let device = Entity {
        name: own(name),
        domain: String::new(),
        aliases: Vec::new(),
        areas: Vec::new(),
        state: None,
        attributes: Vec::new(),
    };
    let target = Target { device, group: Vec::new(), area: None, bystander: None };
    proof {
        assert(target@.device =~= nothing_called(name@).device);
        assert(target@ =~= nothing_called(name@));
    }
    Ok(target)
}

impl Requirement {
    /// Resolve against a house, or explain why it cannot be.
    ///
    /// Deterministic: every candidate list is in the order of the house, and the
    /// first is taken.
    pub fn resolve(&self, h: &House) -> (r: Result<Target, Unsatisfied>)
        ensures
            resolution(r) == resolved(self@, h@),
    {
        match self {
            Requirement::Device { domain } => match first_candidate(h, domain) {
                Some(e) => Ok(single_target(e)),
                None => Err(explain(h, domain, "can be commanded by name")),
            },
            Requirement::AdjustableDevice { domain } => match first_adjustable(h, domain) {
                Some(e) => Ok(single_target(e)),
                None => Err(explain(h, domain, "can be commanded by name")),
            },
            Requirement::AreaWithBystander { domain } => match find_with_bystander(h, domain) {
                Some(t) => Ok(t),
                None => {
                    let mut out = own("no room in this home has a ");
                    out.append(domain);
                    out.append(" alongside another switchable device");
                    Err(Unsatisfied(out))
                },
            },
            Requirement::NamedDevice { name } => {
                if let Some(e) = h.find_by_name(name) {
                    if h.targetable(e) {
                        return Ok(single_target(e));
                    }
                }
                let mut out = own("this home exposes no device matching `");
                out.append(name);
                out.append("` (try --show-house)");
                Err(Unsatisfied(out))
            },
            Requirement::NamedArea { area, domain } => resolve_named_area(h, area, domain),
            Requirement::AreaWithSeveral { domain, at_least } => {
                let wanted: usize = if *at_least < 2 {
                    2
                } else {
                    *at_least
                };
                match find_with_several(h, domain, wanted) {
                    Some(t) => Ok(t),
                    None => {
                        let mut out = own("no area in this home exposes ");
                        let n = count_text(wanted);
                        out.append(&n);
                        out.append(" ");
                        out.append(domain);
                        out.append(" devices at once");
                        Err(Unsatisfied(out))
                    },
                }
            },
            Requirement::NoSuchDevice { name } => resolve_no_such(h, name),
        }
    }
}

// ---------------------------------------------------------------------------
// Laws
// ---------------------------------------------------------------------------

proof fn lemma_first_where(h: Seq<EntityV>, p: spec_fn(EntityV) -> bool)
    ensures
        house::first_where(h, p) matches Some(e) ==> p(e) && h.contains(e),
        house::first_where(h, p) is None ==> forall|i: int| 0 <= i < h.len() ==> !p(#[trigger] h[i]),
    decreases h.len(),
{
    if h.len() > 0 {
        lemma_first_where(h.drop_first(), p);
        if p(h[0]) {
            assert(h.contains(h[0]));
        } else {
            if let Some(e) = house::first_where(h.drop_first(), p) {
                let k = choose|k: int| 0 <= k < h.drop_first().len() && h.drop_first()[k] == e;
                assert(h[k + 1] == e);
            }
            if house::first_where(h.drop_first(), p) is None {
                assert forall|i: int| 0 <= i < h.len() implies !p(#[trigger] h[i]) by {
                    if i > 0 {
                        assert(h.drop_first()[i - 1] == h[i]);
                    }
                }
            }
        }
    }
}

/// Whether everything a target is made of may be aimed at.
pub open spec fn all_targetable(h: Seq<EntityV>, t: TargetV) -> bool {
    &&& forall|i: int| 0 <= i < t.group.len() ==> house::is_targetable(h, #[trigger] t.group[i])
    &&& t.group.len() > 0 ==> house::is_targetable(h, t.device)
    &&& t.bystander matches Some(b) ==> house::is_targetable(h, b)
}

proof fn lemma_group_targetable(h: Seq<EntityV>, area: Seq<char>, domain: Seq<char>)
    ensures
        forall|i: int|
            0 <= i < group_of(h, area, domain).len() ==> house::is_targetable(
                h,
                #[trigger] group_of(h, area, domain)[i],
            ),
{
    let test = |e: EntityV| is_candidate_in(h, e, area, domain);
    let g = group_of(h, area, domain);
    assert forall|i: int| 0 <= i < g.len() implies house::is_targetable(h, #[trigger] g[i]) by {
        h.filter_lemma(test);
        assert(test(g[i]));
    }
}

proof fn lemma_with_bystander(h: Seq<EntityV>, domain: Seq<char>, areas: Seq<Seq<char>>)
    ensures
        with_bystander(h, domain, areas) matches Some(t) ==> all_targetable(h, t) && t.bystander
            is Some && is_bystander(t.bystander->0, domain) && t.device.domain == domain
            && t.area is Some && house::is_in(t.device, t.area->0) && house::is_in(
            t.bystander->0,
            t.area->0,
        ),
    decreases areas.len(),
{
    if areas.len() > 0 {
        lemma_with_bystander(h, domain, areas.drop_first());
        let area = areas[0];
        lemma_first_where(h, |e: EntityV| is_candidate_in(h, e, area, domain));
        lemma_first_where(
            h,
            |e: EntityV|
                house::is_in(e, area) && house::is_targetable(h, e) && is_bystander(e, domain),
        );
    }
}

proof fn lemma_with_several(
    h: Seq<EntityV>,
    domain: Seq<char>,
    wanted: nat,
    areas: Seq<Seq<char>>,
)
    requires
        wanted >= 2,
    ensures
        with_several(h, domain, wanted, areas) matches Some(t) ==> all_targetable(h, t)
            && t.group.len() >= wanted,
    decreases areas.len(),
{
    if areas.len() > 0 {
        lemma_with_several(h, domain, wanted, areas.drop_first());
        lemma_group_targetable(h, areas[0], domain);
        let g = group_of(h, areas[0], domain);
        if g.len() >= wanted {
            assert(house::is_targetable(h, g[0]));
        }
    }
}

/// Whatever a requirement resolves to may be aimed at: every device it would
/// move and the one that must stay put are safe, reachable by name and
/// answering.
pub proof fn law_only_targetable_devices_are_resolved(r: RequirementV, h: Seq<EntityV>)
    ensures
        resolved(r, h) matches Ok(t) ==> all_targetable(h, t),
{
    match r {
        RequirementV::Device { domain } => {
            lemma_first_where(h, |e: EntityV| is_candidate(h, e, domain));
        },
        RequirementV::AdjustableDevice { domain } => {
            lemma_first_where(h, |e: EntityV| is_candidate(h, e, domain));
            lemma_first_where(
                h,
                |e: EntityV| is_candidate(h, e, domain) && house::level_of(e) is Some,
            );
        },
        RequirementV::AreaWithBystander { domain } => {
            lemma_with_bystander(h, domain, areas_of(h));
        },
        RequirementV::NamedArea { area, domain } => {
            if let Some(recorded) = area_called(areas_of(h), area) {
                lemma_group_targetable(h, recorded, domain);
                let g = group_of(h, recorded, domain);
                if g.len() > 0 {
                    assert(house::is_targetable(h, g[0]));
                }
            }
        },
        RequirementV::AreaWithSeveral { domain, at_least } => {
            lemma_with_several(h, domain, wanted_of(at_least), areas_of(h));
        },
        _ => {},
    }
}

/// A device of a domain is found exactly where the house has one to aim at, so
/// that a skip is never a device overlooked.
pub proof fn law_a_skip_means_there_is_none(h: Seq<EntityV>, domain: Seq<char>)
    ensures
        resolved(RequirementV::Device { domain }, h) is Err <==> forall|i: int|
            0 <= i < h.len() ==> !is_candidate(h, #[trigger] h[i], domain),
        resolved(RequirementV::AdjustableDevice { domain }, h) is Err <==> resolved(
            RequirementV::Device { domain },
            h,
        ) is Err,
{
    let test = |e: EntityV| is_candidate(h, e, domain);
    lemma_first_where(h, test);
    lemma_first_where(
        h,
        |e: EntityV| is_candidate(h, e, domain) && house::level_of(e) is Some,
    );
    if let Some(e) = house::first_where(h, test) {
        let k = choose|k: int| 0 <= k < h.len() && h[k] == e;
        assert(is_candidate(h, h[k], domain));
    } else {
        assert forall|i: int| 0 <= i < h.len() implies !is_candidate(h, #[trigger] h[i], domain) by {
            assert(!test(h[i]));
        }
    }
}

/// The bystander of a target is in the same area, of another kind, and has no
/// name that reads as the kind that was asked for.
pub proof fn law_a_bystander_is_unambiguous(domain: Seq<char>, h: Seq<EntityV>)
    ensures
        resolved(RequirementV::AreaWithBystander { domain }, h) matches Ok(t) ==> t.bystander
            is Some && is_bystander(t.bystander->0, domain) && t.device.domain == domain
            && house::is_in(t.device, t.area->0) && house::is_in(t.bystander->0, t.area->0),
{
    lemma_with_bystander(h, domain, areas_of(h));
}

/// A refusal case resolves to a target with nothing in it, and only where no
/// device answers to the name.
pub proof fn law_a_name_nobody_answers_to_moves_nothing(name: Seq<char>, h: Seq<EntityV>)
    ensures
        resolved(RequirementV::NoSuchDevice { name }, h) is Ok <==> house::found_by_name(h, name)
            is None,
        resolved(RequirementV::NoSuchDevice { name }, h) matches Ok(t) ==> t.group.len() == 0
            && t.bystander is None,
{
}

/// A device is asked for by its domain: the first one of it that may be acted on
/// is the target, alone, in its first area.
pub proof fn law_the_first_of_a_domain_is_taken(h: Seq<EntityV>, domain: Seq<char>, i: int)
    requires
        0 <= i < h.len(),
        h[i].domain == domain,
        house::is_targetable(h, h[i]),
        forall|j: int|
            0 <= j < i ==> (#[trigger] h[j]).domain != domain || !house::is_targetable(h, h[j]),
    ensures
        ({
            let r = resolved(RequirementV::Device { domain }, h);
            &&& r matches Ok(t) && t.device == h[i] && t.group == seq![h[i]] && t.bystander is None
                && t.area == (if h[i].areas.len() > 0 {
                Some(h[i].areas[0])
            } else {
                None
            })
        }),
{
    let p = |e: EntityV| is_candidate(h, e, domain);
    assert forall|j: int| 0 <= j < i implies !p(#[trigger] h[j]) by {
        assert(h[j].domain != domain || !house::is_targetable(h, h[j]));
    }
    house::law_the_first_that_fits_is_found(h, p, i);
}

/// A device that can be adjusted is preferred to one that cannot: the first of
/// the domain that has a level is taken, and the first of the domain where none
/// has.
pub proof fn law_one_with_a_level_is_preferred(h: Seq<EntityV>, domain: Seq<char>, i: int)
    requires
        0 <= i < h.len(),
        is_candidate(h, h[i], domain),
    ensures
        house::level_of(h[i]) is Some && (forall|j: int|
            0 <= j < i ==> !is_candidate(h, #[trigger] h[j], domain) || house::level_of(h[j])
                is None) ==> resolved(RequirementV::AdjustableDevice { domain }, h) == Ok::<
            TargetV,
            Seq<char>,
        >(alone(h[i], home_area(h[i]), None)),
        (forall|j: int|
            0 <= j < h.len() ==> !is_candidate(h, #[trigger] h[j], domain) || house::level_of(h[j])
                is None) ==> resolved(RequirementV::AdjustableDevice { domain }, h) == resolved(
            RequirementV::Device { domain },
            h,
        ),
{
    let p = |e: EntityV| is_candidate(h, e, domain) && house::level_of(e) is Some;
    house::law_the_first_that_fits_is_found(h, p, i);
    if house::level_of(h[i]) is Some && (forall|j: int|
        0 <= j < i ==> !is_candidate(h, #[trigger] h[j], domain) || house::level_of(h[j]) is None) {
        assert forall|j: int| 0 <= j < i implies !p(#[trigger] h[j]) by {
            assert(!is_candidate(h, h[j], domain) || house::level_of(h[j]) is None);
        }
    }
    if forall|j: int|
        0 <= j < h.len() ==> !is_candidate(h, #[trigger] h[j], domain) || house::level_of(h[j])
            is None {
        assert forall|j: int| 0 <= j < h.len() implies !p(#[trigger] h[j]) by {
            assert(!is_candidate(h, h[j], domain) || house::level_of(h[j]) is None);
        }
    }
}

/// The group of a room is every device of the domain in it that may be acted on,
/// and nothing else.
pub proof fn law_the_group_is_the_whole_room(
    h: Seq<EntityV>,
    area: Seq<char>,
    domain: Seq<char>,
    e: EntityV,
)
    ensures
        group_of(h, area, domain).contains(e) <==> h.contains(e) && e.areas.contains(area)
            && e.domain == domain && house::is_targetable(h, e),
{
    let p = |e: EntityV| is_candidate_in(h, e, area, domain);
    lemma_group(h, p, e);
}

proof fn lemma_group(h: Seq<EntityV>, p: spec_fn(EntityV) -> bool, e: EntityV)
    ensures
        h.filter(p).contains(e) <==> h.contains(e) && p(e),
    decreases h.len(),
{
    reveal(Seq::filter);
    if h.len() > 0 {
        let init = h.drop_last();
        lemma_group(init, p, e);
        let before = init.filter(p);
        let after = h.filter(p);
        if before.contains(e) {
            let k = choose|k: int| 0 <= k < before.len() && before[k] == e;
            assert(after[k] == e);
            let i = choose|i: int| 0 <= i < init.len() && init[i] == e;
            assert(h[i] == e);
        }
        if after.contains(e) && !before.contains(e) {
            let k = choose|k: int| 0 <= k < after.len() && after[k] == e;
            if k < before.len() {
                assert(before[k] == e);
            }
            assert(h[h.len() - 1] == e);
        }
        if h.contains(e) && p(e) {
            let i = choose|i: int| 0 <= i < h.len() && h[i] == e;
            if i < init.len() {
                assert(init[i] == e);
            } else {
                assert(after[after.len() - 1] == e);
            }
        }
    }
}

/// Where several devices are asked for, the first room that has as many, and two
/// at least, is taken whole; where no room has, that is told.
pub proof fn law_a_room_of_several_is_taken_whole(
    h: Seq<EntityV>,
    domain: Seq<char>,
    at_least: nat,
    i: int,
)
    ensures
        ({
            let areas = areas_of(h);
            let n = if at_least < 2 {
                2
            } else {
                at_least
            };
            let r = resolved(RequirementV::AreaWithSeveral { domain, at_least }, h);
            &&& 0 <= i < areas.len() && group_of(h, areas[i], domain).len() >= n && (forall|j: int|
                0 <= j < i ==> group_of(h, #[trigger] areas[j], domain).len() < n) ==> (r matches Ok(
                t,
            ) && t.group == group_of(h, areas[i], domain) && t.device == t.group[0] && t.area
                == Some(areas[i]) && t.bystander is None)
            &&& r is Err <==> forall|j: int|
                0 <= j < areas.len() ==> group_of(h, #[trigger] areas[j], domain).len() < n
        }),
{
    lemma_first_room(h, domain, wanted_of(at_least), areas_of(h), i);
}

proof fn lemma_first_room(
    h: Seq<EntityV>,
    domain: Seq<char>,
    n: nat,
    areas: Seq<Seq<char>>,
    i: int,
)
    ensures
        0 <= i < areas.len() && group_of(h, areas[i], domain).len() >= n && (forall|j: int|
            0 <= j < i ==> group_of(h, #[trigger] areas[j], domain).len() < n) ==> with_several(
            h,
            domain,
            n,
            areas,
        ) == Some(
            TargetV {
                device: group_of(h, areas[i], domain)[0],
                group: group_of(h, areas[i], domain),
                area: Some(areas[i]),
                bystander: None,
            },
        ),
        with_several(h, domain, n, areas) is None <==> forall|j: int|
            0 <= j < areas.len() ==> group_of(h, #[trigger] areas[j], domain).len() < n,
    decreases areas.len(),
{
    if areas.len() > 0 {
        let t = areas.drop_first();
        lemma_first_room(h, domain, n, t, i - 1);
        if 0 < i < areas.len() && (forall|j: int|
            0 <= j < i ==> group_of(h, #[trigger] areas[j], domain).len() < n) {
            assert(group_of(h, areas[0], domain).len() < n);
            assert(t[i - 1] == areas[i]);
            assert forall|j: int| 0 <= j < i - 1 implies group_of(
                h,
                #[trigger] t[j],
                domain,
            ).len() < n by {
                assert(t[j] == areas[j + 1]);
            }
        }
        if with_several(h, domain, n, areas) is None {
            assert forall|j: int| 0 <= j < areas.len() implies group_of(
                h,
                #[trigger] areas[j],
                domain,
            ).len() < n by {
                if j > 0 {
                    assert(areas[j] == t[j - 1]);
                }
            }
        }
        if forall|j: int|
            0 <= j < areas.len() ==> group_of(h, #[trigger] areas[j], domain).len() < n {
            assert(group_of(h, areas[0], domain).len() < n);
            assert forall|j: int| 0 <= j < t.len() implies group_of(
                h,
                #[trigger] t[j],
                domain,
            ).len() < n by {
                assert(t[j] == areas[j + 1]);
            }
        }
    }
}

/// A room that is named is the first that is loosely called so, and all that may
/// be acted on in it is taken; a name no room has, and a room without such a
/// device, are told apart.
pub proof fn law_a_named_room_is_taken_whole(
    h: Seq<EntityV>,
    area: Seq<char>,
    domain: Seq<char>,
    i: int,
)
    ensures
        ({
            let areas = areas_of(h);
            let r = resolved(RequirementV::NamedArea { area, domain }, h);
            let group = group_of(h, areas[i], domain);
            &&& 0 <= i < areas.len() && text::loosely_equal(areas[i], area) && (forall|j: int|
                0 <= j < i ==> !text::loosely_equal(#[trigger] areas[j], area)) ==> r == (
            if group.len() > 0 {
                Ok::<TargetV, Seq<char>>(
                    TargetV { device: group[0], group, area: Some(areas[i]), bystander: None },
                )
            } else {
                Err("`"@ + areas[i] + "` exposes no "@ + domain + " to the assistant"@)
            })
            &&& (forall|j: int|
                0 <= j < areas.len() ==> !text::loosely_equal(#[trigger] areas[j], area)) ==> r
                == Err::<TargetV, Seq<char>>("this home has no area `"@ + area + "`"@)
        }),
{
    lemma_area_called(areas_of(h), area, i);
}

proof fn lemma_area_called(areas: Seq<Seq<char>>, name: Seq<char>, i: int)
    ensures
        0 <= i < areas.len() && text::loosely_equal(areas[i], name) && (forall|j: int|
            0 <= j < i ==> !text::loosely_equal(#[trigger] areas[j], name)) ==> area_called(
            areas,
            name,
        ) == Some(areas[i]),
        (forall|j: int| 0 <= j < areas.len() ==> !text::loosely_equal(#[trigger] areas[j], name))
            ==> area_called(areas, name) is None,
    decreases areas.len(),
{
    if areas.len() > 0 {
        let t = areas.drop_first();
        lemma_area_called(t, name, i - 1);
        if 0 < i < areas.len() && (forall|j: int|
            0 <= j < i ==> !text::loosely_equal(#[trigger] areas[j], name)) {
            assert(!text::loosely_equal(areas[0], name));
            assert(t[i - 1] == areas[i]);
            assert forall|j: int| 0 <= j < i - 1 implies !text::loosely_equal(
                #[trigger] t[j],
                name,
            ) by {
                assert(t[j] == areas[j + 1]);
            }
        }
        if forall|j: int| 0 <= j < areas.len() ==> !text::loosely_equal(#[trigger] areas[j], name) {
            assert(!text::loosely_equal(areas[0], name));
            assert forall|j: int| 0 <= j < t.len() implies !text::loosely_equal(
                #[trigger] t[j],
                name,
            ) by {
                assert(t[j] == areas[j + 1]);
            }
        }
    }
}

/// A device that is named is the one the name finds, where that may be acted on;
/// otherwise there is none.
pub proof fn law_a_named_device_is_the_one_found(h: Seq<EntityV>, name: Seq<char>)
    ensures
        ({
            let r = resolved(RequirementV::NamedDevice { name }, h);
            let found = house::found_by_name(h, name);
            &&& r is Ok <==> found is Some && house::is_targetable(h, found->0)
            &&& r matches Ok(t) ==> found == Some(t.device) && t.group == seq![t.device]
                && t.bystander is None
        }),
{
}

/// A device beside which nothing is to move is looked for room by room: the first
/// room that has a device of the domain and one to stand by is taken, with the
/// first of each; where no room has both, that is told.
pub proof fn law_the_first_room_with_a_bystander(h: Seq<EntityV>, domain: Seq<char>, i: int)
    ensures
        ({
            let areas = areas_of(h);
            let r = resolved(RequirementV::AreaWithBystander { domain }, h);
            &&& 0 <= i < areas.len() && has_both(h, areas[i], domain) && (forall|j: int|
                0 <= j < i ==> !has_both(h, #[trigger] areas[j], domain)) ==> (r matches Ok(t)
                && t.area == Some(areas[i]) && t.group == seq![t.device] && t.bystander is Some
                && t.device.areas.contains(areas[i]) && t.bystander->0.areas.contains(areas[i]))
            &&& r is Err <==> forall|j: int|
                0 <= j < areas.len() ==> !has_both(h, #[trigger] areas[j], domain)
        }),
{
    lemma_bystander_room(h, domain, areas_of(h), i);
}

/// Whether a room holds a device of the domain and one to stand by.
pub open spec fn has_both(h: Seq<EntityV>, area: Seq<char>, domain: Seq<char>) -> bool {
    &&& exists|k: int|
        0 <= k < h.len() && (#[trigger] h[k]).areas.contains(area) && h[k].domain == domain
            && house::is_targetable(h, h[k])
    &&& exists|k: int|
        0 <= k < h.len() && (#[trigger] h[k]).areas.contains(area) && house::is_targetable(h, h[k])
            && is_bystander(h[k], domain)
}

proof fn lemma_both(h: Seq<EntityV>, area: Seq<char>, domain: Seq<char>)
    ensures
        ({
            let d = house::first_where(h, |e: EntityV| is_candidate_in(h, e, area, domain));
            let b = house::first_where(
                h,
                |e: EntityV|
                    house::is_in(e, area) && house::is_targetable(h, e) && is_bystander(e, domain),
            );
            &&& has_both(h, area, domain) <==> d is Some && b is Some
            &&& d matches Some(e) ==> e.areas.contains(area)
            &&& b matches Some(e) ==> e.areas.contains(area)
        }),
{
    let p = |e: EntityV| is_candidate_in(h, e, area, domain);
    let q = |e: EntityV|
        house::is_in(e, area) && house::is_targetable(h, e) && is_bystander(e, domain);
    lemma_first_where(h, p);
    lemma_first_where(h, q);
    let d = house::first_where(h, p);
    let b = house::first_where(h, q);
    if d is Some {
        let k = choose|k: int| 0 <= k < h.len() && h[k] == d->0;
        assert(p(h[k]));
        assert(h[k].areas.contains(area));
    }
    if b is Some {
        let k = choose|k: int| 0 <= k < h.len() && h[k] == b->0;
        assert(q(h[k]));
        assert(h[k].areas.contains(area));
    }
    if has_both(h, area, domain) {
        let k = choose|k: int|
            0 <= k < h.len() && (#[trigger] h[k]).areas.contains(area) && h[k].domain == domain
                && house::is_targetable(h, h[k]);
        assert(p(h[k]));
        let l = choose|k: int|
            0 <= k < h.len() && (#[trigger] h[k]).areas.contains(area) && house::is_targetable(
                h,
                h[k],
            ) && is_bystander(h[k], domain);
        assert(q(h[l]));
    }
}

proof fn lemma_bystander_room(h: Seq<EntityV>, domain: Seq<char>, areas: Seq<Seq<char>>, i: int)
    ensures
        0 <= i < areas.len() && has_both(h, areas[i], domain) && (forall|j: int|
            0 <= j < i ==> !has_both(h, #[trigger] areas[j], domain)) ==> (with_bystander(
            h,
            domain,
            areas,
        ) matches Some(t) && t.area == Some(areas[i]) && t.group == seq![t.device] && t.bystander
            is Some && t.device.areas.contains(areas[i]) && t.bystander->0.areas.contains(areas[i])),
        with_bystander(h, domain, areas) is None <==> forall|j: int|
            0 <= j < areas.len() ==> !has_both(h, #[trigger] areas[j], domain),
    decreases areas.len(),
{
    if areas.len() > 0 {
        let t = areas.drop_first();
        lemma_both(h, areas[0], domain);
        lemma_bystander_room(h, domain, t, i - 1);
        if 0 < i < areas.len() && (forall|j: int|
            0 <= j < i ==> !has_both(h, #[trigger] areas[j], domain)) {
            assert(!has_both(h, areas[0], domain));
            assert(t[i - 1] == areas[i]);
            assert forall|j: int| 0 <= j < i - 1 implies !has_both(h, #[trigger] t[j], domain) by {
                assert(t[j] == areas[j + 1]);
            }
        }
        if with_bystander(h, domain, areas) is None {
            assert forall|j: int| 0 <= j < areas.len() implies !has_both(
                h,
                #[trigger] areas[j],
                domain,
            ) by {
                if j > 0 {
                    assert(areas[j] == t[j - 1]);
                }
            }
        }
        if forall|j: int| 0 <= j < areas.len() ==> !has_both(h, #[trigger] areas[j], domain) {
            assert(!has_both(h, areas[0], domain));
            assert forall|j: int| 0 <= j < t.len() implies !has_both(h, #[trigger] t[j], domain) by {
                assert(t[j] == areas[j + 1]);
            }
        }
    }
}

/// A device may stand by where it is of another domain that can be switched, and
/// none of its names holds a word for the domain.
pub proof fn law_who_may_stand_by(e: EntityV, domain: Seq<char>)
    ensures
        is_bystander(e, domain) <==> {
            &&& e.domain != domain
            &&& e.domain == "light"@ || e.domain == "switch"@ || e.domain == "climate"@ || e.domain
                == "fan"@ || e.domain == "media_player"@ || e.domain == "cover"@
            &&& forall|i: int, k: int|
                0 <= i < house::names_of(e).len() && 0 <= k < domain_words(domain).len()
                    ==> !marked(
                    text::words_of(#[trigger] house::names_of(e)[i]),
                    #[trigger] domain_words(domain)[k],
                )
        },
{
    let p = |n: Seq<char>| suggests(n, domain);
    let all = house::names_of(e);
    let words = domain_words(domain);
    if house::any_name(e, p) {
        let i = choose|i: int| 0 <= i < all.len() && p(#[trigger] all[i]);
        assert(suggests(all[i], domain));
        let k = choose|k: int|
            0 <= k < words.len() && marked(text::words_of(all[i]), #[trigger] words[k]);
        assert(marked(text::words_of(all[i]), words[k]));
    }
    assert forall|i: int, k: int|
        0 <= i < all.len() && 0 <= k < words.len() && marked(
            text::words_of(#[trigger] all[i]),
            #[trigger] words[k],
        ) implies house::any_name(e, p) by {
        assert(suggests(all[i], domain));
        assert(p(all[i]));
    }
}

/// A word marks a name that has it among its words, and a phrase one that has its
/// words in a row.
pub proof fn law_what_marks_a_name(words: Seq<Seq<char>>, marker: Seq<char>)
    ensures
        !text::has_sub(marker, " "@) ==> (marked(words, marker) <==> words.contains(marker)),
        text::has_sub(marker, " "@) ==> (marked(words, marker) <==> text::has_sub(
            text::joined(words, " "@),
            marker,
        )),
{
}

/// The words for each domain that has any.
pub proof fn law_the_words_for_a_domain()
    ensures
        domain_words("light"@) == seq![
            "light"@,
            "lights"@,
            "lamp"@,
            "lamps"@,
            "lumina"@,
            "lumini"@,
            "lumière"@,
            "luz"@,
            "spot"@,
        ],
        domain_words("climate"@) == seq![
            "ac"@,
            "aircon"@,
            "air conditioner"@,
            "climate"@,
            "thermostat"@,
            "clima"@,
            "termostat"@,
        ],
        domain_words("fan"@) == seq!["fan"@, "ventilator"@, "ventilateur"@],
        domain_words("media_player"@) == seq![
            "speaker"@,
            "speakers"@,
            "tv"@,
            "media"@,
            "boxa"@,
            "boxă"@,
            "difuzor"@,
        ],
        domain_words("cover"@) == seq![
            "blind"@,
            "blinds"@,
            "shutter"@,
            "shutters"@,
            "curtain"@,
            "jaluzea"@,
            "rulou"@,
        ],
        domain_words("switch"@).len() == 0,
{
    reveal_strlit("light");
    reveal_strlit("climate");
    reveal_strlit("fan");
    reveal_strlit("media_player");
    reveal_strlit("cover");
    reveal_strlit("switch");
    assert("light"@.len() == 5 && "climate"@.len() == 7 && "fan"@.len() == 3);
    assert("media_player"@.len() == 12 && "switch"@.len() == 6);
    assert("cover"@.len() == 5 && "cover"@[0] == 'c' && "light"@[0] == 'l');
}

/// A home without a target says why: there is no device of the domain, every one
/// of them is unavailable, or none of them can be addressed.
pub proof fn law_why_there_is_no_target(
    h: Seq<EntityV>,
    domain: Seq<char>,
    extra: Seq<char>,
    i: int,
)
    ensures
        (forall|j: int| 0 <= j < h.len() ==> (#[trigger] h[j]).domain != domain) ==> no_target(
            h,
            domain,
            extra,
        ) == "no "@ + domain + " in this home"@,
        0 <= i < h.len() && h[i].domain == domain && (forall|j: int|
            0 <= j < h.len() && (#[trigger] h[j]).domain == domain ==> !house::answers(h[j]))
            ==> no_target(h, domain, extra) == "every "@ + domain
            + " in this home is unavailable"@,
        0 <= i < h.len() && h[i].domain == domain && house::answers(h[i]) ==> no_target(
            h,
            domain,
            extra,
        ) == "no "@ + domain + " in this home "@ + extra,
{
}

/// Why nothing could be found is told in the words for it.
pub proof fn law_what_is_said_where_there_is_none(
    h: Seq<EntityV>,
    name: Seq<char>,
    domain: Seq<char>,
    at_least: nat,
    e: EntityV,
)
    ensures
        resolved(RequirementV::NamedDevice { name }, h) matches Err(why) ==> why
            == "this home exposes no device matching `"@ + name + "` (try --show-house)"@,
        resolved(RequirementV::AreaWithBystander { domain }, h) matches Err(why) ==> why
            == "no room in this home has a "@ + domain + " alongside another switchable device"@,
        resolved(RequirementV::AreaWithSeveral { domain, at_least }, h) matches Err(why) ==> why
            == "no area in this home exposes "@ + text::decimal(
            if at_least < 2 {
                2
            } else {
                at_least
            },
        ) + " "@ + domain + " devices at once"@,
        house::found_by_name(h, name) == Some(e) ==> resolved(
            RequirementV::NoSuchDevice { name },
            h,
        ) == Err::<TargetV, Seq<char>>(
            "this home has a device matching `"@ + name + "` ("@ + e.name
                + "), so it is not a name to refuse"@,
        ),
        resolved(RequirementV::Device { domain }, h) matches Err(why) ==> why == no_target(
            h,
            domain,
            "can be commanded by name"@,
        ),
        resolved(RequirementV::AdjustableDevice { domain }, h) matches Err(why) ==> why
            == no_target(h, domain, "can be commanded by name"@),
{
}

/// A name to refuse is aimed at nothing: no group, no room, no bystander, and a
/// device that has the name and nothing else.
pub proof fn law_a_name_to_refuse_is_aimed_at_nothing(h: Seq<EntityV>, name: Seq<char>)
    requires
        house::found_by_name(h, name) is None,
    ensures
        ({
            let r = resolved(RequirementV::NoSuchDevice { name }, h);
            &&& r matches Ok(t) && t.device.name == name && t.device.domain.len() == 0
                && t.device.areas.len() == 0 && t.device.state is None && t.group.len() == 0
                && t.area is None && t.bystander is None
        }),
{
}

/// The rooms that are gone through are the areas of the house, in their order.
pub proof fn law_rooms_are_gone_through_in_order(areas: Seq<Seq<char>>, h: Seq<EntityV>)
    requires
        house::lists_areas(areas, h),
    ensures
        areas_of(h) == areas,
{
    house::lemma_one_list_of_areas(areas, areas_of(h), h);
}

/// A target that is one device is that device, alone.
pub proof fn law_one_device_is_a_target_alone(
    d: EntityV,
    area: Option<Seq<char>>,
    b: Option<EntityV>,
    group: Seq<EntityV>,
    i: int,
)
    ensures
        alone(d, area, b).device == d,
        alone(d, area, b).group == seq![d],
        alone(d, area, b).area == area,
        alone(d, area, b).bystander == b,
        leading_names(group).len() == group.len(),
        0 <= i < group.len() ==> leading_names(group)[i] == group[i].name,
{
}

} // verus!
