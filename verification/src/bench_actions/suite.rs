//! Measure whether spoken commands actually work, against the home they will be
//! used in.
//!
//! What a run was asked to do, which server a fixture means, what is listed of a
//! house, and how the numbers are told. Three numbers are told, not one: how
//! often the model chose right unaided, how often a command worked first try and
//! how often it worked in the end. The gap between the last two is what the
//! recovery machinery is worth.

use vstd::prelude::*;

use super::fixture;
use super::fixture::{CaseReport, CaseReportV, Manifest};
use super::house;
use super::house::{Entity, EntityV, House};
use super::requirement;
use super::runner;
use super::runner::{count_selected, CaseDetail, CaseDetailV, RunOptions, RunOptionsV, RunOutcome};
use super::summary;
use super::summary::{group_by_keys, summarise, Rate, Summary};
use crate::order;
use crate::text;
use crate::text::{
    char_is_alnum, copy_opt, copy_texts, count_text, join, lowercase_char, number, own, pad, same,
    to_chars,
};

verus! {

/// Everything the subcommand was asked to do.
///
/// The flags are independent switches: tracing while dry-running while filtering
/// to one case is a perfectly ordinary request.
#[derive(Debug, Clone)]
pub struct Args {
    /// Fixture files to run. Defaults to the committed suite.
    pub fixtures: Vec<String>,
    pub languages: Vec<String>,
    pub repeats: u32,
    pub dry_run: bool,
    pub quiet_hours: bool,
    pub only: Option<String>,
    /// Use a different assistant backend than the configured one, without
    /// touching the user's configuration.
    pub backend: Option<String>,
    pub model: Option<String>,
    /// Hold the model to this home's own areas and devices while it writes a
    /// command, or leave it free — for this run only.
    pub grammar: Option<bool>,
    /// List every entity the house reports and stop.
    pub show_house: bool,
    /// Write a trace per turn into the run directory. Off by default because a
    /// trace is a full transcript.
    pub trace: bool,
    /// Where to write the results.
    pub out: Option<String>,
}

/// What the options of a run are, as asked.
pub open spec fn options_of(a: Args) -> RunOptionsV {
    RunOptionsV {
        languages: text::texts(a.languages@),
        repeats: a.repeats as nat,
        dry_run: a.dry_run,
        quiet_hours: a.quiet_hours,
        only: text::opt_text(a.only),
    }
}

/// Why a run without servers is refused.
pub open spec fn nothing_to_command() -> Seq<char> {
    "no tool servers are switched on — there is nothing to command. Connect one with `fono tools add` first."@
}

/// How a run begins.
#[derive(Debug, Clone)]
pub enum Start {
    /// It does not, for this reason.
    Refused(String),
    /// The house is listed, which needs no assistant.
    ShowHouse,
    /// The suite is run.
    Suite,
}

impl Args {
    /// The options of the run.
    pub fn options(&self) -> (r: RunOptions)
        ensures
            r@ == options_of(*self),
    {
        RunOptions {
            languages: copy_texts(&self.languages),
            repeats: self.repeats,
            dry_run: self.dry_run,
            quiet_hours: self.quiet_hours,
            only: copy_opt(&self.only),
        }
    }

    /// How the run begins, given whether tools are switched on and which servers
    /// are configured.
    pub fn start(&self, tools_enabled: bool, servers: &Vec<String>) -> (r: Start)
        ensures
            match r {
                Start::Refused(why) => (!tools_enabled || servers@.len() == 0) && why@
                    == nothing_to_command(),
                Start::ShowHouse => tools_enabled && servers@.len() > 0 && self.show_house,
                Start::Suite => tools_enabled && servers@.len() > 0 && !self.show_house,
            },
    {
        if !tools_enabled || servers.len() == 0 {
            return Start::Refused(
                own(
                    "no tool servers are switched on — there is nothing to command. Connect one with `fono tools add` first.",
                ),
            );
        }
        if self.show_house {
            Start::ShowHouse
        } else {
            Start::Suite
        }
    }
}

/// Why a backend that cannot act is refused.
pub open spec fn backend_cannot_act(backend: Seq<char>) -> Seq<char> {
    "the "@ + backend
        + " assistant cannot invoke tools, so every command would fail for the same reason and the numbers would say nothing about routing"@
}

/// Why a backend is refused, where it is: one that cannot act would score as a
/// uniform failure and look like a routing collapse.
pub fn refuse_backend(backend: &str, can_act: bool) -> (r: Option<String>)
    ensures
        text::opt_text(r) == (if can_act {
            None
        } else {
            Some(backend_cannot_act(backend@))
        }),
{
    if can_act {
        return None;
    }
    let mut s = own("the ");
    s.append(backend);
    s.append(
        " assistant cannot invoke tools, so every command would fail for the same reason and the numbers would say nothing about routing",
    );
    Some(s)
}

/// Every fixture to run when none was named: the committed suite, then any local
/// ones.
pub fn default_fixtures(committed: &Vec<String>, local: &Vec<String>) -> (r: Result<
    Vec<String>,
    String,
>)
    ensures
        match r {
            Ok(v) => text::texts(v@) == text::texts(committed@) + text::texts(local@) && v@.len()
                > 0,
            Err(e) => committed@.len() == 0 && local@.len() == 0 && e@
                == "no fixtures found in tests/fixtures/bench_actions"@,
        },
{
    let mut out = copy_texts(committed);
    let more = copy_texts(local);
    let ghost first = text::texts(out@);
    let ghost second = text::texts(more@);
    assert(first.len() == committed@.len());
    assert(second.len() == local@.len());
    let ghost some = out@;
    let ghost rest = more@;
    for x in it: more
        invariant
            it.seq() == rest,
            out@ == some + rest.take(it.index() as int),
    {
        let ghost i = it.index() as int;
        assert(rest.take(i + 1) =~= rest.take(i).push(rest[i]));
        out.push(x);
        assert(out@ =~= some + rest.take(i + 1));
    }
    assert(rest.take(rest.len() as int) == rest);
    assert(text::texts(out@) =~= first + second);
    if out.len() == 0 {
        return Err(own("no fixtures found in tests/fixtures/bench_actions"));
    }
    Ok(out)
}

// ---------------------------------------------------------------------------
// Which server a fixture means
// ---------------------------------------------------------------------------

/// The lower-case letters and digits of a name.
pub open spec fn squashed(s: Seq<char>) -> Seq<char>
    decreases s.len(),
{
    if s.len() == 0 {
        Seq::empty()
    } else {
        let rest = squashed(s.drop_last());
        if text::is_alnum(s.last()) {
            rest + text::lowered_char(s.last())
        } else {
            rest
        }
    }
}

/// Lowercase and drop everything that is not a letter or digit.
pub fn squash(s: &str) -> (r: String)
    ensures
        r@ == squashed(s@),
{
    let v = to_chars(s);
    let mut out = String::new();
    assert(out@ =~= squashed(v@.take(0)));
    for i in 0..v.len()
        invariant
            v@ == s@,
            out@ == squashed(v@.take(i as int)),
    {
        assert(v@.take(i + 1).drop_last() == v@.take(i as int));
        if char_is_alnum(v[i]) {
            let low = lowercase_char(v[i]);
            let ghost before = out@;
            for j in 0..low.len()
                invariant
                    out@ == before + low@.take(j as int),
            {
                out.push(low[j]);
                assert(low@.take(j + 1) =~= low@.take(j as int).push(low@[j as int]));
                assert(out@ =~= before + low@.take(j + 1));
            }
            assert(low@.take(low@.len() as int) == low@);
        }
    }
    assert(v@.take(v@.len() as int) == v@);
    out
}

/// The position of the first server a name means, or the number of servers.
pub open spec fn server_at(servers: Seq<Seq<char>>, name: Seq<char>) -> nat
    decreases servers.len(),
{
    if servers.len() == 0 {
        0
    } else if squashed(servers[0]) == squashed(name) {
        0
    } else {
        1 + server_at(servers.drop_first(), name)
    }
}

/// The configured server a fixture asks for.
///
/// Matched loosely on purpose: a fixture is shared, the server name is whatever
/// the user typed, and `HomeAssistant`, `Home Assistant` and `home-assistant`
/// are all the same server to a human.
pub fn endpoint_for(servers: &Vec<String>, name: &str) -> (r: Option<usize>)
    ensures
        match r {
            Some(i) => i == server_at(text::texts(servers@), name@) && i < servers@.len(),
            None => server_at(text::texts(servers@), name@) == servers@.len(),
        },
{
    let ghost all = text::texts(servers@);
    let want = squash(name);
    assert(all.skip(0) == all);
    for i in 0..servers.len()
        invariant
            all == text::texts(servers@),
            want@ == squashed(name@),
            server_at(all, name@) == i + server_at(all.skip(i as int), name@),
    {
        proof {
            assert(all.skip(i as int).drop_first() == all.skip(i + 1));
            assert(all.skip(i as int)[0] == servers@[i as int]@);
        }
        let have = squash(&servers[i]);
        if same(&have, &want) {
            return Some(i);
        }
    }
    None
}

/// The names of the servers there are, or that there is none.
pub open spec fn available(servers: Seq<Seq<char>>) -> Seq<char> {
    if servers.len() == 0 {
        "none"@
    } else {
        text::joined(servers, ", "@)
    }
}

/// What is said of a fixture whose server is not configured.
pub open spec fn no_server(
    path: Seq<char>,
    server: Seq<char>,
    servers: Seq<Seq<char>>,
) -> Seq<char> {
    "\n"@ + path + " — skipped: no `"@ + server + "` server configured (available: "@ + available(
        servers,
    ) + ")"@
}

/// What is done with one fixture file.
#[derive(Debug, Clone)]
pub enum FileStep {
    /// Nothing but to say why.
    Skip(String),
    /// It is run against a server, under a heading.
    Run { server: usize, heading: String },
}

/// What a [`FileStep`] says.
pub enum FileStepV {
    Skip(Seq<char>),
    Run { server: nat, heading: Seq<char> },
}

impl View for FileStep {
    type V = FileStepV;

    open spec fn view(&self) -> FileStepV {
        match self {
            FileStep::Skip(s) => FileStepV::Skip(s@),
            FileStep::Run { server, heading } => FileStepV::Run {
                server: *server as nat,
                heading: heading@,
            },
        }
    }
}

/// What is done with one fixture file.
pub open spec fn file_step(
    path: Seq<char>,
    server: Seq<char>,
    cases: Seq<fixture::CaseV>,
    servers: Seq<Seq<char>>,
    only: Option<Seq<char>>,
) -> FileStepV {
    let at = server_at(servers, server);
    let n = runner::selected_count(cases, only);
    if at >= servers.len() {
        FileStepV::Skip(no_server(path, server, servers))
    } else if n == 0 {
        FileStepV::Skip("\n"@ + path + " — no case matches --only"@)
    } else {
        FileStepV::Run { server: at, heading: "\n"@ + path + " — "@ + text::decimal(n) + " cases"@ }
    }
}

/// What is done with one fixture file: it is run where its server is configured
/// and at least one of its cases is asked for.
pub fn consider(path: &str, manifest: &Manifest, servers: &Vec<String>, only: &Option<String>) -> (r:
    FileStep)
    ensures
        r@ == file_step(
            path@,
            manifest.server@,
            order::views(manifest.cases@),
            text::texts(servers@),
            text::opt_text(*only),
        ),
{
    assert(text::texts(servers@).len() == servers@.len());
    let mut s = own("\n");
    s.append(path);
    let server = match endpoint_for(servers, &manifest.server) {
        Some(i) => i,
        None => {
            s.append(" — skipped: no `");
            s.append(&manifest.server);
            s.append("` server configured (available: ");
            let known = if servers.len() == 0 {
                own("none")
            } else {
                join(servers, ", ")
            };
            s.append(&known);
            s.append(")");
            return FileStep::Skip(s);
        },
    };
    let selected = count_selected(&manifest.cases, only);
    if selected == 0 {
        s.append(" — no case matches --only");
        return FileStep::Skip(s);
    }
    s.append(" — ");
    let digits = count_text(selected);
    s.append(&digits);
    s.append(" cases");
    FileStep::Run { server, heading: s }
}

// ---------------------------------------------------------------------------
// Listing the house
// ---------------------------------------------------------------------------

/// The start of a line about an entity.
pub open spec fn entity_columns(e: EntityV) -> Seq<char> {
    "    "@ + text::padded(e.name, 40) + " "@ + text::padded(e.domain, 14) + " "@ + match e.state {
        Some(s) => s,
        None => "-"@,
    }
}

/// One entity in its area, with what a fixture may want to know of it.
pub open spec fn entity_line(e: EntityV) -> Seq<char> {
    entity_columns(e) + (if house::level_of(e) is Some {
        "  dimmable"@
    } else {
        Seq::empty()
    }) + (if e.aliases.len() == 0 {
        Seq::empty()
    } else {
        "  (also "@ + text::joined(e.aliases, ", "@) + ")"@
    }) + (if house::is_safe(e) {
        Seq::empty()
    } else {
        "  [never targeted]"@
    })
}

/// The entities of one area, under its name.
pub open spec fn area_lines(h: Seq<EntityV>, area: Seq<char>) -> Seq<Seq<char>> {
    seq!["\n  "@ + area] + house::house_in_area(h, area).map_values(|e: EntityV| entity_line(e))
}

/// The entities of some areas.
pub open spec fn areas_lines(h: Seq<EntityV>, areas: Seq<Seq<char>>) -> Seq<Seq<char>>
    decreases areas.len(),
{
    if areas.len() == 0 {
        Seq::empty()
    } else {
        areas_lines(h, areas.drop_last()) + area_lines(h, areas.last())
    }
}

/// The entities that are in no area.
pub open spec fn strays(h: Seq<EntityV>) -> Seq<EntityV> {
    h.filter(|e: EntityV| e.areas.len() == 0)
}

/// Every entity a house reports, by area, and those in none at the end: such a
/// one is still commandable by name, so it must not be invisible.
pub open spec fn house_lines(server: Seq<char>, h: Seq<EntityV>) -> Seq<Seq<char>> {
    seq!["\n"@ + server + " — "@ + text::decimal(h.len()) + " entities"@] + areas_lines(
        h,
        requirement::areas_of(h),
    ) + (if strays(h).len() == 0 {
        Seq::empty()
    } else {
        seq!["\n  (no area)"@] + strays(h).map_values(|e: EntityV| entity_columns(e))
    })
}

fn columns(e: &Entity) -> (r: String)
    ensures
        r@ == entity_columns(e@),
{
    let mut s = own("    ");
    let name = pad(&e.name, 40);
    s.append(&name);
    s.append(" ");
    let domain = pad(&e.domain, 14);
    s.append(&domain);
    s.append(" ");
    match &e.state {
        Some(state) => s.append(state),
        None => s.append("-"),
    }
    s
}

fn full_line(e: &Entity) -> (r: String)
    ensures
        r@ == entity_line(e@),
{
    let mut s = columns(e);
    let ghost first = s@;
    let ghost none = Seq::<char>::empty();
    assert(first + none =~= first);
    if e.is_adjustable() {
        s.append("  dimmable");
    }
    let ghost second = s@;
    assert(second + none =~= second);
    assert(text::texts(e.aliases@).len() == e.aliases@.len());
    if e.aliases.len() > 0 {
        let mut also = own("  (also ");
        let list = join(&e.aliases, ", ");
        also.append(&list);
        also.append(")");
        s.append(&also);
    }
    let ghost third = s@;
    assert(third + none =~= third);
    if !e.safe_to_target() {
        s.append("  [never targeted]");
    }
    s
}

fn push_line(out: &mut Vec<String>, s: String)
    ensures
        text::texts(final(out)@) == text::texts(old(out)@).push(s@),
{
    let ghost before = text::texts(out@);
    let ghost said = s@;
    out.push(s);
    assert(text::texts(out@) =~= before.push(said));
}

fn push_area(out: &mut Vec<String>, h: &House, area: &str)
    ensures
        text::texts(final(out)@) == text::texts(old(out)@) + area_lines(h@, area@),
{
    let ghost start = text::texts(out@);
    let mut heading = own("\n  ");
    heading.append(area);
    push_line(out, heading);
    let ghost titled = text::texts(out@);
    let members = h.in_area(area);
    let ghost all = order::views(members@);
    let ghost told = all.map_values(|e: EntityV| entity_line(e));
    assert(titled + told.take(0) =~= titled);
    for i in 0..members.len()
        invariant
            all == order::views(members@),
            told == all.map_values(|e: EntityV| entity_line(e)),
            text::texts(out@) == titled + told.take(i as int),
    {
        assert(all[i as int] == members@[i as int]@);
        let ghost before = text::texts(out@);
        push_line(out, full_line(members[i]));
        assert(told.take(i + 1) =~= told.take(i as int).push(told[i as int]));
        assert(text::texts(out@) =~= titled + told.take(i + 1));
    }
    assert(told.take(told.len() as int) == told);
    assert(text::texts(out@) =~= start + area_lines(h@, area@));
}

fn push_areas(out: &mut Vec<String>, h: &House)
    ensures
        text::texts(final(out)@) == text::texts(old(out)@) + areas_lines(
            h@,
            requirement::areas_of(h@),
        ),
{
    let ghost start = text::texts(out@);
    let areas = h.areas();
    let ghost all = text::texts(areas@);
    proof {
        house::lemma_one_list_of_areas(all, requirement::areas_of(h@), h@);
    }
    assert(start + areas_lines(h@, all.take(0)) =~= start);
    for i in 0..areas.len()
        invariant
            all == text::texts(areas@),
            text::texts(out@) == start + areas_lines(h@, all.take(i as int)),
    {
        proof {
            assert(all.take(i + 1).drop_last() == all.take(i as int));
            assert(all[i as int] == areas@[i as int]@);
        }
        push_area(out, h, &areas[i]);
        assert(text::texts(out@) =~= start + areas_lines(h@, all.take(i + 1)));
    }
    assert(all.take(all.len() as int) == all);
}

fn stray_lines(h: &House) -> (r: Vec<String>)
    ensures
        text::texts(r@) == strays(h@).map_values(|e: EntityV| entity_columns(e)),
{
    let ghost all = h@;
    let ghost test = |e: EntityV| e.areas.len() == 0;
    let ghost show = |e: EntityV| entity_columns(e);
    let mut out: Vec<String> = Vec::new();
    proof {
        house::lemma_keep_none(all, test);
    }
    assert(text::texts(out@) =~= all.take(0).filter(test).map_values(show));
    for i in 0..h.entities.len()
        invariant
            all == h@,
            test == (|e: EntityV| e.areas.len() == 0),
            show == (|e: EntityV| entity_columns(e)),
            text::texts(out@) == all.take(i as int).filter(test).map_values(show),
    {
        let e = &h.entities[i];
        let ghost kept = all.take(i as int).filter(test);
        proof {
            assert(all[i as int] == e@);
            house::lemma_keep_step(all, i as int, test);
            assert(text::texts(e.areas@).len() == e.areas@.len());
            assert(kept.push(e@).map_values(show) =~= kept.map_values(show).push(show(e@)));
        }
        if e.areas.len() == 0 {
            push_line(&mut out, columns(e));
        }
    }
    assert(all.take(all.len() as int) == all);
    out
}

/// Every entity a house reports, by area.
///
/// Exists so a local fixture can be written against the names the house actually
/// uses. Deliberately not part of a run: it tells device names, which is
/// precisely what the shareable report never contains.
pub fn show_house(server: &str, h: &House) -> (r: Vec<String>)
    ensures
        text::texts(r@) == house_lines(server@, h@),
{
    let mut out: Vec<String> = Vec::new();
    assert(text::texts(out@) =~= Seq::empty());
    let mut title = own("\n");
    title.append(server);
    title.append(" — ");
    assert(h@.len() == h.entities@.len());
    let digits = count_text(h.entities.len());
    title.append(&digits);
    title.append(" entities");
    let ghost heading = title@;
    push_line(&mut out, title);
    assert(text::texts(out@) =~= seq![heading]);
    push_areas(&mut out, h);
    let ghost top = text::texts(out@);
    assert(top + Seq::<Seq<char>>::empty() =~= top);
    let rest = stray_lines(h);
    let ghost told = text::texts(rest@);
    assert(told.len() == rest@.len());
    assert(strays(h@).len() == told.len());
    if rest.len() > 0 {
        push_line(&mut out, own("\n  (no area)"));
        let ghost titled = text::texts(out@);
        assert(titled + told.take(0) =~= titled);
        for i in 0..rest.len()
            invariant
                told == text::texts(rest@),
                text::texts(out@) == titled + told.take(i as int),
        {
            push_line(&mut out, rest[i].clone());
            assert(told[i as int] == rest@[i as int]@);
            assert(told.take(i + 1) =~= told.take(i as int).push(told[i as int]));
            assert(text::texts(out@) =~= titled + told.take(i + 1));
        }
        assert(told.take(told.len() as int) == told);
        assert(text::texts(out@) =~= top + (seq!["\n  (no area)"@] + told));
    }
    out
}

// ---------------------------------------------------------------------------
// Which model
// ---------------------------------------------------------------------------

/// The models configured for the assistant, and which of the two is in use: a
/// local model is a file and a cloud model is a name.
#[derive(Debug, Clone)]
pub struct Models {
    pub is_local: bool,
    pub local: String,
    pub cloud: String,
}

/// The model in use.
pub open spec fn model_in_use(m: Models) -> Seq<char> {
    if m.is_local {
        m.local@
    } else {
        m.cloud@
    }
}

impl Models {
    /// Point the chosen backend at a different model.
    pub fn set_model(&mut self, model: &str)
        ensures
            model_in_use(*final(self)) == model@,
            final(self).is_local == old(self).is_local,
            old(self).is_local ==> final(self).cloud == old(self).cloud,
            !old(self).is_local ==> final(self).local == old(self).local,
    {
        if self.is_local {
            self.local = own(model);
        } else {
            self.cloud = own(model);
        }
    }

    /// The model in use.
    pub fn model_name(&self) -> (r: String)
        ensures
            r@ == model_in_use(*self),
    {
        if self.is_local {
            self.local.clone()
        } else {
            self.cloud.clone()
        }
    }
}

// ---------------------------------------------------------------------------
// Telling the numbers
// ---------------------------------------------------------------------------

/// A rate as the nearest whole percentage, the even one of two as near.
pub open spec fn whole_percent(r: Rate) -> nat {
    if r.whole == 0 {
        0
    } else {
        let q = (100 * r.part) as int / r.whole as int;
        let rest = (100 * r.part) as int % r.whole as int;
        (if 2 * rest > r.whole || (2 * rest == r.whole && q % 2 == 1) {
            q + 1
        } else {
            q
        }) as nat
    }
}

/// A rate in words.
pub open spec fn percent_words(r: Rate) -> Seq<char> {
    text::decimal(whole_percent(r)) + "%"@
}

fn percent(r: Rate) -> (s: String)
    requires
        r.part <= r.whole,
    ensures
        s@ == percent_words(r),
{
    let mut n: u64 = 0;
    if r.whole > 0 {
        let part: u128 = 100 * (r.part as u128);
        let whole: u128 = r.whole as u128;
        let q: u128 = part / whole;
        let rest: u128 = part % whole;
        assert(q <= 100) by (nonlinear_arith)
            requires
                q == part / whole,
                part <= 100 * whole,
                whole > 0,
        ;
        n = if 2 * rest > whole || (2 * rest == whole && q % 2 == 1) {
            (q + 1) as u64
        } else {
            q as u64
        };
    }
    let mut s = number(n);
    s.append("%");
    s
}

/// The headline, line by line.
pub open spec fn headline(s: Summary) -> Seq<Seq<char>> {
    seq![
        "\n  ran "@ + text::decimal(s.n as nat) + "   skipped "@ + text::decimal(
            s.skipped as nat,
        ),
        "  routed right       "@ + percent_words(s.routing_rate),
        "  worked first try   "@ + percent_words(s.first_try_rate),
        "  worked in the end  "@ + percent_words(s.final_rate) + "   (+"@ + text::decimal(
            s.recovered as nat,
        ) + " recovered)"@,
        "  failed "@ + text::decimal(s.failed as nat) + "   drifted "@ + text::decimal(
            s.drifted as nat,
        ),
        "  median "@ + text::decimal(s.p50_ms as nat) + " ms   slowest tenth "@ + text::decimal(
            s.p95_ms as nat,
        ) + " ms"@,
    ]
}

/// One language.
pub open spec fn language_line(g: (Seq<char>, Summary)) -> Seq<char> {
    "    "@ + g.0 + "   routed "@ + percent_words(g.1.routing_rate) + "   final "@ + percent_words(
        g.1.final_rate,
    ) + "   median "@ + text::decimal(g.1.p50_ms as nat) + " ms"@
}

/// The languages, where there is more than one.
pub open spec fn language_lines(groups: Seq<(Seq<char>, Summary)>) -> Seq<Seq<char>> {
    if groups.len() > 1 {
        seq!["\n  by language"@] + groups.map_values(
            |g: (Seq<char>, Summary)| language_line(g),
        )
    } else {
        Seq::empty()
    }
}

/// The classes something failed in.
pub open spec fn broken_lines(groups: Seq<(Seq<char>, Summary)>) -> Seq<Seq<char>>
    decreases groups.len(),
{
    if groups.len() == 0 {
        Seq::empty()
    } else {
        let rest = broken_lines(groups.drop_last());
        let g = groups.last();
        if g.1.failed > 0 {
            rest.push(
                "    "@ + g.0 + "   "@ + text::decimal(g.1.failed as nat) + " of "@
                    + text::decimal(g.1.n as nat),
            )
        } else {
            rest
        }
    }
}

/// What went wrong in one case.
pub open spec fn detail_lines(d: CaseDetailV) -> Seq<Seq<char>> {
    if d.notes.len() == 0 {
        Seq::empty()
    } else {
        seq!["\n  "@ + d.id + " ["@ + d.language + "]"@, "    said: "@ + d.said]
            + d.notes.map_values(|n: Seq<char>| "    - "@ + n)
    }
}

/// What went wrong in every case.
pub open spec fn all_detail_lines(details: Seq<CaseDetailV>) -> Seq<Seq<char>>
    decreases details.len(),
{
    if details.len() == 0 {
        Seq::empty()
    } else {
        all_detail_lines(details.drop_last()) + detail_lines(details.last())
    }
}

/// The languages the reports are in.
pub open spec fn report_languages(reports: Seq<CaseReportV>) -> Seq<Seq<char>> {
    reports.map_values(|r: CaseReportV| r.language)
}

/// The classes the reports are of, by name.
pub open spec fn report_classes(reports: Seq<CaseReportV>) -> Seq<Seq<char>> {
    reports.map_values(|r: CaseReportV| fixture::class_name(r.class))
}

/// A heading over lines, where there are any.
pub open spec fn under(heading: Seq<char>, lines: Seq<Seq<char>>) -> Seq<Seq<char>> {
    if lines.len() > 0 {
        seq![heading] + lines
    } else {
        Seq::empty()
    }
}

/// How many failed, where any did.
pub open spec fn failed_line(failed: nat) -> Seq<Seq<char>> {
    if failed > 0 {
        seq!["\n  "@ + text::decimal(failed) + " case(s) failed."@]
    } else {
        Seq::empty()
    }
}

/// The whole story of a run: the headline, the languages, the classes that
/// broke, and what went wrong where.
pub open spec fn story(safe: Seq<CaseReportV>, details: Seq<CaseDetailV>) -> Seq<Seq<char>> {
    headline(summary::summary_of(safe)) + language_lines(
        summary::grouped(safe, report_languages(safe)),
    ) + under(
        "\n  where it went wrong"@,
        broken_lines(summary::grouped(safe, report_classes(safe))),
    ) + all_detail_lines(details) + failed_line(
        summary::count_verdict(safe, fixture::Verdict::Failed),
    )
}

/// Put a number at the end of a line.
fn add_number(s: &mut String, n: u64)
    ensures
        final(s)@ == old(s)@ + text::decimal(n as nat),
{
    let digits = number(n);
    s.append(&digits);
}

fn headline_lines(s: &Summary) -> (r: Vec<String>)
    requires
        s.routing_rate.part <= s.routing_rate.whole,
        s.first_try_rate.part <= s.first_try_rate.whole,
        s.final_rate.part <= s.final_rate.whole,
    ensures
        text::texts(r@) == headline(*s),
{
    let mut out: Vec<String> = Vec::new();
    let mut a = own("\n  ran ");
    add_number(&mut a, s.n as u64);
    a.append("   skipped ");
    add_number(&mut a, s.skipped as u64);
    out.push(a);
    let mut b = own("  routed right       ");
    let routed = percent(s.routing_rate);
    b.append(&routed);
    out.push(b);
    let mut c = own("  worked first try   ");
    let first = percent(s.first_try_rate);
    c.append(&first);
    out.push(c);
    let mut d = own("  worked in the end  ");
    let last = percent(s.final_rate);
    d.append(&last);
    d.append("   (+");
    add_number(&mut d, s.recovered as u64);
    d.append(" recovered)");
    out.push(d);
    let mut e = own("  failed ");
    add_number(&mut e, s.failed as u64);
    e.append("   drifted ");
    add_number(&mut e, s.drifted as u64);
    out.push(e);
    let mut f = own("  median ");
    add_number(&mut f, s.p50_ms);
    f.append(" ms   slowest tenth ");
    add_number(&mut f, s.p95_ms);
    f.append(" ms");
    out.push(f);
    assert(text::texts(out@) =~= headline(*s));
    out
}

/// Whether every rate of a summary is one.
pub open spec fn rates_hold(s: Summary) -> bool {
    s.routing_rate.part <= s.routing_rate.whole && s.first_try_rate.part <= s.first_try_rate.whole
        && s.final_rate.part <= s.final_rate.whole
}

fn language_text(g: &(String, Summary)) -> (r: String)
    requires
        rates_hold(g.1),
    ensures
        r@ == language_line((g.0@, g.1)),
{
    let mut s = own("    ");
    s.append(&g.0);
    s.append("   routed ");
    let routed = percent(g.1.routing_rate);
    s.append(&routed);
    s.append("   final ");
    let last = percent(g.1.final_rate);
    s.append(&last);
    s.append("   median ");
    add_number(&mut s, g.1.p50_ms);
    s.append(" ms");
    s
}

fn push_all(out: &mut Vec<String>, more: &Vec<String>)
    ensures
        text::texts(final(out)@) == text::texts(old(out)@) + text::texts(more@),
{
    let ghost start = text::texts(out@);
    let ghost told = text::texts(more@);
    assert(start + told.take(0) =~= start);
    for i in 0..more.len()
        invariant
            told == text::texts(more@),
            text::texts(out@) == start + told.take(i as int),
    {
        push_line(out, more[i].clone());
        assert(told[i as int] == more@[i as int]@);
        assert(told.take(i + 1) =~= told.take(i as int).push(told[i as int]));
        assert(text::texts(out@) =~= start + told.take(i + 1));
    }
    assert(told.take(told.len() as int) == told);
}

fn languages_text(groups: &Vec<(String, Summary)>) -> (r: Vec<String>)
    requires
        forall|i: int| 0 <= i < groups@.len() ==> rates_hold((#[trigger] groups@[i]).1),
    ensures
        text::texts(r@) == language_lines(summary::group_views(groups@)),
{
    let ghost all = summary::group_views(groups@);
    let mut out: Vec<String> = Vec::new();
    assert(all.len() == groups@.len());
    if groups.len() <= 1 {
        assert(text::texts(out@) =~= Seq::empty());
        return out;
    }
    out.push(own("\n  by language"));
    for i in 0..groups.len()
        invariant
            forall|i: int| 0 <= i < groups@.len() ==> rates_hold((#[trigger] groups@[i]).1),
            all == summary::group_views(groups@),
            out@.len() == i + 1,
            out@[0]@ == "\n  by language"@,
            forall|k: int| 1 <= k <= i ==> (#[trigger] out@[k])@ == language_line(all[k - 1]),
    {
        assert(all[i as int] == (groups@[i as int].0@, groups@[i as int].1));
        out.push(language_text(&groups[i]));
    }
    assert(text::texts(out@) =~= language_lines(all));
    out
}

fn broken_text(groups: &Vec<(String, Summary)>) -> (r: Vec<String>)
    ensures
        text::texts(r@) == broken_lines(summary::group_views(groups@)),
{
    let ghost all = summary::group_views(groups@);
    let mut out: Vec<String> = Vec::new();
    assert(text::texts(out@) =~= broken_lines(all.take(0)));
    for i in 0..groups.len()
        invariant
            all == summary::group_views(groups@),
            text::texts(out@) == broken_lines(all.take(i as int)),
    {
        let g = &groups[i];
        proof {
            assert(all.take(i + 1).drop_last() == all.take(i as int));
            assert(all[i as int] == (g.0@, g.1));
        }
        if g.1.failed > 0 {
            let mut s = own("    ");
            s.append(&g.0);
            s.append("   ");
            add_number(&mut s, g.1.failed as u64);
            s.append(" of ");
            add_number(&mut s, g.1.n as u64);
            push_line(&mut out, s);
        }
    }
    assert(all.take(all.len() as int) == all);
    out
}

fn push_detail(out: &mut Vec<String>, d: &CaseDetail)
    ensures
        text::texts(final(out)@) == text::texts(old(out)@) + detail_lines(d@),
{
    let ghost start = text::texts(out@);
    assert(d@.notes.len() == d.notes@.len());
    if d.notes.len() == 0 {
        assert(start + Seq::<Seq<char>>::empty() =~= start);
        return;
    }
    let mut title = own("\n  ");
    title.append(&d.id);
    title.append(" [");
    title.append(&d.language);
    title.append("]");
    push_line(out, title);
    let mut said = own("    said: ");
    said.append(&d.said);
    push_line(out, said);
    let ghost titled = text::texts(out@);
    let ghost told = d@.notes.map_values(|n: Seq<char>| "    - "@ + n);
    assert(titled + told.take(0) =~= titled);
    for i in 0..d.notes.len()
        invariant
            told == d@.notes.map_values(|n: Seq<char>| "    - "@ + n),
            text::texts(out@) == titled + told.take(i as int),
    {
        let mut line = own("    - ");
        line.append(&d.notes[i]);
        push_line(out, line);
        assert(d@.notes[i as int] == d.notes@[i as int]@);
        assert(told.take(i + 1) =~= told.take(i as int).push(told[i as int]));
        assert(text::texts(out@) =~= titled + told.take(i + 1));
    }
    assert(told.take(told.len() as int) == told);
    assert(text::texts(out@) =~= start + detail_lines(d@));
}

fn languages_of(reports: &Vec<CaseReport>) -> (r: Vec<String>)
    ensures
        text::texts(r@) == report_languages(order::views(reports@)),
        r@.len() == reports@.len(),
{
    let mut out: Vec<String> = Vec::new();
    for i in 0..reports.len()
        invariant
            out@.len() == i,
            forall|k: int| 0 <= k < i ==> (#[trigger] out@[k])@ == reports@[k]@.language,
    {
        out.push(reports[i].language.clone());
    }
    assert(text::texts(out@) =~= report_languages(order::views(reports@)));
    out
}

fn classes_of(reports: &Vec<CaseReport>) -> (r: Vec<String>)
    ensures
        text::texts(r@) == report_classes(order::views(reports@)),
        r@.len() == reports@.len(),
{
    let mut out: Vec<String> = Vec::new();
    for i in 0..reports.len()
        invariant
            out@.len() == i,
            forall|k: int|
                0 <= k < i ==> (#[trigger] out@[k])@ == fixture::class_name(reports@[k]@.class),
    {
        out.push(own(reports[i].class.to_text()));
    }
    assert(text::texts(out@) =~= report_classes(order::views(reports@)));
    out
}

proof fn lemma_rates_hold(
    groups: Seq<(Seq<char>, Summary)>,
    reports: Seq<CaseReportV>,
    keys: Seq<Seq<char>>,
    i: int,
)
    requires
        summary::are_groups(groups, reports, keys),
        reports.len() <= usize::MAX,
        0 <= i < groups.len(),
    ensures
        rates_hold(groups[i].1),
{
    let mine = summary::filed_under(reports, keys, groups[i].0);
    lemma_filed_bound(reports, keys, groups[i].0);
    summary::law_the_success_rates_nest(mine);
}

proof fn lemma_filed_bound(reports: Seq<CaseReportV>, keys: Seq<Seq<char>>, key: Seq<char>)
    ensures
        summary::filed_under(reports, keys, key).len() <= reports.len(),
    decreases reports.len(),
{
    if reports.len() > 0 && keys.len() > 0 {
        lemma_filed_bound(reports.drop_last(), keys.drop_last(), key);
    }
}

/// Tell a run as a story, line by line.
///
/// Failures are grouped by class, because six spread across six classes is a
/// weak model and six in one class is a broken rung — and the fix differs.
pub fn print_summary(out: &RunOutcome) -> (r: Vec<String>)
    ensures
        text::texts(r@) == story(order::views(out.safe@), order::views(out.detail@)),
{
    let ghost safe = order::views(out.safe@);
    let total: usize = out.safe.len();
    let whole = summarise(&out.safe);
    proof {
        assert(safe.len() == total);
        summary::law_the_success_rates_nest(safe);
    }
    let mut lines = headline_lines(&whole);

    let languages = languages_of(&out.safe);
    let by_lang = group_by_keys(&out.safe, &languages);
    proof {
        let keys = text::texts(languages@);
        let groups = summary::group_views(by_lang@);
        summary::lemma_one_grouping(groups, safe, keys);
        assert forall|i: int| 0 <= i < by_lang@.len() implies rates_hold(
            (#[trigger] by_lang@[i]).1,
        ) by {
            lemma_rates_hold(groups, safe, keys, i);
            assert(groups[i].1 == by_lang@[i].1);
        }
    }
    let tongue_lines = languages_text(&by_lang);
    push_all(&mut lines, &tongue_lines);
    let ghost b = text::texts(lines@);

    let classes = classes_of(&out.safe);
    let by_class = group_by_keys(&out.safe, &classes);
    proof {
        summary::lemma_one_grouping(
            summary::group_views(by_class@),
            safe,
            text::texts(classes@),
        );
    }
    let broken = broken_text(&by_class);
    assert(text::texts(broken@).len() == broken@.len());
    let ghost told = text::texts(broken@);
    if broken.len() > 0 {
        push_line(&mut lines, own("\n  where it went wrong"));
        push_all(&mut lines, &broken);
    }
    let ghost c = text::texts(lines@);
    assert(c =~= b + under("\n  where it went wrong"@, told));

    let ghost details = order::views(out.detail@);
    assert(c + all_detail_lines(details.take(0)) =~= c);
    for i in 0..out.detail.len()
        invariant
            details == order::views(out.detail@),
            text::texts(lines@) == c + all_detail_lines(details.take(i as int)),
    {
        proof {
            assert(details.take(i + 1).drop_last() == details.take(i as int));
            assert(details[i as int] == out.detail@[i as int]@);
        }
        push_detail(&mut lines, &out.detail[i]);
        assert(text::texts(lines@) =~= c + all_detail_lines(details.take(i + 1)));
    }
    assert(details.take(details.len() as int) == details);
    let ghost d = text::texts(lines@);
    if whole.failed > 0 {
        let mut s = own("\n  ");
        add_number(&mut s, whole.failed as u64);
        s.append(" case(s) failed.");
        push_line(&mut lines, s);
    }
    proof {
        summary::lemma_shares(safe);
        assert(text::texts(lines@) =~= d + failed_line(whole.failed as nat));
    }
    lines
}

// ---------------------------------------------------------------------------
// Laws
// ---------------------------------------------------------------------------

/// The same fixture finds its server however the user wrote the name: a name
/// with one more character that is neither letter nor digit means the same.
pub proof fn law_punctuation_makes_no_difference(a: Seq<char>, c: char, b: Seq<char>)
    requires
        !text::is_alnum(c),
    ensures
        squashed(a.push(c) + b) == squashed(a + b),
    decreases b.len(),
{
    if b.len() == 0 {
        assert(a.push(c) + b =~= a.push(c));
        assert(a + b =~= a);
        assert(a.push(c).drop_last() =~= a);
    } else {
        law_punctuation_makes_no_difference(a, c, b.drop_last());
        assert((a.push(c) + b).drop_last() =~= a.push(c) + b.drop_last());
        assert((a + b).drop_last() =~= a + b.drop_last());
    }
}

/// The server a fixture gets is one that is meant, and no earlier one is.
pub proof fn law_the_first_server_meant_is_taken(
    servers: Seq<Seq<char>>,
    name: Seq<char>,
    k: int,
)
    ensures
        server_at(servers, name) < servers.len() ==> squashed(
            servers[server_at(servers, name) as int],
        ) == squashed(name),
        0 <= k < server_at(servers, name) ==> squashed(servers[k]) != squashed(name),
        server_at(servers, name) <= servers.len(),
    decreases servers.len(),
{
    if servers.len() > 0 && squashed(servers[0]) != squashed(name) {
        law_the_first_server_meant_is_taken(servers.drop_first(), name, k - 1);
        let rest = servers.drop_first();
        if server_at(rest, name) < rest.len() {
            assert(rest[server_at(rest, name) as int] == servers[1 + server_at(rest, name) as int]);
        }
        if 0 < k < server_at(servers, name) {
            assert(rest[k - 1] == servers[k]);
        }
    }
}

/// A percentage is one, and everything is a hundred of them.
pub proof fn law_a_rate_is_a_percentage(r: Rate)
    requires
        r.part <= r.whole,
    ensures
        whole_percent(r) <= 100,
        r.whole > 0 && r.part == r.whole ==> whole_percent(r) == 100,
        r.part == 0 ==> whole_percent(r) == 0,
{
    if r.whole > 0 {
        let part = 100 * r.part;
        let whole = r.whole as int;
        let q = part / whole;
        let rest = part % whole;
        vstd::arithmetic::div_mod::lemma_fundamental_div_mod(part, whole);
        assert(q <= 100 && (q == 100 ==> rest == 0)) by (nonlinear_arith)
            requires
                part == whole * q + rest,
                0 <= rest < whole,
                part <= 100 * whole,
        ;
        if r.part == r.whole {
            assert(q == 100) by (nonlinear_arith)
                requires
                    part == whole * q + rest,
                    0 <= rest < whole,
                    part == 100 * whole,
            ;
        }
    }
}

/// Every entity of a house is listed: by its area where it has one, and at the
/// end where it has none.
pub proof fn law_no_entity_is_invisible(h: Seq<EntityV>, i: int)
    requires
        0 <= i < h.len(),
    ensures
        h[i].areas.len() == 0 ==> strays(h).contains(h[i]),
        forall|k: int|
            0 <= k < h[i].areas.len() ==> house::house_in_area(
                h,
                #[trigger] h[i].areas[k],
            ).contains(h[i]),
{
    broadcast use vstd::seq_lib::group_seq_properties;

    if h[i].areas.len() == 0 {
        let test = |e: EntityV| e.areas.len() == 0;
        h.lemma_filter_contains(test, i);
    }
    assert forall|k: int| 0 <= k < h[i].areas.len() implies house::house_in_area(
        h,
        #[trigger] h[i].areas[k],
    ).contains(h[i]) by {
        let area = h[i].areas[k];
        let test = |e: EntityV| house::is_in(e, area);
        assert(h[i].areas.contains(area));
        assert(test(h[i]));
        h.lemma_filter_contains(test, i);
    }
}

/// Two names of a server are meant alike where they are the same letters and
/// digits, case aside: a text is squashed character by character, a letter or
/// digit to its small letter and anything else to nothing.
pub proof fn law_a_name_is_squashed_by_character(a: Seq<char>, b: Seq<char>, c: char)
    ensures
        squashed(a + b) == squashed(a) + squashed(b),
        text::is_alnum(c) ==> squashed(seq![c]) == text::lowered_char(c),
        !text::is_alnum(c) ==> squashed(seq![c]).len() == 0,
    decreases b.len(),
{
    assert(seq![c].drop_last().len() == 0);
    assert(squashed(seq![c].drop_last()).len() == 0);
    if text::is_alnum(c) {
        assert(squashed(seq![c]) == text::lowered_char(c));
    }
    if b.len() == 0 {
        assert(a + b == a);
        assert(squashed(a) + squashed(b) == squashed(a));
    } else {
        law_a_name_is_squashed_by_character(a, b.drop_last(), c);
        assert((a + b).drop_last() == a + b.drop_last());
        assert((a + b).last() == b.last());
        let x = squashed(a);
        let y = squashed(b.drop_last());
        let z = text::lowered_char(b.last());
        assert(x + y + z == x + (y + z));
    }
}

/// A file of cases is run at the first server that is meant by its name, where
/// one is and a case of it is selected; otherwise it is skipped.
pub proof fn law_a_file_is_run_where_it_can_be(
    path: Seq<char>,
    server: Seq<char>,
    cases: Seq<fixture::CaseV>,
    servers: Seq<Seq<char>>,
    only: Option<Seq<char>>,
    i: int,
)
    ensures
        ({
            let step = file_step(path, server, cases, servers, only);
            let n = runner::selected_count(cases, only);
            &&& (forall|j: int|
                0 <= j < servers.len() ==> squashed(#[trigger] servers[j]) != squashed(server))
                ==> step is Skip
            &&& n == 0 ==> step is Skip
            &&& 0 <= i < servers.len() && squashed(servers[i]) == squashed(server) && (forall|
                j: int,
            |
                0 <= j < i ==> squashed(#[trigger] servers[j]) != squashed(server)) && n > 0
                ==> step == (FileStepV::Run {
                server: i as nat,
                heading: "\n"@ + path + " — "@ + text::decimal(n) + " cases"@,
            })
        }),
{
    law_the_first_server_meant_is_taken(servers, server, i);
    let at = server_at(servers, server) as int;
    if 0 <= i < servers.len() && squashed(servers[i]) == squashed(server) && (forall|j: int|
        0 <= j < i ==> squashed(#[trigger] servers[j]) != squashed(server)) {
        if at < i {
            assert(squashed(servers[at]) != squashed(server));
        }
        assert(at == i);
    }
}

/// The settings of a run are those that were given.
pub proof fn law_a_run_is_set_as_given(a: Args, i: int)
    ensures
        ({
            let o = options_of(a);
            &&& o.languages.len() == a.languages@.len()
            &&& 0 <= i < a.languages@.len() ==> o.languages[i] == a.languages@[i]@
            &&& o.repeats == a.repeats
            &&& o.dry_run == a.dry_run
            &&& o.quiet_hours == a.quiet_hours
            &&& a.only is None <==> o.only is None
            &&& a.only matches Some(f) ==> o.only == Some(f@)
        }),
{
}

/// A share is told in whole percent, rounded to the nearest and, half way, to the
/// even one; a share of nothing is none.
pub proof fn law_a_share_is_rounded_to_even(r: Rate)
    ensures
        r.whole == 0 ==> whole_percent(r) == 0,
        r.whole > 0 ==> ({
            let p = whole_percent(r) as int;
            let exact = 100 * r.part as int;
            let w = r.whole as int;
            &&& 2 * exact - w <= 2 * (p * w) <= 2 * exact + w
            &&& 2 * (p * w) == 2 * exact + w || 2 * (p * w) == 2 * exact - w ==> p % 2 == 0
        }),
{
    if r.whole > 0 {
        let exact = 100 * r.part as int;
        let w = r.whole as int;
        let q = exact / w;
        let rest = exact % w;
        vstd::arithmetic::div_mod::lemma_fundamental_div_mod(exact, w);
        vstd::arithmetic::div_mod::lemma_mod_bound(exact, w);
        assert(w * q == q * w) by (nonlinear_arith);
        assert((q + 1) * w == q * w + w) by (nonlinear_arith);
        assert(q >= 0) by {
            vstd::arithmetic::div_mod::lemma_div_pos_is_pos(exact, w);
        }
    }
}

/// A device's line holds its name, its domain and its state; it says that it can
/// be dimmed where it has a level, what else it is called where it is, and that it
/// is never targeted where it may not be acted on.
pub proof fn law_a_line_says_what_a_device_is(e: EntityV)
    ensures
        text::begins_with(entity_line(e), entity_columns(e)),
        house::level_of(e) is Some ==> text::has_sub(entity_line(e), "  dimmable"@),
        !house::is_safe(e) ==> text::has_sub(entity_line(e), "  [never targeted]"@),
        e.aliases.len() > 0 ==> text::has_sub(
            entity_line(e),
            "  (also "@ + text::joined(e.aliases, ", "@) + ")"@,
        ),
        house::level_of(e) is None && house::is_safe(e) && e.aliases.len() == 0 ==> entity_line(e)
            == entity_columns(e),
        entity_columns(e) == "    "@ + text::padded(e.name, 40) + " "@ + text::padded(e.domain, 14)
            + " "@ + match e.state {
            Some(s) => s,
            None => "-"@,
        },
{
    let a = entity_columns(e);
    let b = if house::level_of(e) is Some {
        "  dimmable"@
    } else {
        Seq::empty()
    };
    let c = if e.aliases.len() == 0 {
        Seq::empty()
    } else {
        "  (also "@ + text::joined(e.aliases, ", "@) + ")"@
    };
    let d = if house::is_safe(e) {
        Seq::empty()
    } else {
        "  [never targeted]"@
    };
    let all = entity_line(e);
    assert(all == a + b + c + d);
    assert(all.subrange(0, a.len() as int) == a);
    assert(all == a + b + (c + d));
    text::law_what_a_text_holds(all, b, a, c + d);
    assert(all == (a + b) + c + d);
    text::law_what_a_text_holds(all, c, a + b, d);
    let none = Seq::<char>::empty();
    assert(all == (a + b + c) + d + none);
    text::law_what_a_text_holds(all, d, a + b + c, none);
    if b.len() == 0 && c.len() == 0 && d.len() == 0 {
        assert(all == a);
    }
}

/// A house is shown room by room, each under its name with the devices in it, in
/// order.
pub proof fn law_a_house_is_shown_room_by_room(
    a: Seq<Seq<char>>,
    b: Seq<Seq<char>>,
    h: Seq<EntityV>,
    area: Seq<char>,
    i: int,
)
    ensures
        areas_lines(h, a + b) == areas_lines(h, a) + areas_lines(h, b),
        areas_lines(h, seq![area]) == area_lines(h, area),
        area_lines(h, area).len() == 1 + house::house_in_area(h, area).len(),
        area_lines(h, area)[0] == "\n  "@ + area,
        0 <= i < house::house_in_area(h, area).len() ==> area_lines(h, area)[i + 1] == entity_line(
            house::house_in_area(h, area)[i],
        ),
    decreases b.len(),
{
    assert(seq![area].drop_last().len() == 0);
    assert(areas_lines(h, seq![area].drop_last()).len() == 0);
    assert(areas_lines(h, seq![area]) == area_lines(h, area));
    if b.len() == 0 {
        assert(a + b == a);
        assert(areas_lines(h, a) + areas_lines(h, b) == areas_lines(h, a));
    } else {
        law_a_house_is_shown_room_by_room(a, b.drop_last(), h, area, i);
        assert((a + b).drop_last() == a + b.drop_last());
        assert((a + b).last() == b.last());
        let x = areas_lines(h, a);
        let y = areas_lines(h, b.drop_last());
        let z = area_lines(h, b.last());
        assert(x + y + z == x + (y + z));
    }
}

/// The model in use is the local one exactly where the backend is local.
pub proof fn law_the_model_in_use(m: Models)
    ensures
        m.is_local ==> model_in_use(m) == m.local@,
        !m.is_local ==> model_in_use(m) == m.cloud@,
{
}

/// A run is told by language where there is more than one, a line each.
pub proof fn law_each_language_has_its_line(groups: Seq<(Seq<char>, Summary)>, i: int)
    ensures
        groups.len() <= 1 ==> language_lines(groups).len() == 0,
        groups.len() > 1 ==> language_lines(groups).len() == 1 + groups.len(),
        groups.len() > 1 && 0 <= i < groups.len() ==> language_lines(groups)[i + 1]
            == language_line(groups[i]),
{
}

/// A class of cases is told to have gone wrong exactly where one of it failed.
pub proof fn law_each_broken_class_has_its_line(
    groups: Seq<(Seq<char>, Summary)>,
    c: Seq<char>,
)
    ensures
        broken_lines(groups).contains(c) <==> exists|i: int|
            0 <= i < groups.len() && (#[trigger] groups[i]).1.failed > 0 && c == "    "@ + groups[i].0 + "   "@ + text::decimal(groups[i].1.failed as nat) + " of "@ + text::decimal(groups[i].1.n as nat),
    decreases groups.len(),
{
    if groups.len() > 0 {
        let init = groups.drop_last();
        law_each_broken_class_has_its_line(init, c);
        let before = broken_lines(init);
        let after = broken_lines(groups);
        if before.contains(c) {
            let k = choose|k: int| 0 <= k < before.len() && before[k] == c;
            assert(after[k] == c);
            let i = choose|i: int| 0 <= i < init.len() && (#[trigger] init[i]).1.failed > 0 && c == "    "@ + init[i].0 + "   "@ + text::decimal(init[i].1.failed as nat) + " of "@ + text::decimal(init[i].1.n as nat);
            assert(init[i] == groups[i]);
        }
        if after.contains(c) && !before.contains(c) {
            let k = choose|k: int| 0 <= k < after.len() && after[k] == c;
            if k < before.len() {
                assert(before[k] == c);
            }
            assert(groups[groups.len() - 1] == groups.last());
        }
        assert forall|i: int| 0 <= i < groups.len() && (#[trigger] groups[i]).1.failed > 0 && c == "    "@ + groups[i].0 + "   "@ + text::decimal(groups[i].1.failed as nat) + " of "@ + text::decimal(groups[i].1.n as nat) implies after.contains(c) by {
            if i < init.len() {
                assert(init[i] == groups[i]);
            } else {
                assert(after[after.len() - 1] == c);
            }
        }
    }
}

/// Every note of every case is told, under the case and what was said; a case
/// without a note is not told of.
pub proof fn law_every_note_is_told(
    a: Seq<CaseDetailV>,
    b: Seq<CaseDetailV>,
    d: CaseDetailV,
    i: int,
)
    ensures
        all_detail_lines(a + b) == all_detail_lines(a) + all_detail_lines(b),
        all_detail_lines(seq![d]) == detail_lines(d),
        d.notes.len() == 0 ==> detail_lines(d).len() == 0,
        d.notes.len() > 0 ==> detail_lines(d).len() == d.notes.len() + 2,
        0 <= i < d.notes.len() ==> detail_lines(d)[i + 2] == "    - "@ + d.notes[i],
        d.notes.len() > 0 ==> detail_lines(d)[0] == "\n  "@ + d.id + " ["@ + d.language + "]"@
            && detail_lines(d)[1] == "    said: "@ + d.said,
    decreases b.len(),
{
    assert(seq![d].drop_last().len() == 0);
    assert(all_detail_lines(seq![d].drop_last()).len() == 0);
    assert(all_detail_lines(seq![d]) == detail_lines(d));
    if b.len() == 0 {
        assert(a + b == a);
        assert(all_detail_lines(a) + all_detail_lines(b) == all_detail_lines(a));
    } else {
        law_every_note_is_told(a, b.drop_last(), d, i);
        assert((a + b).drop_last() == a + b.drop_last());
        assert((a + b).last() == b.last());
        let x = all_detail_lines(a);
        let y = all_detail_lines(b.drop_last());
        let z = detail_lines(b.last());
        assert(x + y + z == x + (y + z));
    }
}

/// A story ends by saying how many cases failed, where one did, and begins with
/// the six lines of its headline.
pub proof fn law_a_story_ends_with_its_failures(
    safe: Seq<CaseReportV>,
    details: Seq<CaseDetailV>,
    i: int,
)
    ensures
        ({
            let failed = summary::count_verdict(safe, fixture::Verdict::Failed);
            let s = story(safe, details);
            &&& s.len() >= 6
            &&& 0 <= i < 6 ==> s[i] == headline(summary::summary_of(safe))[i]
            &&& failed > 0 ==> s.last() == "\n  "@ + text::decimal(failed) + " case(s) failed."@
            &&& failed_line(0).len() == 0
        }),
{
}

/// The headline says how many were run and skipped, the three shares, what
/// recovered, failed and drifted, and the two times.
pub proof fn law_the_headline_says_it_all(s: Summary)
    ensures
        headline(s).len() == 6,
        headline(s)[0] == "\n  ran "@ + text::decimal(s.n as nat) + "   skipped "@
            + text::decimal(s.skipped as nat),
        headline(s)[1] == "  routed right       "@ + text::decimal(whole_percent(s.routing_rate))
            + "%"@,
        headline(s)[2] == "  worked first try   "@ + text::decimal(whole_percent(s.first_try_rate))
            + "%"@,
        text::has_sub(headline(s)[3], text::decimal(whole_percent(s.final_rate)) + "%"@),
        text::has_sub(headline(s)[3], "   (+"@ + text::decimal(s.recovered as nat) + " recovered)"@),
        headline(s)[4] == "  failed "@ + text::decimal(s.failed as nat) + "   drifted "@
            + text::decimal(s.drifted as nat),
        headline(s)[5] == "  median "@ + text::decimal(s.p50_ms as nat) + " ms   slowest tenth "@
            + text::decimal(s.p95_ms as nat) + " ms"@,
{
    let h = headline(s);
    let p = text::decimal(whole_percent(s.final_rate)) + "%"@;
    let r = "   (+"@ + text::decimal(s.recovered as nat) + " recovered)"@;
    let lead = "  worked in the end  "@;
    let none = Seq::<char>::empty();
    assert(h[1] == "  routed right       "@ + text::decimal(whole_percent(s.routing_rate)) + "%"@);
    assert(h[2] == "  worked first try   "@ + text::decimal(whole_percent(s.first_try_rate)) + "%"@);
    assert(h[3] == lead + p + r);
    text::law_what_a_text_holds(h[3], p, lead, r);
    assert(h[3] == (lead + p) + r + none);
    text::law_what_a_text_holds(h[3], r, lead + p, none);
}

/// A house is shown under its server's name and how many devices it has, room by
/// room; what is in no room is shown at the end, where there is any.
pub proof fn law_a_house_is_shown_whole(server: Seq<char>, h: Seq<EntityV>, i: int)
    ensures
        ({
            let rooms = areas_lines(h, requirement::areas_of(h));
            let all = house_lines(server, h);
            let out = strays(h);
            &&& all[0] == "\n"@ + server + " — "@ + text::decimal(h.len()) + " entities"@
            &&& all.len() == 1 + rooms.len() + (if out.len() == 0 {
                0int
            } else {
                1 + out.len() as int
            })
            &&& 0 <= i < rooms.len() ==> all[1 + i] == rooms[i]
            &&& out.len() > 0 ==> all[1 + rooms.len() as int] == "\n  (no area)"@
            &&& 0 <= i < out.len() ==> all[2 + rooms.len() as int + i] == entity_columns(out[i])
        }),
{
}

/// What is in no room is every device that lists none.
pub proof fn law_who_is_in_no_room(h: Seq<EntityV>, e: EntityV)
    ensures
        strays(h).contains(e) <==> h.contains(e) && e.areas.len() == 0,
    decreases h.len(),
{
    reveal(Seq::filter);
    if h.len() > 0 {
        let init = h.drop_last();
        law_who_is_in_no_room(init, e);
        let before = strays(init);
        let after = strays(h);
        if before.contains(e) {
            let k = choose|k: int| 0 <= k < before.len() && before[k] == e;
            assert(after[k] == e);
            let i = choose|i: int| 0 <= i < init.len() && init[i] == e;
            assert(h[i] == e);
        }
        if after.contains(e) && !before.contains(e) {
            let k = choose|k: int| 0 <= k < after.len() && after[k] == e;
            if k < before.len() {
                assert(before[k] == e);
            }
            assert(h[h.len() - 1] == e);
        }
        if h.contains(e) && e.areas.len() == 0 {
            let i = choose|i: int| 0 <= i < h.len() && h[i] == e;
            if i < init.len() {
                assert(init[i] == e);
            } else {
                assert(after[after.len() - 1] == e);
            }
        }
    }
}

/// A file that is not run says why: its server is not configured, and which are;
/// or no case of it was asked for.
pub proof fn law_why_a_file_is_not_run(
    path: Seq<char>,
    server: Seq<char>,
    cases: Seq<fixture::CaseV>,
    servers: Seq<Seq<char>>,
    only: Option<Seq<char>>,
)
    ensures
        server_at(servers, server) >= servers.len() ==> file_step(
            path,
            server,
            cases,
            servers,
            only,
        ) == FileStepV::Skip(
            "\n"@ + path + " — skipped: no `"@ + server + "` server configured (available: "@ + (
            if servers.len() == 0 {
                "none"@
            } else {
                text::joined(servers, ", "@)
            }) + ")"@,
        ),
        server_at(servers, server) < servers.len() && runner::selected_count(cases, only) == 0
            ==> file_step(path, server, cases, servers, only) == FileStepV::Skip(
            "\n"@ + path + " — no case matches --only"@,
        ),
{
}

/// A story is its headline, then the languages, then the classes that went wrong
/// under their heading, then the cases, then how many failed.
pub proof fn law_a_story_is_told_in_order(safe: Seq<CaseReportV>, details: Seq<CaseDetailV>)
    ensures
        ({
            let broken = broken_lines(summary::grouped(safe, report_classes(safe)));
            story(safe, details) == headline(summary::summary_of(safe)) + language_lines(
                summary::grouped(safe, report_languages(safe)),
            ) + (if broken.len() == 0 {
                Seq::empty()
            } else {
                seq!["\n  where it went wrong"@] + broken
            }) + all_detail_lines(details) + failed_line(
                summary::count_verdict(safe, fixture::Verdict::Failed),
            )
        }),
{
}

/// Reports are grouped by their own language, and by the name of their own class.
pub proof fn law_reports_are_grouped_by_what_they_are(reports: Seq<CaseReportV>, i: int)
    requires
        0 <= i < reports.len(),
    ensures
        report_languages(reports).len() == reports.len(),
        report_languages(reports)[i] == reports[i].language,
        report_classes(reports).len() == reports.len(),
        report_classes(reports)[i] == fixture::class_name(reports[i].class),
{
}

/// A language's line says its shares and its median.
pub proof fn law_a_language_line_says_its_shares(g: (Seq<char>, Summary))
    ensures
        language_line(g) == "    "@ + g.0 + "   routed "@ + (text::decimal(
            whole_percent(g.1.routing_rate),
        ) + "%"@) + "   final "@ + (text::decimal(whole_percent(g.1.final_rate)) + "%"@)
            + "   median "@ + text::decimal(g.1.p50_ms as nat) + " ms"@,
{
}

/// A run that cannot measure anything says why it does not start.
pub proof fn law_why_a_run_does_not_start(backend: Seq<char>)
    ensures
        nothing_to_command()
            == "no tool servers are switched on — there is nothing to command. Connect one with `fono tools add` first."@,
        backend_cannot_act(backend) == "the "@ + backend
            + " assistant cannot invoke tools, so every command would fail for the same reason and the numbers would say nothing about routing"@,
{
}

} // verus!
